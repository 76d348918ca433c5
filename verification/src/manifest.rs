//! The trusted boundary to the monorepo's manifest data.
//!
//! Discovering the workspace, walking its package manifests and computing
//! transitive internal dependencies belong to the `typescript_tools` crate;
//! the wrappers here call it and hand the outcome over as plain values — the
//! name and directory of every package, and the dependency names recorded for
//! each — on which the rest of the library is verified.  What the calls
//! return depends on what is on disk, so the wrappers promise nothing about
//! the values; the verified logic holds for every value they produce.

use vstd::prelude::*;

use typescript_tools::configuration_file::ConfigurationFile;
use typescript_tools::types::Directory;

use crate::closure::{PackageDependencies, PackageDirectory};
use crate::config::{RawFlag, RawTypescriptConfig};
use crate::path::FilePath;

verus! {

#[verifier::external_type_specification]
#[verifier::external_body]
pub struct ExMonorepoManifest(typescript_tools::monorepo_manifest::MonorepoManifest);

#[verifier::external_type_specification]
#[verifier::external_body]
pub struct ExFromFileError(typescript_tools::io::FromFileError);

#[verifier::external_type_specification]
#[verifier::external_body]
pub struct ExEnumeratePackageManifestsError(
    typescript_tools::monorepo_manifest::EnumeratePackageManifestsError,
);

#[verifier::external_type_specification]
#[verifier::external_body]
pub struct ExQueryError(typescript_tools::query::QueryError);

/// Relies on `typescript_tools::monorepo_manifest::MonorepoManifest::from_directory`:
/// reads the workspace definition at the monorepo root.
#[verifier::external_body]
pub(crate) fn load_monorepo_manifest(monorepo_root: &FilePath) -> (r: Result<
    typescript_tools::monorepo_manifest::MonorepoManifest,
    typescript_tools::io::FromFileError,
>) {
    let root = monorepo_root.segments.join("/");
    typescript_tools::monorepo_manifest::MonorepoManifest::from_directory(root)
}

/// Relies on `MonorepoManifest::package_manifests_by_package_name`: walks the
/// workspace's package manifests and reports each package's name and
/// directory.
#[verifier::external_body]
pub(crate) fn package_directories(
    manifest: &typescript_tools::monorepo_manifest::MonorepoManifest,
) -> (r: Result<
    Vec<PackageDirectory>,
    typescript_tools::monorepo_manifest::EnumeratePackageManifestsError,
>) {
    let by_name = manifest.package_manifests_by_package_name()?;
    Ok(
        by_name.iter().map(
            |(name, package_manifest)| PackageDirectory {
                name: name.as_str().to_owned(),
                directory: FilePath {
                    segments: package_manifest.directory().to_string_lossy().split('/').map(
                        str::to_owned,
                    ).collect(),
                },
            },
        ).collect(),
    )
}

/// Relies on `typescript_tools::query::query_internal_dependencies`: computes
/// for every package of the workspace the names of all its transitive
/// internal dependencies, the package itself excluded.
#[verifier::external_body]
pub(crate) fn internal_dependency_graph(monorepo_root: &FilePath) -> (r: Result<
    Vec<PackageDependencies>,
    typescript_tools::query::QueryError,
>) {
    let root = monorepo_root.segments.join("/");
    let deps = typescript_tools::query::query_internal_dependencies(
        root,
        typescript_tools::query::InternalDependenciesFormat::Name,
    )?;
    Ok(
        deps.into_iter().map(
            |(name, dependency_names)| PackageDependencies { name, dependencies: dependency_names },
        ).collect(),
    )
}

#[verifier::external_type_specification]
#[verifier::external_body]
pub struct ExJsonValue(serde_json::Value);

#[verifier::external_type_specification]
#[verifier::external_body]
#[verifier::reject_recursive_types(K)]
#[verifier::reject_recursive_types(V)]
pub struct ExJsonMap<K, V>(serde_json::Map<K, V>);

/// Relies on `typescript_tools::typescript_config::TypescriptConfig::from_directory`:
/// reads and decodes the project configuration file of the package directory
/// `package_directory` (relative to the monorepo root) into its JSON object.
#[verifier::external_body]
pub(crate) fn read_tsconfig_contents(
    monorepo_root: &FilePath,
    package_directory: &FilePath,
) -> (r: Result<serde_json::Map<String, serde_json::Value>, typescript_tools::io::FromFileError>) {
    let root = Directory::unchecked_from_path(monorepo_root.segments.join("/"));
    let dir = Directory::unchecked_from_path(package_directory.segments.join("/"));
    let config = typescript_tools::typescript_config::TypescriptConfig::from_directory(&root, dir)?;
    Ok(config.contents)
}

/// Relies on `serde_json`'s value accessors: picks the
/// `compilerOptions.allowJs`, `compilerOptions.resolveJsonModule` and
/// `include` fields out of a decoded configuration object.  A flag — or the
/// `compilerOptions` object — present with an unexpected shape comes back
/// marked malformed; what that means is decided by the verified defaulting.
#[verifier::external_body]
pub(crate) fn extract_raw_tsconfig(contents: &serde_json::Map<String, serde_json::Value>) -> (r:
    RawTypescriptConfig) {
    let flag = |name: &str| match contents.get("compilerOptions").map(|o| (o.is_object(), o.get(name))) {
        None | Some((true, None)) => RawFlag::Absent,
        Some((false, _)) => RawFlag::Malformed,
        Some((true, Some(v))) => v.as_bool().map_or(RawFlag::Malformed, RawFlag::Value),
    };
    RawTypescriptConfig {
        allow_js: flag("allowJs"),
        resolve_json_module: flag("resolveJsonModule"),
        include_globs: contents.get("include").and_then(|v| v.as_array()).and_then(
            |items| items.iter().map(|v| v.as_str().map(str::to_owned)).collect(),
        ),
    }
}

} // verus!
