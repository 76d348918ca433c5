use tsconfig_includes::closure::{
    resolve_package_closure, ClosureError, PackageDependencies, PackageDirectory,
};
use tsconfig_includes::path::parse_path;
use tsconfig_includes::typescript_package::{TypescriptConfigFile, TypescriptPackage};

fn directories(entries: &[(&str, &str)]) -> Vec<PackageDirectory> {
    entries
        .iter()
        .map(|(name, dir)| PackageDirectory {
            name: name.to_string(),
            directory: parse_path(dir),
        })
        .collect()
}

fn graph(entries: &[(&str, &[&str])]) -> Vec<PackageDependencies> {
    entries
        .iter()
        .map(|(name, deps)| PackageDependencies {
            name: name.to_string(),
            dependencies: deps.iter().map(|d| d.to_string()).collect(),
        })
        .collect()
}

fn requests(paths: &[&str]) -> Vec<TypescriptConfigFile> {
    paths.iter().map(|p| TypescriptConfigFile::new(parse_path(p))).collect()
}

fn identity_names(packages: &[TypescriptPackage]) -> Vec<String> {
    packages.iter().map(|p| p.scoped_package_name.clone()).collect()
}

#[test]
fn closure_includes_the_requested_package_itself() {
    // `solo` has no internal dependencies, yet resolves to itself.
    let dirs = directories(&[("solo", "packages/solo")]);
    let deps = graph(&[("solo", &[])]);
    let resolved =
        resolve_package_closure(&dirs, &deps, &requests(&["packages/solo/tsconfig.json"]))
            .unwrap();
    assert_eq!(identity_names(&resolved), vec!["solo"]);
    assert_eq!(resolved[0].tsconfig_file.as_path(), &parse_path("packages/solo/tsconfig.json"));
}

#[test]
fn closure_pulls_in_transitive_dependencies() {
    let dirs = directories(&[
        ("a", "packages/a"),
        ("b", "packages/b"),
        ("c", "packages/c"),
    ]);
    let deps = graph(&[("a", &["b", "c"]), ("b", &["c"]), ("c", &[])]);
    let resolved =
        resolve_package_closure(&dirs, &deps, &requests(&["packages/a/tsconfig.json"])).unwrap();
    assert_eq!(identity_names(&resolved), vec!["a", "b", "c"]);
}

#[test]
fn union_of_separate_requests_equals_one_call() {
    let dirs = directories(&[
        ("a", "packages/a"),
        ("b", "packages/b"),
        ("c", "packages/c"),
    ]);
    let deps = graph(&[("a", &["c"]), ("b", &["c"]), ("c", &[])]);

    let only_a =
        resolve_package_closure(&dirs, &deps, &requests(&["packages/a/tsconfig.json"])).unwrap();
    let only_b =
        resolve_package_closure(&dirs, &deps, &requests(&["packages/b/tsconfig.json"])).unwrap();
    let together = resolve_package_closure(
        &dirs,
        &deps,
        &requests(&["packages/a/tsconfig.json", "packages/b/tsconfig.json"]),
    )
    .unwrap();

    let mut unioned: Vec<String> = identity_names(&only_a);
    for name in identity_names(&only_b) {
        if !unioned.contains(&name) {
            unioned.push(name);
        }
    }
    unioned.sort();
    assert_eq!(identity_names(&together), unioned);
}

#[test]
fn shared_dependencies_are_deduplicated() {
    // Both requests depend on `common`; it resolves exactly once.
    let dirs = directories(&[
        ("a", "packages/a"),
        ("b", "packages/b"),
        ("common", "packages/common"),
    ]);
    let deps = graph(&[("a", &["common"]), ("b", &["common"]), ("common", &[])]);
    let resolved = resolve_package_closure(
        &dirs,
        &deps,
        &requests(&["packages/a/tsconfig.json", "packages/b/tsconfig.json"]),
    )
    .unwrap();
    assert_eq!(identity_names(&resolved), vec!["a", "b", "common"]);
}

#[test]
fn requesting_the_same_package_twice_changes_nothing() {
    let dirs = directories(&[("a", "packages/a"), ("c", "packages/c")]);
    let deps = graph(&[("a", &["c"]), ("c", &[])]);
    let once =
        resolve_package_closure(&dirs, &deps, &requests(&["packages/a/tsconfig.json"])).unwrap();
    let twice = resolve_package_closure(
        &dirs,
        &deps,
        &requests(&["packages/a/tsconfig.json", "packages/a/tsconfig.json"]),
    )
    .unwrap();
    assert_eq!(identity_names(&once), identity_names(&twice));
}

#[test]
fn configuration_at_the_monorepo_root_is_an_error() {
    let dirs = directories(&[("a", "packages/a")]);
    let deps = graph(&[("a", &[])]);
    let err = resolve_package_closure(&dirs, &deps, &requests(&["tsconfig.json"])).unwrap_err();
    match err {
        ClosureError::PackageInMonorepoRoot { tsconfig_file } => {
            assert_eq!(tsconfig_file, parse_path("tsconfig.json"));
        }
        other => panic!("expected a package-in-monorepo-root error, got {:?}", other),
    }
}

#[test]
fn unknown_owner_is_an_error() {
    let dirs = directories(&[("a", "packages/a")]);
    let deps = graph(&[("a", &[])]);
    let err = resolve_package_closure(&dirs, &deps, &requests(&["packages/b/tsconfig.json"]))
        .unwrap_err();
    match err {
        ClosureError::UnknownPackage { tsconfig_file } => {
            assert_eq!(tsconfig_file, parse_path("packages/b/tsconfig.json"));
        }
        other => panic!("expected an unknown-package error, got {:?}", other),
    }
}

#[test]
fn dependency_missing_from_the_directory_index_is_an_error() {
    let dirs = directories(&[("a", "packages/a")]);
    let deps = graph(&[("a", &["ghost"])]);
    let err = resolve_package_closure(&dirs, &deps, &requests(&["packages/a/tsconfig.json"]))
        .unwrap_err();
    match err {
        ClosureError::UnknownDependency { name } => assert_eq!(name, "ghost"),
        other => panic!("expected an unknown-dependency error, got {:?}", other),
    }
}

#[test]
fn no_requests_resolve_to_no_packages() {
    let dirs = directories(&[("a", "packages/a")]);
    let deps = graph(&[("a", &[])]);
    let resolved = resolve_package_closure(&dirs, &deps, &requests(&[])).unwrap();
    assert!(resolved.is_empty());
}
