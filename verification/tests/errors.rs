use tsconfig_includes::estimate::{
    tsconfig_includes_by_package_name, tsconfig_includes_estimate, BuildWalkerErrorKind, ErrorKind,
};
use tsconfig_includes::path::{file_path_ends_with, parse_path};
use tsconfig_includes::typescript_package::TypescriptConfigFile;

fn small_fixture(root: &str, with_include_globs: bool) {
    fs_err::create_dir_all(format!("{}/packages/solo/src", root)).unwrap();
    fs_err::write(format!("{}/lerna.json", root), "{\"packages\": [\"packages/*\"]}").unwrap();
    fs_err::write(
        format!("{}/packages/solo/package.json", root),
        "{\"name\": \"solo\", \"version\": \"1.0.0\"}",
    )
    .unwrap();
    let tsconfig = if with_include_globs {
        "{\"include\": [\"src/**/*\"]}"
    } else {
        "{\"compilerOptions\": {\"allowJs\": true}}"
    };
    fs_err::write(format!("{}/packages/solo/tsconfig.json", root), tsconfig).unwrap();
    fs_err::write(format!("{}/packages/solo/src/index.ts", root), "export {};\n").unwrap();
}

#[test]
fn configuration_at_the_root_fails_before_any_enumeration() {
    // No monorepo exists at this path at all: the structural check comes
    // first and needs no filesystem.
    let root = parse_path("/nonexistent-monorepo");
    let err = tsconfig_includes_estimate(&root, &TypescriptConfigFile::new(parse_path(
        "tsconfig.json",
    )))
    .unwrap_err();
    match err.kind {
        ErrorKind::PackageInMonorepoRoot(p) => {
            assert_eq!(p, parse_path("/nonexistent-monorepo/tsconfig.json"));
        }
        other => panic!("expected a package-in-monorepo-root error, got {:?}", other),
    }
}

#[test]
fn root_package_error_renders_its_path() {
    let root = parse_path("/repo");
    let err = tsconfig_includes_estimate(&root, &TypescriptConfigFile::new(parse_path(
        "tsconfig.json",
    )))
    .unwrap_err();
    assert_eq!(err.message(), "unexpected package in monorepo root: /repo/tsconfig.json");
}

#[test]
fn missing_include_globs_are_reported() {
    let root = "/tmp/tsconfig-includes-no-globs/repo";
    small_fixture(root, false);
    let result = tsconfig_includes_by_package_name(
        &parse_path(root),
        &vec![TypescriptConfigFile::new(parse_path("packages/solo/tsconfig.json"))],
    );
    let _ = fs_err::remove_dir_all("/tmp/tsconfig-includes-no-globs");
    match result.unwrap_err().kind {
        ErrorKind::BuildWalker(e) => match e.kind {
            BuildWalkerErrorKind::MissingIncludeGlobs { tsconfig_file } => {
                assert_eq!(tsconfig_file, parse_path("packages/solo/tsconfig.json"));
            }
            other => panic!("expected missing include globs, got {:?}", other),
        },
        other => panic!("expected a build-walker error, got {:?}", other),
    }
}

#[test]
fn malformed_compiler_flags_are_reported() {
    // A flag present with a non-boolean shape is a decode failure, not a
    // silent default.
    let root = "/tmp/tsconfig-includes-malformed/repo";
    small_fixture(root, true);
    fs_err::write(
        format!("{}/packages/solo/tsconfig.json", root),
        "{\"compilerOptions\": {\"allowJs\": \"yes\"}, \"include\": [\"src/**/*\"]}",
    )
    .unwrap();
    let result = tsconfig_includes_by_package_name(
        &parse_path(root),
        &vec![TypescriptConfigFile::new(parse_path("packages/solo/tsconfig.json"))],
    );
    let _ = fs_err::remove_dir_all("/tmp/tsconfig-includes-malformed");
    match result.unwrap_err().kind {
        ErrorKind::BuildWalker(e) => match e.kind {
            BuildWalkerErrorKind::MalformedCompilerOptions { tsconfig_file } => {
                assert_eq!(tsconfig_file, parse_path("packages/solo/tsconfig.json"));
            }
            other => panic!("expected malformed compiler options, got {:?}", other),
        },
        other => panic!("expected a build-walker error, got {:?}", other),
    }
}

#[test]
fn unknown_package_is_reported() {
    let root = "/tmp/tsconfig-includes-unknown/repo";
    small_fixture(root, true);
    let result = tsconfig_includes_by_package_name(
        &parse_path(root),
        &vec![TypescriptConfigFile::new(parse_path("packages/ghost/tsconfig.json"))],
    );
    let _ = fs_err::remove_dir_all("/tmp/tsconfig-includes-unknown");
    match result.unwrap_err().kind {
        ErrorKind::UnknownPackage { tsconfig_file } => {
            assert_eq!(tsconfig_file, parse_path("packages/ghost/tsconfig.json"));
        }
        other => panic!("expected an unknown-package error, got {:?}", other),
    }
}

#[test]
fn whole_enumeration_rejects_a_root_configuration() {
    // The end-to-end entry point must fail, not return an empty result, when
    // a requested configuration sits at the monorepo root.
    let root = "/tmp/tsconfig-includes-rootcfg/repo";
    small_fixture(root, true);
    fs_err::write(format!("{}/tsconfig.json", root), "{\"include\": [\"src/**/*\"]}").unwrap();
    let result = tsconfig_includes_by_package_name(
        &parse_path(root),
        &vec![TypescriptConfigFile::new(parse_path("tsconfig.json"))],
    );
    let _ = fs_err::remove_dir_all("/tmp/tsconfig-includes-rootcfg");
    match result.unwrap_err().kind {
        ErrorKind::PackageInMonorepoRoot(p) => assert_eq!(p, parse_path("tsconfig.json")),
        other => panic!("expected a package-in-monorepo-root error, got {:?}", other),
    }
}

#[test]
fn path_suffix_comparison_goes_by_whole_segments() {
    let p = parse_path("home/test-data/happy-path");
    assert!(file_path_ends_with(&p, &parse_path("test-data/happy-path")));
    assert!(file_path_ends_with(&p, &parse_path("happy-path")));
    assert!(!file_path_ends_with(&p, &parse_path("path")));
    assert!(!file_path_ends_with(&p, &parse_path("other/test-data/happy-path")));
}
