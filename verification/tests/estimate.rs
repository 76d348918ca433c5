use tsconfig_includes::estimate::tsconfig_includes_by_package_name;
use tsconfig_includes::path::parse_path;
use tsconfig_includes::typescript_package::TypescriptConfigFile;

fn fixture_root(test_name: &str) -> String {
    format!("/tmp/tsconfig-includes-{}/test-data/happy-path", test_name)
}

fn write_happy_path_fixture(root: &str) {
    fs_err::create_dir_all(format!("{}/packages/foo/src", root)).unwrap();
    fs_err::create_dir_all(format!("{}/packages/bar/src", root)).unwrap();
    fs_err::write(format!("{}/lerna.json", root), "{\"packages\": [\"packages/*\"]}").unwrap();

    fs_err::write(
        format!("{}/packages/foo/package.json", root),
        "{\"name\": \"@typescript-tools/foo\", \"version\": \"1.0.0\"}",
    )
    .unwrap();
    fs_err::write(
        format!("{}/packages/foo/tsconfig.json", root),
        "{\"compilerOptions\": {\"resolveJsonModule\": true}, \
         \"include\": [\"src/**/*.json\", \"src/**/*\"]}",
    )
    .unwrap();
    fs_err::write(format!("{}/packages/foo/src/index.ts", root), "export {};\n").unwrap();
    fs_err::write(format!("{}/packages/foo/src/lib.ts", root), "export {};\n").unwrap();
    fs_err::write(format!("{}/packages/foo/src/data.json", root), "{}\n").unwrap();

    fs_err::write(
        format!("{}/packages/bar/package.json", root),
        "{\"name\": \"@typescript-tools/bar\", \"version\": \"1.0.0\", \
         \"dependencies\": {\"@typescript-tools/foo\": \"1.0.0\"}}",
    )
    .unwrap();
    fs_err::write(
        format!("{}/packages/bar/tsconfig.json", root),
        "{\"compilerOptions\": {\"allowJs\": true}, \"include\": [\"src/**/*\"]}",
    )
    .unwrap();
    fs_err::write(format!("{}/packages/bar/src/bin.ts", root), "export {};\n").unwrap();
    fs_err::write(format!("{}/packages/bar/src/index.ts", root), "export {};\n").unwrap();
    fs_err::write(format!("{}/packages/bar/src/legacy.js", root), "module.exports = {};\n")
        .unwrap();
}

fn cleanup_fixture(test_name: &str) {
    let _ = fs_err::remove_dir_all(format!("/tmp/tsconfig-includes-{}", test_name));
}

fn check(test_name: &str, tsconfigs: &[&str], expected: &[(&str, Vec<&str>)]) {
    let fixture = fixture_root(test_name);
    write_happy_path_fixture(&fixture);
    let root = parse_path(&fixture);
    let requested: Vec<TypescriptConfigFile> =
        tsconfigs.iter().map(|p| TypescriptConfigFile::new(parse_path(p))).collect();
    let result = tsconfig_includes_by_package_name(&root, &requested);
    cleanup_fixture(test_name);
    match result {
        Ok(actual) => {
            assert_eq!(actual.entries.len(), expected.len());
            for (entry, (name, files)) in actual.entries.iter().zip(expected.iter()) {
                assert_eq!(&entry.scoped_package_name, name);
                let expected_files: Vec<_> = files.iter().map(|f| parse_path(f)).collect();
                assert_eq!(entry.included_files, expected_files);
            }
        }
        // Don't care what went wrong for now
        Err(err) => {
            panic!("Unexpected error: {:?}", err);
        }
    };
}

#[test]
fn list_grouped_estimate_happy_path_dependencies_bar() {
    check(
        "bar",
        &["packages/bar/tsconfig.json"],
        &[
            (
                "@typescript-tools/bar",
                vec![
                    "packages/bar/src/bin.ts",
                    "packages/bar/src/index.ts",
                    "packages/bar/src/legacy.js",
                ],
            ),
            (
                "@typescript-tools/foo",
                vec![
                    "packages/foo/src/data.json",
                    "packages/foo/src/index.ts",
                    "packages/foo/src/lib.ts",
                ],
            ),
        ],
    );
}

#[test]
fn list_grouped_estimate_happy_path_dependencies_foo() {
    check(
        "foo",
        &["packages/foo/tsconfig.json"],
        &[(
            "@typescript-tools/foo",
            vec![
                "packages/foo/src/data.json",
                "packages/foo/src/index.ts",
                "packages/foo/src/lib.ts",
            ],
        )],
    );
}

#[test]
fn list_grouped_estimate_happy_path_dependencies_foo_and_bar() {
    check(
        "foo-and-bar",
        &["packages/foo/tsconfig.json", "packages/bar/tsconfig.json"],
        &[
            (
                "@typescript-tools/bar",
                vec![
                    "packages/bar/src/bin.ts",
                    "packages/bar/src/index.ts",
                    "packages/bar/src/legacy.js",
                ],
            ),
            (
                "@typescript-tools/foo",
                vec![
                    "packages/foo/src/data.json",
                    "packages/foo/src/index.ts",
                    "packages/foo/src/lib.ts",
                ],
            ),
        ],
    );
}

fn write_plain_fixture(root: &str) {
    fs_err::create_dir_all(format!("{}/packages/foo/src", root)).unwrap();
    fs_err::create_dir_all(format!("{}/packages/bar/src", root)).unwrap();
    fs_err::write(format!("{}/lerna.json", root), "{\"packages\": [\"packages/*\"]}").unwrap();
    fs_err::write(
        format!("{}/packages/foo/package.json", root),
        "{\"name\": \"foo\", \"version\": \"1.0.0\"}",
    )
    .unwrap();
    fs_err::write(
        format!("{}/packages/foo/tsconfig.json", root),
        "{\"include\": [\"src/**/*\"]}",
    )
    .unwrap();
    fs_err::write(format!("{}/packages/foo/src/index.ts", root), "export {};\n").unwrap();
    fs_err::write(format!("{}/packages/foo/src/lib.ts", root), "export {};\n").unwrap();
    fs_err::write(
        format!("{}/packages/bar/package.json", root),
        "{\"name\": \"bar\", \"version\": \"1.0.0\", \"dependencies\": {\"foo\": \"1.0.0\"}}",
    )
    .unwrap();
    fs_err::write(
        format!("{}/packages/bar/tsconfig.json", root),
        "{\"compilerOptions\": {\"allowJs\": true}, \"include\": [\"src/**/*\"]}",
    )
    .unwrap();
    fs_err::write(format!("{}/packages/bar/src/bin.ts", root), "export {};\n").unwrap();
    fs_err::write(format!("{}/packages/bar/src/index.ts", root), "export {};\n").unwrap();
    fs_err::write(format!("{}/packages/bar/src/legacy.js", root), "module.exports = {};\n")
        .unwrap();
}

#[test]
fn requesting_bar_enumerates_bar_and_its_dependency_foo() {
    // End-to-end estimate: requesting bar's configuration yields bar's files
    // (its script file admitted by allowJs) and those of its dependency foo,
    // each list sorted, grouped by package name.
    let root = "/tmp/tsconfig-includes-plain/test-data/happy-path";
    write_plain_fixture(root);
    let result = tsconfig_includes_by_package_name(
        &parse_path(root),
        &vec![TypescriptConfigFile::new(parse_path("packages/bar/tsconfig.json"))],
    );
    let _ = fs_err::remove_dir_all("/tmp/tsconfig-includes-plain");
    let set = result.unwrap();
    assert_eq!(set.entries.len(), 2);
    assert_eq!(set.entries[0].scoped_package_name, "bar");
    assert_eq!(
        set.entries[0].included_files,
        vec![
            parse_path("packages/bar/src/bin.ts"),
            parse_path("packages/bar/src/index.ts"),
            parse_path("packages/bar/src/legacy.js"),
        ]
    );
    assert_eq!(set.entries[1].scoped_package_name, "foo");
    assert_eq!(
        set.entries[1].included_files,
        vec![
            parse_path("packages/foo/src/index.ts"),
            parse_path("packages/foo/src/lib.ts"),
        ]
    );
}
