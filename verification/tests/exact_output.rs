use tsconfig_includes::exact::{exact_files_from_output, exact_includes_from_outputs};
use tsconfig_includes::file_set::sort_paths;
use tsconfig_includes::path::{parse_path, FilePath};
use tsconfig_includes::typescript_package::{TypescriptConfigFile, TypescriptPackage};

#[test]
fn compiler_output_is_filtered_and_rebased() {
    let root = parse_path("/repo/test-data/happy-path");
    let output = "/repo/test-data/happy-path/packages/foo/src/index.ts\n\
                  /repo/test-data/happy-path/packages/foo/src/lib.ts\n\
                  /usr/lib/node/lib.es5.d.ts\n\
                  /repo/test-data/happy-path/node_modules/typescript/lib/lib.dom.d.ts\n\
                  \n";
    let files = exact_files_from_output(&root, output).unwrap();
    assert_eq!(
        files,
        vec![
            parse_path("packages/foo/src/index.ts"),
            parse_path("packages/foo/src/lib.ts"),
        ]
    );
}

#[test]
fn carriage_returns_and_blank_lines_are_dropped() {
    let root = parse_path("/r");
    let files = exact_files_from_output(&root, "/r/a.ts\r\n\r\n/r/b.ts\n").unwrap();
    assert_eq!(files, vec![parse_path("a.ts"), parse_path("b.ts")]);
}

#[test]
fn empty_output_yields_no_files() {
    let root = parse_path("/r");
    let files = exact_files_from_output(&root, "").unwrap();
    assert_eq!(files, Vec::<FilePath>::new());
}

#[test]
fn exact_grouping_sorts_each_package() {
    // The same monorepo as the estimate scenario, with the compiler's answer
    // for `foo` captured beforehand: only foo's own files come back.
    let root = parse_path("/repo/test-data/happy-path");
    let packages = vec![TypescriptPackage {
        scoped_package_name: String::from("foo"),
        tsconfig_file: TypescriptConfigFile::new(parse_path("packages/foo/tsconfig.json")),
    }];
    let outputs = vec![String::from(
        "/repo/test-data/happy-path/packages/foo/src/lib.ts\n\
         /repo/test-data/happy-path/packages/foo/src/index.ts\n\
         /repo/test-data/happy-path/packages/foo/src/data.json\n",
    )];
    let set = exact_includes_from_outputs(&root, &packages, &outputs).unwrap();
    assert_eq!(set.entries.len(), 1);
    assert_eq!(set.entries[0].scoped_package_name, "foo");
    assert_eq!(
        set.entries[0].included_files,
        vec![
            parse_path("packages/foo/src/data.json"),
            parse_path("packages/foo/src/index.ts"),
            parse_path("packages/foo/src/lib.ts"),
        ]
    );
}

#[test]
fn sorting_orders_and_deduplicates() {
    let unsorted = vec![
        parse_path("packages/foo/src/lib.ts"),
        parse_path("packages/bar/src/a.ts"),
        parse_path("packages/foo/src/lib.ts"),
        parse_path("packages/foo/src/index.ts"),
    ];
    let sorted = sort_paths(unsorted);
    assert_eq!(
        sorted,
        vec![
            parse_path("packages/bar/src/a.ts"),
            parse_path("packages/foo/src/index.ts"),
            parse_path("packages/foo/src/lib.ts"),
        ]
    );
}
