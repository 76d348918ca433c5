use tsconfig_includes::path::{
    is_child_of_node_modules, is_glob, is_monorepo_file, join_strings, parse_path, path_to_string,
    remove_relative_path_prefix_from_absolute_path, split_string, FilePath,
    StripPrefixErrorKind,
};

fn path(s: &str) -> FilePath {
    parse_path(s)
}

#[test]
fn is_glob_detects_wildcards() {
    assert!(is_glob("src/**/*"));
    assert!(is_glob("*.ts"));
    assert!(!is_glob("src/index.ts"));
    assert!(!is_glob(""));
}

#[test]
fn glob_file_extension_takes_suffix_after_last_star() {
    assert_eq!(
        tsconfig_includes::path::glob_file_extension("src/**/*.worker.js"),
        Some(String::from(".worker.js"))
    );
    assert_eq!(
        tsconfig_includes::path::glob_file_extension("src/**/*.json"),
        Some(String::from(".json"))
    );
    assert_eq!(tsconfig_includes::path::glob_file_extension("src/**/*"), None);
    // Without any star the whole pattern is its own suffix.
    assert_eq!(
        tsconfig_includes::path::glob_file_extension("abc"),
        Some(String::from("abc"))
    );
}

#[test]
fn split_and_join_are_inverses_on_paths() {
    let segments = split_string("packages/foo/src/index.ts", '/');
    assert_eq!(segments, vec!["packages", "foo", "src", "index.ts"]);
    assert_eq!(join_strings(&segments), "packages/foo/src/index.ts");

    // An absolute path keeps its leading empty segment.
    let absolute = split_string("/home/user", '/');
    assert_eq!(absolute, vec!["", "home", "user"]);
    assert_eq!(join_strings(&absolute), "/home/user");

    assert_eq!(path_to_string(&path("a/b")), "a/b");
}

#[test]
fn monorepo_membership_goes_by_segment_suffix() {
    let root = path("test-data/happy-path");
    assert!(is_monorepo_file(&root, &path("/home/user/test-data/happy-path/packages/foo/a.ts")));
    assert!(is_monorepo_file(&root, &path("test-data/happy-path/x.ts")));
    assert!(!is_monorepo_file(&root, &path("/home/user/elsewhere/a.ts")));
    assert!(!is_monorepo_file(&root, &path("happy-path/x.ts")));
}

#[test]
fn strip_prefix_removes_longest_matching_ancestor() {
    let root = path("test-data/happy-path");
    let stripped = remove_relative_path_prefix_from_absolute_path(
        &root,
        &path("/home/user/test-data/happy-path/packages/foo/a.ts"),
    )
    .unwrap();
    assert_eq!(stripped, path("packages/foo/a.ts"));

    let err = remove_relative_path_prefix_from_absolute_path(&root, &path("/srv/other/a.ts"))
        .unwrap_err();
    assert_eq!(err.absolute_path, path("/srv/other/a.ts"));
    match err.kind {
        StripPrefixErrorKind::PrefixNotFound { prefix } => assert_eq!(prefix, root),
        StripPrefixErrorKind::Strip { .. } => panic!("expected a missing prefix"),
    }
    assert_eq!(
        err_message_of(&root),
        "never encountered prefix test-data/happy-path in path /srv/other/a.ts"
    );
}

fn err_message_of(root: &FilePath) -> String {
    remove_relative_path_prefix_from_absolute_path(root, &path("/srv/other/a.ts"))
        .unwrap_err()
        .message()
}

#[test]
fn node_modules_children_are_recognised() {
    assert!(is_child_of_node_modules(&path("repo/node_modules/dep/index.ts")));
    assert!(!is_child_of_node_modules(&path("repo/packages/foo/index.ts")));
}
