use tsconfig_includes::config::{
    CompilerOptions, ConfigShapeError, RawFlag, RawTypescriptConfig, TypescriptConfig,
};
use tsconfig_includes::estimate::estimate_files_from_walk;
use tsconfig_includes::path::{parse_path, FilePath};

fn config(allow_js: bool, resolve_json_module: bool, globs: &[&str]) -> TypescriptConfig {
    TypescriptConfig {
        compiler_options: CompilerOptions { allow_js, resolve_json_module },
        include_globs: globs.iter().map(|g| g.to_string()).collect(),
    }
}

fn estimate(cfg: &TypescriptConfig, root: &str, entries: &[&str]) -> Vec<FilePath> {
    let root = parse_path(root);
    let entries: Vec<FilePath> = entries.iter().map(|e| parse_path(e)).collect();
    estimate_files_from_walk(&root, cfg, &entries).unwrap()
}

#[test]
fn default_whitelist_holds_the_typescript_suffixes() {
    let cfg = config(false, false, &["src/**/*"]);
    assert_eq!(cfg.whitelisted_file_extensions(), vec![".ts", ".tsx", ".d.ts"]);
}

#[test]
fn allow_js_widens_the_whitelist() {
    let cfg = config(true, false, &["src/**/*"]);
    assert_eq!(cfg.whitelisted_file_extensions(), vec![".ts", ".tsx", ".d.ts", ".js", ".jsx"]);
}

#[test]
fn glob_suffixes_join_the_whitelist() {
    let cfg = config(false, false, &["src/**/*.worker.js", "src/**/*"]);
    assert_eq!(
        cfg.whitelisted_file_extensions(),
        vec![".ts", ".tsx", ".d.ts", ".worker.js"]
    );
}

#[test]
fn json_suffixes_are_gated_by_the_compiler_flag() {
    let without = config(false, false, &["src/**/*.json"]);
    assert_eq!(without.whitelisted_file_extensions(), vec![".ts", ".tsx", ".d.ts"]);

    let with = config(false, true, &["src/**/*.json"]);
    assert_eq!(with.whitelisted_file_extensions(), vec![".ts", ".tsx", ".d.ts", ".json"]);
}

#[test]
fn extension_gating_on_walked_files() {
    // A package holding one TypeScript and one script file: without allowJs
    // only the TypeScript file survives; with it, both do.
    let entries = ["repo/packages/p/src/a.ts", "repo/packages/p/src/a.js"];
    let without = estimate(&config(false, false, &["src/**/*"]), "repo", &entries);
    assert_eq!(without, vec![parse_path("packages/p/src/a.ts")]);

    let with = estimate(&config(true, false, &["src/**/*"]), "repo", &entries);
    assert_eq!(
        with,
        vec![parse_path("packages/p/src/a.ts"), parse_path("packages/p/src/a.js")]
    );
}

#[test]
fn json_gating_is_independent_of_glob_specificity() {
    // The include glob names .json files explicitly, yet none survive until
    // resolveJsonModule is set.
    let entries = ["repo/packages/p/src/data.json"];
    let without = estimate(&config(false, false, &["src/**/*.json"]), "repo", &entries);
    assert_eq!(without, Vec::<FilePath>::new());

    let with = estimate(&config(false, true, &["src/**/*.json"]), "repo", &entries);
    assert_eq!(with, vec![parse_path("packages/p/src/data.json")]);
}

#[test]
fn entries_outside_the_monorepo_are_dropped() {
    let entries = ["elsewhere/src/a.ts", "repo/packages/p/src/b.ts"];
    let kept = estimate(&config(false, false, &["src/**/*"]), "repo", &entries);
    assert_eq!(kept, vec![parse_path("packages/p/src/b.ts")]);
}

#[test]
fn compound_suffixes_match_on_the_full_path() {
    let entries = ["repo/p/src/types.d.ts"];
    let kept = estimate(&config(false, false, &["src/**/*"]), "repo", &entries);
    assert_eq!(kept, vec![parse_path("p/src/types.d.ts")]);
}

#[test]
fn missing_include_globs_reject_the_configuration() {
    let raw = RawTypescriptConfig {
        allow_js: RawFlag::Value(true),
        resolve_json_module: RawFlag::Absent,
        include_globs: None,
    };
    assert_eq!(
        TypescriptConfig::from_raw(raw).unwrap_err(),
        ConfigShapeError::MissingIncludeGlobs
    );

    let raw = RawTypescriptConfig {
        allow_js: RawFlag::Absent,
        resolve_json_module: RawFlag::Value(true),
        include_globs: Some(vec![String::from("src/**/*")]),
    };
    let cfg = TypescriptConfig::from_raw(raw).unwrap();
    assert!(!cfg.compiler_options.allow_js);
    assert!(cfg.compiler_options.resolve_json_module);
    assert_eq!(cfg.include_globs, vec!["src/**/*"]);
}

#[test]
fn malformed_flags_reject_the_configuration() {
    let raw = RawTypescriptConfig {
        allow_js: RawFlag::Malformed,
        resolve_json_module: RawFlag::Absent,
        include_globs: Some(vec![String::from("src/**/*")]),
    };
    assert_eq!(
        TypescriptConfig::from_raw(raw).unwrap_err(),
        ConfigShapeError::MalformedCompilerOptions
    );

    // A flag set to false is not malformed: it decodes, disabled.
    let raw = RawTypescriptConfig {
        allow_js: RawFlag::Value(false),
        resolve_json_module: RawFlag::Absent,
        include_globs: Some(vec![String::from("src/**/*")]),
    };
    let cfg = TypescriptConfig::from_raw(raw).unwrap();
    assert!(!cfg.compiler_options.allow_js);
}
