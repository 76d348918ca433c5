//! A project's compiler configuration and the file-extension whitelist it
//! induces.
//!
//! The whitelist starts from the extensions the compiler always accepts,
//! widens with the script extensions when `allowJs` is set, adopts the literal
//! suffix of every include glob that pins one down, and finally drops any
//! suffix ending in `.json` unless `resolveJsonModule` is set: a glob that
//! names `.json` files is not by itself enough to let JSON modules in.

use vstd::prelude::*;

use crate::path::{
    glob_file_extension, glob_file_extension_seq, is_glob, is_glob_seq, str_ends_with,
    string_ends_with,
};

verus! {

/// The two compiler flags that influence which files a project consumes.
/// A flag absent from the configuration file defaults to `false`.
#[derive(Debug, Clone, Copy, PartialEq, Eq)]
pub struct CompilerOptions {
    pub allow_js: bool,
    pub resolve_json_module: bool,
}

/// One compiler flag as found on disk: absent, a boolean, or present with
/// some other shape — the last is a decode failure, decided by
/// [`TypescriptConfig::from_raw`].
#[derive(Debug, PartialEq, Eq)]
pub enum RawFlag {
    Absent,
    Value(bool),
    Malformed,
}

/// The raw fields of a configuration file as found on disk, before
/// defaulting; the include globs are `None` when absent or not an array of
/// strings.
#[derive(Debug)]
pub struct RawTypescriptConfig {
    pub allow_js: RawFlag,
    pub resolve_json_module: RawFlag,
    pub include_globs: Option<Vec<String>>,
}

/// The ways a decoded configuration can be unusable: its compiler flags do
/// not have the expected shape, or it pins down no include globs.
#[derive(Debug, PartialEq, Eq)]
pub enum ConfigShapeError {
    MalformedCompilerOptions,
    MissingIncludeGlobs,
}

/// A decoded project configuration: compiler flags and include globs.
#[derive(Debug)]
pub struct TypescriptConfig {
    pub compiler_options: CompilerOptions,
    pub include_globs: Vec<String>,
}

/// Whether `ext` belongs to the extension whitelist a configuration with the
/// given flags and include globs induces.
pub open spec fn in_whitelist(
    allow_js: bool,
    resolve_json_module: bool,
    include_globs: Seq<Seq<char>>,
    ext: Seq<char>,
) -> bool {
    &&& {
        ||| ext == ".ts"@
        ||| ext == ".tsx"@
        ||| ext == ".d.ts"@
        ||| (allow_js && (ext == ".js"@ || ext == ".jsx"@))
        ||| exists|i: int|
            0 <= i < include_globs.len() && is_glob_seq(include_globs[i]) && glob_file_extension_seq(
                include_globs[i],
            ) == Some(ext)
    }
    &&& (str_ends_with(ext, ".json"@) ==> resolve_json_module)
}

impl TypescriptConfig {
    /// Apply the defaults to the raw fields of a configuration file: an
    /// absent flag counts as `false`.  A flag present with a shape other than
    /// a boolean is a decode failure, and so is a configuration that pins
    /// down no include globs — it describes no files to enumerate.
    pub fn from_raw(raw: RawTypescriptConfig) -> (r: Result<TypescriptConfig, ConfigShapeError>)
        ensures
            match r {
                Ok(cfg) => {
                    &&& !(raw.allow_js is Malformed) && !(raw.resolve_json_module is Malformed)
                    &&& raw.include_globs matches Some(globs) && cfg.include_globs == globs
                    &&& cfg.compiler_options.allow_js == (raw.allow_js == RawFlag::Value(true))
                    &&& cfg.compiler_options.resolve_json_module == (raw.resolve_json_module
                        == RawFlag::Value(true))
                },
                Err(ConfigShapeError::MalformedCompilerOptions) => raw.allow_js is Malformed
                    || raw.resolve_json_module is Malformed,
                Err(ConfigShapeError::MissingIncludeGlobs) => {
                    &&& !(raw.allow_js is Malformed)
                    &&& !(raw.resolve_json_module is Malformed)
                    &&& raw.include_globs is None
                },
            },
    {
        let allow_js = match raw.allow_js {
            RawFlag::Value(b) => b,
            RawFlag::Absent => false,
            RawFlag::Malformed => {
                return Err(ConfigShapeError::MalformedCompilerOptions);
            },
        };
        let resolve_json_module = match raw.resolve_json_module {
            RawFlag::Value(b) => b,
            RawFlag::Absent => false,
            RawFlag::Malformed => {
                return Err(ConfigShapeError::MalformedCompilerOptions);
            },
        };
        match raw.include_globs {
            Some(globs) => Ok(
                TypescriptConfig {
                    compiler_options: CompilerOptions { allow_js, resolve_json_module },
                    include_globs: globs,
                },
            ),
            None => Err(ConfigShapeError::MissingIncludeGlobs),
        }
    }

    /// Whether `ext` belongs to this configuration's extension whitelist.
    pub open spec fn spec_in_whitelist(&self, ext: Seq<char>) -> bool {
        in_whitelist(
            self.compiler_options.allow_js,
            self.compiler_options.resolve_json_module,
            self.include_globs.deep_view(),
            ext,
        )
    }

    /// The suffixes a file path may end with to count as a compiler input
    /// under this configuration.
    ///
    /// These are suffixes of the whole path string, not final extensions: the
    /// compound suffix `.d.ts` cannot be expressed as a single extension.
    pub fn whitelisted_file_extensions(&self) -> (r: Vec<String>)
        ensures
            forall|e: Seq<char>| #[trigger] r.deep_view().contains(e) <==> self.spec_in_whitelist(e),
    {
        let allow_js = self.compiler_options.allow_js;
        let resolve_json_module = self.compiler_options.resolve_json_module;
        let ghost inc = self.include_globs.deep_view();

        let mut candidates: Vec<String> = Vec::new();
        candidates.push(String::from_str(".ts"));
        candidates.push(String::from_str(".tsx"));
        candidates.push(String::from_str(".d.ts"));
        if allow_js {
            candidates.push(String::from_str(".js"));
            candidates.push(String::from_str(".jsx"));
        }
        proof {
            assert(candidates.deep_view()[0] == ".ts"@);
            assert(candidates.deep_view()[1] == ".tsx"@);
            assert(candidates.deep_view()[2] == ".d.ts"@);
            if allow_js {
                assert(candidates.deep_view()[3] == ".js"@);
                assert(candidates.deep_view()[4] == ".jsx"@);
            }
            assert forall|e: Seq<char>| #[trigger] candidates.deep_view().contains(e) implies (e
                == ".ts"@ || e == ".tsx"@ || e == ".d.ts"@ || (allow_js && (e == ".js"@ || e
                == ".jsx"@))) by {
                let dv = candidates.deep_view();
                let k = choose|k: int| 0 <= k < dv.len() && dv[k] == e;
            }
        }
        let ghost base = candidates.deep_view();

        let n = self.include_globs.len();
        let mut i: usize = 0;
        while i < n
            invariant
                n == inc.len(),
                n == self.include_globs@.len(),
                inc == self.include_globs.deep_view(),
                i <= n,
                forall|e: Seq<char>| #[trigger]
                    candidates.deep_view().contains(e) <==> (base.contains(e) || exists|k: int|
                        0 <= k < i && is_glob_seq(inc[k]) && glob_file_extension_seq(inc[k])
                            == Some(e)),
            decreases n - i,
        {
            proof {
                assert(inc[i as int] == self.include_globs@[i as int]@);
            }
            let pattern = &self.include_globs[i];
            let ghost before = candidates.deep_view();
            if is_glob(pattern.as_str()) {
                match glob_file_extension(pattern.as_str()) {
                    Some(ext) => {
                        let ghost ev = ext@;
                        candidates.push(ext);
                        proof {
                            assert(candidates.deep_view() =~= before.push(ev)) by {
                                assert(forall|k: int|
                                    0 <= k < candidates@.len() ==> candidates.deep_view()[k]
                                        == candidates@[k]@);
                            }
                            assert forall|e: Seq<char>| #[trigger]
                                candidates.deep_view().contains(e) implies (base.contains(e)
                                || exists|k: int|
                                0 <= k < i + 1 && is_glob_seq(inc[k]) && glob_file_extension_seq(
                                    inc[k],
                                ) == Some(e)) by {
                                let dv = candidates.deep_view();
                                let k = choose|k: int| 0 <= k < dv.len() && dv[k] == e;
                                if k < dv.len() - 1 {
                                    assert(before.contains(e));
                                } else {
                                    assert(e == ev);
                                    assert(is_glob_seq(inc[i as int])
                                        && glob_file_extension_seq(inc[i as int]) == Some(e));
                                }
                            }
                            assert forall|e: Seq<char>|
                                (base.contains(e) || exists|k: int|
                                    0 <= k < i + 1 && is_glob_seq(inc[k])
                                        && glob_file_extension_seq(inc[k]) == Some(e)) implies
                                #[trigger] candidates.deep_view().contains(e) by {
                                if base.contains(e) || (exists|k: int|
                                    0 <= k < i && is_glob_seq(inc[k]) && glob_file_extension_seq(
                                        inc[k],
                                    ) == Some(e)) {
                                    assert(before.contains(e));
                                    let j = choose|j: int|
                                        0 <= j < before.len() && before[j] == e;
                                    assert(candidates.deep_view()[j] == e);
                                } else {
                                    assert(candidates.deep_view()[candidates.deep_view().len()
                                        - 1] == ev);
                                    assert(e == ev);
                                }
                            }
                        }
                    },
                    None => {},
                }
            }
            i = i + 1;
        }
        proof {
            assert(inc.take(n as int) =~= inc);
        }

        let ghost gathered = candidates.deep_view();
        let mut whitelist: Vec<String> = Vec::new();
        let m = candidates.len();
        let mut j: usize = 0;
        while j < m
            invariant
                m == gathered.len(),
                m == candidates@.len(),
                gathered == candidates.deep_view(),
                j <= m,
                forall|e: Seq<char>| #[trigger]
                    whitelist.deep_view().contains(e) <==> ((exists|k: int|
                        0 <= k < j && gathered[k] == e) && (str_ends_with(e, ".json"@)
                        ==> resolve_json_module)),
            decreases m - j,
        {
            proof {
                assert(gathered[j as int] == candidates@[j as int]@);
            }
            let keep = if resolve_json_module {
                true
            } else {
                !string_ends_with(candidates[j].as_str(), ".json")
            };
            let ghost before = whitelist.deep_view();
            if keep {
                let kept = crate::path::clone_string(&candidates[j]);
                let ghost kv = kept@;
                whitelist.push(kept);
                proof {
                    assert(whitelist.deep_view() =~= before.push(kv)) by {
                        assert(forall|k: int|
                            0 <= k < whitelist@.len() ==> whitelist.deep_view()[k]
                                == whitelist@[k]@);
                    }
                    assert forall|e: Seq<char>| #[trigger]
                        whitelist.deep_view().contains(e) implies ((exists|k: int|
                        0 <= k < j + 1 && gathered[k] == e) && (str_ends_with(e, ".json"@)
                        ==> resolve_json_module)) by {
                        let dv = whitelist.deep_view();
                        let k = choose|k: int| 0 <= k < dv.len() && dv[k] == e;
                        if k < dv.len() - 1 {
                            assert(before.contains(e));
                        } else {
                            assert(e == gathered[j as int]);
                        }
                    }
                    assert forall|e: Seq<char>|
                        ((exists|k: int| 0 <= k < j + 1 && gathered[k] == e) && (str_ends_with(
                            e,
                            ".json"@,
                        ) ==> resolve_json_module)) implies #[trigger] whitelist.deep_view()
                        .contains(e) by {
                        let k = choose|k: int| 0 <= k < j + 1 && gathered[k] == e;
                        if k < j {
                            assert(before.contains(e));
                            let idx = choose|idx: int|
                                0 <= idx < before.len() && before[idx] == e;
                            assert(whitelist.deep_view()[idx] == e);
                        } else {
                            assert(whitelist.deep_view()[whitelist.deep_view().len() - 1] == kv);
                        }
                    }
                }
            } else {
                proof {
                    assert forall|e: Seq<char>|
                        ((exists|k: int| 0 <= k < j + 1 && gathered[k] == e) && (str_ends_with(
                            e,
                            ".json"@,
                        ) ==> resolve_json_module)) implies #[trigger] whitelist.deep_view()
                        .contains(e) by {
                        let k = choose|k: int| 0 <= k < j + 1 && gathered[k] == e;
                        if k < j {
                            assert(before.contains(e));
                        } else {
                            assert(e == gathered[j as int]);
                            assert(str_ends_with(e, ".json"@) && !resolve_json_module);
                            assert(false);
                        }
                    }
                }
            }
            j = j + 1;
        }

        proof {
            assert forall|e: Seq<char>| #[trigger] whitelist.deep_view().contains(e) implies self
                .spec_in_whitelist(e) by {
                assert(gathered.contains(e));
            }
            assert forall|e: Seq<char>| self.spec_in_whitelist(e) implies #[trigger] whitelist
                .deep_view()
                .contains(e) by {
                assert(gathered.contains(e));
                let k = choose|k: int| 0 <= k < gathered.len() && gathered[k] == e;
            }
        }
        whitelist
    }
}

} // verus!

verus! {

/// JSON gating, independent of glob specificity: a suffix ending in `.json`
/// is never whitelisted while `resolveJsonModule` is unset, however
/// explicitly an include glob names it.
pub proof fn lemma_json_gating(allow_js: bool, include_globs: Seq<Seq<char>>, ext: Seq<char>)
    requires
        str_ends_with(ext, ".json"@),
    ensures
        !in_whitelist(allow_js, false, include_globs, ext),
{
}

/// Extension gating: with `allowJs` set the script suffix `.js` is always
/// whitelisted; with it unset, `.js` is whitelisted only when some include
/// glob pins that very suffix down.
pub proof fn lemma_allow_js_gating(resolve_json_module: bool, include_globs: Seq<Seq<char>>)
    ensures
        in_whitelist(true, resolve_json_module, include_globs, ".js"@),
        in_whitelist(false, resolve_json_module, include_globs, ".js"@) <==> exists|i: int|
            0 <= i < include_globs.len() && is_glob_seq(#[trigger] include_globs[i])
                && glob_file_extension_seq(include_globs[i]) == Some(".js"@),
{
    reveal_strlit(".js");
    reveal_strlit(".ts");
    reveal_strlit(".tsx");
    reveal_strlit(".d.ts");
    reveal_strlit(".jsx");
    reveal_strlit(".json");
    assert(!str_ends_with(".js"@, ".json"@));
    assert(".js"@ != ".ts"@) by {
        assert(".js"@[1] != ".ts"@[1]);
    }
    assert(".js"@ != ".tsx"@);
    assert(".js"@ != ".d.ts"@);
    assert(".js"@ != ".jsx"@);
}

} // verus!
