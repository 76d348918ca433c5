//! The estimate enumerator: expand each package's include globs against the
//! filesystem and keep the entries that the compiler would accept.
//!
//! The filesystem walk itself is the `globwalk` crate's; everything that
//! decides — the extension whitelist, the containment check, the rebasing of
//! each entry onto the monorepo root — is verified, and
//! [`estimate_files_from_walk`] pins the outcome down exactly for every walk
//! result.

use vstd::prelude::*;

use crate::config::{in_whitelist, TypescriptConfig};
use crate::file_set::{sort_paths, ResolvedFileSet};
use crate::path::{
    all_paths_clean, clean_segment, is_monorepo_file, is_monorepo_file_seq, join_seq,
    lemma_monorepo_file_strips, path_ends_with, str_ends_with, string_ends_with, strip_prefix_seq,
    FilePath, StripPrefixError,
};
use crate::typescript_package::TypescriptConfigFile;

verus! {

#[verifier::external_type_specification]
#[verifier::external_body]
pub struct ExGlobError(globwalk::GlobError);

/// Failure to prepare the glob walk for one package.
#[derive(Debug)]
pub struct BuildWalkerError {
    pub kind: BuildWalkerErrorKind,
}

/// The ways preparing the walk can fail.
#[derive(Debug)]
pub enum BuildWalkerErrorKind {
    /// The configuration file could not be read or decoded.
    IO(typescript_tools::io::FromFileError),
    /// The configuration holds no usable array of include globs.
    MissingIncludeGlobs { tsconfig_file: FilePath },
    /// The configuration's compiler flags do not have the expected shape.
    MalformedCompilerOptions { tsconfig_file: FilePath },
    /// The walker itself could not be built from the include globs.
    GlobWalkBuilder(globwalk::GlobError),
    /// The configuration file sits at the monorepo root itself.
    PackageInMonorepoRoot(FilePath),
}

/// Failure while walking the filesystem or rebasing an entry.
#[derive(Debug)]
pub struct WalkError {
    pub kind: WalkErrorKind,
}

/// The ways the walk can fail.
#[derive(Debug)]
pub enum WalkErrorKind {
    /// An entry could not be rebased onto the monorepo root.
    Path(StripPrefixError),
    /// The walk itself failed; the message renders the underlying error.
    WalkError { message: String },
}

/// Failure of the walk boundary: either the walker could not be built, or the
/// walk failed partway.
#[derive(Debug)]
pub enum GlobWalkFailure {
    Build(globwalk::GlobError),
    Walk { message: String },
}

/// Whether no segment of `p` holds the separator character, so that joining
/// the segments with the separator and splitting the result restores them.
pub open spec fn no_slash_segments(p: Seq<Seq<char>>) -> bool {
    forall|i: int| 0 <= i < p.len() ==> !(#[trigger] p[i]).contains('/')
}

/// Whether the segments of a walk base survive the round trip through the
/// operating system: there is at least one, none holds the separator, and the
/// last is nonempty — a trailing empty segment would vanish when the joined
/// string gains the separator before the first entry name.
pub open spec fn walkable_base(p: Seq<Seq<char>>) -> bool {
    &&& p.len() > 0
    &&& no_slash_segments(p)
    &&& p.last().len() > 0
}

/// Whether `e` is a path the filesystem walk under `base` can yield: the base
/// itself, or the base extended with directory-entry names, which are
/// nonempty, free of separators, and never the relative references `.` or
/// `..`.
pub open spec fn walk_entry_under(base: Seq<Seq<char>>, e: Seq<Seq<char>>) -> bool {
    &&& e.len() >= base.len()
    &&& e.take(base.len() as int) == base
    &&& forall|j: int| base.len() <= j < e.len() ==> clean_segment(#[trigger] e[j])
}

/// Relies on `globwalk::GlobWalkerBuilder`: walks the filesystem under
/// `package_directory`, expanding the include globs `patterns`, restricted to
/// regular files, the base itself admitted at depth zero.  Every yielded path
/// is the base joined with directory-entry names, so — when the base's own
/// segments hold no separator and do not end empty, and thus survive the
/// round trip through the joined string — its segments are the base's
/// followed by clean entry names.
#[verifier::external_body]
fn walk_include_globs(package_directory: &FilePath, patterns: &Vec<String>) -> (r: Result<
    Vec<FilePath>,
    GlobWalkFailure,
>)
    ensures
        match r {
            Ok(entries) => walkable_base(package_directory@) ==> forall|i: int|
                0 <= i < entries@.len() ==> walk_entry_under(
                    package_directory@,
                    #[trigger] entries@[i]@,
                ),
            Err(_) => true,
        },
{
    let base = package_directory.segments.join("/");
    let walker = globwalk::GlobWalkerBuilder::from_patterns(&base, patterns).file_type(
        globwalk::FileType::FILE,
    ).min_depth(0).build().map_err(GlobWalkFailure::Build)?;
    walker.map(|entry| match entry {
        Ok(d) => Ok(FilePath {
            segments: d.path().to_string_lossy().split('/').map(str::to_owned).collect(),
        }),
        Err(e) => Err(GlobWalkFailure::Walk { message: format!("{}", e) }),
    }).collect()
}

/// Whether every segment of the requested configuration path except the file
/// name itself is clean: under such a request — and a separator-free root —
/// the walk base survives the round trip through the operating system.
pub open spec fn clean_directory_segments(t: Seq<Seq<char>>) -> bool {
    forall|j: int| 0 <= j < t.len() - 1 ==> clean_segment(#[trigger] t[j])
}

/// Whether the walk entry survives the estimate filter: it lies inside the
/// monorepo, and its full path string ends with a whitelisted suffix.
pub open spec fn keeps_entry(
    root: Seq<Seq<char>>,
    allow_js: bool,
    resolve_json_module: bool,
    include_globs: Seq<Seq<char>>,
    entry: Seq<Seq<char>>,
) -> bool {
    &&& is_monorepo_file_seq(root, entry)
    &&& exists|ext: Seq<char>|
        in_whitelist(allow_js, resolve_json_module, include_globs, ext) && #[trigger] str_ends_with(
            join_seq(entry, '/'),
            ext,
        )
}

/// The files the estimate keeps from the walk entries, each rebased onto the
/// monorepo root, in walk order.
pub open spec fn estimate_result(
    root: Seq<Seq<char>>,
    allow_js: bool,
    resolve_json_module: bool,
    include_globs: Seq<Seq<char>>,
    entries: Seq<Seq<Seq<char>>>,
) -> Seq<Seq<Seq<char>>>
    decreases entries.len(),
{
    if entries.len() == 0 {
        Seq::empty()
    } else {
        let front = estimate_result(
            root,
            allow_js,
            resolve_json_module,
            include_globs,
            entries.drop_last(),
        );
        if keeps_entry(root, allow_js, resolve_json_module, include_globs, entries.last()) {
            match strip_prefix_seq(root, entries.last()) {
                Some(rel) => front.push(rel),
                None => front,
            }
        } else {
            front
        }
    }
}

/// Whether the full path string of `joined` ends with one of the whitelisted
/// suffixes.
fn matches_some_extension(joined: &String, whitelist: &Vec<String>) -> (r: bool)
    ensures
        r == exists|k: int|
            0 <= k < whitelist.deep_view().len() && #[trigger] str_ends_with(
                joined@,
                whitelist.deep_view()[k],
            ),
{
    let n = whitelist.len();
    let mut k: usize = 0;
    while k < n
        invariant
            n == whitelist@.len(),
            n == whitelist.deep_view().len(),
            k <= n,
            forall|j: int|
                0 <= j < k ==> !(#[trigger] str_ends_with(joined@, whitelist.deep_view()[j])),
        decreases n - k,
    {
        proof {
            assert(whitelist.deep_view()[k as int] == whitelist@[k as int]@);
        }
        if string_ends_with(joined.as_str(), whitelist[k].as_str()) {
            return true;
        }
        k = k + 1;
    }
    false
}

/// Keep the walk entries that lie inside the monorepo and end with a
/// whitelisted suffix, each rebased onto the monorepo root: exactly
/// [`estimate_result`] of the entries.
pub fn estimate_files_from_walk(
    monorepo_root: &FilePath,
    config: &TypescriptConfig,
    entries: &Vec<FilePath>,
) -> (r: Result<Vec<FilePath>, WalkError>)
    ensures
        r is Ok,
        r matches Ok(files) ==> files.deep_view() == estimate_result(
            monorepo_root@,
            config.compiler_options.allow_js,
            config.compiler_options.resolve_json_module,
            config.include_globs.deep_view(),
            entries.deep_view(),
        ),
{
    let ghost rootv = monorepo_root@;
    let ghost allow_js = config.compiler_options.allow_js;
    let ghost resolve_json_module = config.compiler_options.resolve_json_module;
    let ghost inc = config.include_globs.deep_view();
    let ghost ev = entries.deep_view();

    let whitelist = config.whitelisted_file_extensions();
    let mut out: Vec<FilePath> = Vec::new();
    let n = entries.len();
    let mut i: usize = 0;
    proof {
        assert(ev.take(0) =~= Seq::<Seq<Seq<char>>>::empty());
    }
    while i < n
        invariant
            rootv == monorepo_root@,
            allow_js == config.compiler_options.allow_js,
            resolve_json_module == config.compiler_options.resolve_json_module,
            inc == config.include_globs.deep_view(),
            ev == entries.deep_view(),
            n == ev.len(),
            n == entries@.len(),
            i <= n,
            forall|e: Seq<char>| #[trigger]
                whitelist.deep_view().contains(e) <==> in_whitelist(
                    allow_js,
                    resolve_json_module,
                    inc,
                    e,
                ),
            out.deep_view() == estimate_result(rootv, allow_js, resolve_json_module, inc, ev.take(
                i as int,
            )),
        decreases n - i,
    {
        let entry = &entries[i];
        proof {
            assert(ev[i as int] == entries@[i as int]@);
            assert(ev.take(i as int + 1).drop_last() =~= ev.take(i as int));
            assert(ev.take(i as int + 1).last() == ev[i as int]);
        }
        let in_repo = is_monorepo_file(monorepo_root, entry);
        let joined = crate::path::path_to_string(entry);
        let suffix_ok = matches_some_extension(&joined, &whitelist);
        proof {
            if suffix_ok {
                let k = choose|k: int|
                    0 <= k < whitelist.deep_view().len() && #[trigger] str_ends_with(
                        joined@,
                        whitelist.deep_view()[k],
                    );
                assert(whitelist.deep_view().contains(whitelist.deep_view()[k]));
                assert(in_whitelist(allow_js, resolve_json_module, inc, whitelist.deep_view()[k]));
            } else {
                assert forall|ext: Seq<char>|
                    in_whitelist(allow_js, resolve_json_module, inc, ext) implies !(
                #[trigger] str_ends_with(join_seq(entry@, '/'), ext)) by {
                    if str_ends_with(join_seq(entry@, '/'), ext) {
                        assert(whitelist.deep_view().contains(ext));
                        let k = choose|k: int|
                            0 <= k < whitelist.deep_view().len() && #[trigger] whitelist.deep_view()[k]
                                == ext;
                        assert(joined@ == join_seq(entry@, '/'));
                        assert(str_ends_with(joined@, whitelist.deep_view()[k]));
                    }
                }
            }
            assert((in_repo && suffix_ok) == keeps_entry(
                rootv,
                allow_js,
                resolve_json_module,
                inc,
                entry@,
            ));
        }
        if in_repo && suffix_ok {
            match crate::path::remove_relative_path_prefix_from_absolute_path(
                monorepo_root,
                entry,
            ) {
                Ok(rel) => {
                    let ghost relv = rel@;
                    let ghost before = out.deep_view();
                    out.push(rel);
                    proof {
                        assert(out.deep_view() =~= before.push(relv)) by {
                            assert(forall|k: int|
                                0 <= k < out@.len() ==> out.deep_view()[k] == out@[k]@);
                        }
                    }
                },
                Err(e) => {
                    proof {
                        lemma_monorepo_file_strips(rootv, entry@);
                        assert(false);
                    }
                    return Err(WalkError { kind: WalkErrorKind::Path(e) });
                },
            }
        }
        i = i + 1;
    }
    proof {
        assert(ev.take(n as int) =~= ev);
    }
    Ok(out)
}

} // verus!

verus! {

/// Failure of estimate enumeration.
#[derive(Debug)]
pub struct Error {
    pub kind: ErrorKind,
}

/// The ways estimate enumeration can fail.
#[derive(Debug)]
pub enum ErrorKind {
    /// The workspace definition at the monorepo root could not be read.
    MonorepoManifest(typescript_tools::io::FromFileError),
    /// The workspace's package manifests could not be enumerated.
    EnumeratePackageManifestsError(
        typescript_tools::monorepo_manifest::EnumeratePackageManifestsError,
    ),
    /// The internal dependency graph could not be computed.
    Query(typescript_tools::query::QueryError),
    /// A configuration file sits at the monorepo root itself.
    PackageInMonorepoRoot(FilePath),
    /// A requested configuration belongs to no package of the manifest graph.
    UnknownPackage { tsconfig_file: FilePath },
    /// A package name in the dependency closure has no manifest data.
    UnknownDependency { name: String },
    /// A package's configuration could not be prepared for the walk.
    BuildWalker(BuildWalkerError),
    /// The walk over a package's files failed.
    Walk(WalkError),
}

/// Enumerate the files matching one package's include globs, as paths
/// relative to the monorepo root, in walk order.
///
/// Fails with a `PackageInMonorepoRoot` kind exactly when the configuration
/// file sits at the monorepo root itself; the remaining failures are the
/// filesystem's.
pub fn tsconfig_includes_estimate(
    monorepo_root: &FilePath,
    tsconfig_file: &TypescriptConfigFile,
) -> (r: Result<Vec<FilePath>, Error>)
    ensures
        (r matches Err(e) && e.kind matches ErrorKind::PackageInMonorepoRoot(_))
            <==> tsconfig_file@.len() < 2,
        r matches Ok(files) ==> ((no_slash_segments(monorepo_root@) && clean_directory_segments(
            tsconfig_file@,
        )) ==> all_paths_clean(files.deep_view())),
{
    let package_directory = match tsconfig_file.package_directory(monorepo_root) {
        Ok(d) => d,
        Err(e) => {
            return Err(Error { kind: ErrorKind::PackageInMonorepoRoot(e.0) });
        },
    };
    let relative_directory = crate::path::parent_path(tsconfig_file.as_path());
    let raw = match crate::manifest::read_tsconfig_contents(monorepo_root, &relative_directory) {
        Ok(contents) => crate::manifest::extract_raw_tsconfig(&contents),
        Err(e) => {
            return Err(
                Error {
                    kind: ErrorKind::BuildWalker(
                        BuildWalkerError { kind: BuildWalkerErrorKind::IO(e) },
                    ),
                },
            );
        },
    };
    let config = match TypescriptConfig::from_raw(raw) {
        Ok(c) => c,
        Err(crate::config::ConfigShapeError::MissingIncludeGlobs) => {
            return Err(
                Error {
                    kind: ErrorKind::BuildWalker(
                        BuildWalkerError {
                            kind: BuildWalkerErrorKind::MissingIncludeGlobs {
                                tsconfig_file: tsconfig_file.as_path().clone(),
                            },
                        },
                    ),
                },
            );
        },
        Err(crate::config::ConfigShapeError::MalformedCompilerOptions) => {
            return Err(
                Error {
                    kind: ErrorKind::BuildWalker(
                        BuildWalkerError {
                            kind: BuildWalkerErrorKind::MalformedCompilerOptions {
                                tsconfig_file: tsconfig_file.as_path().clone(),
                            },
                        },
                    ),
                },
            );
        },
    };
    let entries = match walk_include_globs(&package_directory, &config.include_globs) {
        Ok(entries) => entries,
        Err(GlobWalkFailure::Build(e)) => {
            return Err(
                Error {
                    kind: ErrorKind::BuildWalker(
                        BuildWalkerError { kind: BuildWalkerErrorKind::GlobWalkBuilder(e) },
                    ),
                },
            );
        },
        Err(GlobWalkFailure::Walk { message }) => {
            return Err(
                Error { kind: ErrorKind::Walk(WalkError { kind: WalkErrorKind::WalkError { message } }) },
            );
        },
    };
    match estimate_files_from_walk(monorepo_root, &config, &entries) {
        Ok(files) => {
            proof {
                if no_slash_segments(monorepo_root@) && clean_directory_segments(
                    tsconfig_file@,
                ) {
                    let base = package_directory@;
                    let rootv = monorepo_root@;
                    assert(walkable_base(base)) by {
                        assert(base.len() > 0) by {
                            assert(tsconfig_file@.drop_last().len() >= 1);
                        }
                        assert forall|i: int|
                            0 <= i < base.len() implies !(#[trigger] base[i]).contains('/') by {
                            if i < rootv.len() {
                                assert(base[i] == rootv[i]);
                            } else {
                                assert(base[i] == tsconfig_file@.drop_last()[i - rootv.len()]);
                                assert(clean_segment(tsconfig_file@[i - rootv.len()]));
                            }
                        }
                        assert(base.last() == tsconfig_file@[tsconfig_file@.len() - 2]) by {
                            assert(tsconfig_file@.drop_last().len() >= 1);
                        }
                        assert(clean_segment(tsconfig_file@[tsconfig_file@.len() - 2]));
                    }
                    assert forall|k: int, j: int|
                        0 <= k < files.deep_view().len() && 0 <= j < files.deep_view()[k].len()
                            implies clean_segment(#[trigger] files.deep_view()[k][j]) by {
                        assert(files.deep_view().contains(files.deep_view()[k]));
                        assert forall|i: int|
                            0 <= i < entries.deep_view().len() implies walk_entry_under(
                            base,
                            #[trigger] entries.deep_view()[i],
                        ) by {
                            assert(entries.deep_view()[i] == entries@[i]@);
                        }
                        assert forall|jj: int|
                            rootv.len() <= jj < base.len() implies clean_segment(
                            #[trigger] base[jj],
                        ) by {
                            assert(base[jj] == tsconfig_file@.drop_last()[jj - rootv.len()]);
                            assert(clean_segment(tsconfig_file@[jj - rootv.len()]));
                        }
                        lemma_estimate_root_containment(
                            rootv,
                            config.compiler_options.allow_js,
                            config.compiler_options.resolve_json_module,
                            config.include_globs.deep_view(),
                            base,
                            entries.deep_view(),
                            files.deep_view()[k],
                        );
                    }
                }
            }
            Ok(files)
        },
        Err(e) => Err(Error { kind: ErrorKind::Walk(e) }),
    }
}

/// Resolve the identities to enumerate for the requested configurations: load
/// the monorepo's manifest data and build the deduplicated, inclusive
/// dependency closure.
pub fn resolve_packages(
    monorepo_root: &FilePath,
    tsconfig_files: &Vec<TypescriptConfigFile>,
) -> (r: Result<Vec<crate::typescript_package::TypescriptPackage>, Error>)
    ensures
        r matches Ok(packages) ==> crate::typescript_package::strictly_sorted_packages(
            crate::typescript_package::packages_view(packages@),
        ),
        (exists|q: int| 0 <= q < tsconfig_files@.len() && (#[trigger] tsconfig_files@[q]@).len()
            < 2) ==> r is Err,
{
    let manifest = match crate::manifest::load_monorepo_manifest(monorepo_root) {
        Ok(m) => m,
        Err(e) => {
            return Err(Error { kind: ErrorKind::MonorepoManifest(e) });
        },
    };
    let dirs = match crate::manifest::package_directories(&manifest) {
        Ok(d) => d,
        Err(e) => {
            return Err(Error { kind: ErrorKind::EnumeratePackageManifestsError(e) });
        },
    };
    let graph = match crate::manifest::internal_dependency_graph(monorepo_root) {
        Ok(g) => g,
        Err(e) => {
            return Err(Error { kind: ErrorKind::Query(e) });
        },
    };
    match crate::closure::resolve_package_closure(&dirs, &graph, tsconfig_files) {
        Ok(p) => {
            proof {
                assert forall|q: int|
                    0 <= q < tsconfig_files@.len() implies (
                #[trigger] tsconfig_files@[q]@).len() >= 2 by {
                    assert(crate::closure::requests_view(tsconfig_files@)[q]
                        == tsconfig_files@[q]@);
                }
            }
            Ok(p)
        },
        Err(crate::closure::ClosureError::PackageInMonorepoRoot { tsconfig_file }) => Err(
            Error { kind: ErrorKind::PackageInMonorepoRoot(tsconfig_file) },
        ),
        Err(crate::closure::ClosureError::UnknownPackage { tsconfig_file }) => Err(
            Error { kind: ErrorKind::UnknownPackage { tsconfig_file } },
        ),
        Err(crate::closure::ClosureError::UnknownDependency { name }) => Err(
            Error { kind: ErrorKind::UnknownDependency { name } },
        ),
    }
}

/// Enumerate each resolved package's files by the estimate and group them:
/// every package of `packages` gets an entry under its scoped name, with its
/// kept files sorted and deduplicated; the first failure aborts the whole
/// aggregation.
pub fn estimate_includes_for_packages(
    monorepo_root: &FilePath,
    packages: &Vec<crate::typescript_package::TypescriptPackage>,
) -> (r: Result<ResolvedFileSet, Error>)
    ensures
        r matches Ok(set) ==> set.well_formed(),
        r matches Ok(set) ==> forall|nn: Seq<char>|
            #[trigger] set.spec_names().contains(nn) <==> exists|j: int|
                0 <= j < packages@.len() && (#[trigger] packages@[j]@).0 == nn,
{
    let mut set = ResolvedFileSet { entries: Vec::new() };
    proof {
        assert(set.spec_names().len() == 0);
    }
    let n = packages.len();
    let mut i: usize = 0;
    while i < n
        invariant
            set.well_formed(),
            i <= n,
            n == packages@.len(),
            forall|nn: Seq<char>|
                #[trigger] set.spec_names().contains(nn) <==> exists|j: int|
                    0 <= j < i && (#[trigger] packages@[j]@).0 == nn,
        decreases n - i,
    {
        let package = &packages[i];
        let files = match tsconfig_includes_estimate(monorepo_root, &package.tsconfig_file) {
            Ok(f) => f,
            Err(e) => {
                return Err(e);
            },
        };
        let sorted = sort_paths(files);
        let name = crate::path::clone_string(&package.scoped_package_name);
        let ghost nv = name@;
        let ghost before_names = set.spec_names();
        proof {
            assert(nv == packages@[i as int]@.0);
        }
        crate::file_set::insert_sorted_entry(&mut set, name, sorted);
        proof {
            assert forall|nn: Seq<char>| #[trigger] set.spec_names().contains(nn) implies exists|
                j: int,
            | 0 <= j < i + 1 && (#[trigger] packages@[j]@).0 == nn by {
                if before_names.contains(nn) {
                    let j = choose|j: int| 0 <= j < i && (#[trigger] packages@[j]@).0 == nn;
                    assert((packages@[j]@).0 == nn);
                } else {
                    assert((packages@[i as int]@).0 == nn);
                }
            }
            assert forall|nn: Seq<char>|
                (exists|j: int| 0 <= j < i + 1 && (#[trigger] packages@[j]@).0 == nn) implies
                #[trigger] set.spec_names().contains(nn) by {
                let j = choose|j: int| 0 <= j < i + 1 && (#[trigger] packages@[j]@).0 == nn;
                if j < i {
                    assert(before_names.contains(nn));
                }
            }
        }
        i = i + 1;
    }
    Ok(set)
}

/// Enumerate the source files the compiler would consume for the requested
/// projects and all their transitive internal dependencies, grouped by scoped
/// package name: the estimate strategy of the library.
///
/// The monorepo root may be an absolute path; the requested configuration
/// paths are relative to it.  Each package of the inclusive dependency
/// closure — always including the package owning each request — is
/// enumerated once: the result carries exactly one entry per resolved
/// package, every file list sorted and deduplicated, the names strictly
/// sorted.
pub fn tsconfig_includes_by_package_name(
    monorepo_root: &FilePath,
    tsconfig_files: &Vec<TypescriptConfigFile>,
) -> (r: Result<ResolvedFileSet, Error>)
    ensures
        r matches Ok(set) ==> set.well_formed(),
        (exists|q: int| 0 <= q < tsconfig_files@.len() && (#[trigger] tsconfig_files@[q]@).len()
            < 2) ==> r is Err,
{
    let packages = match resolve_packages(monorepo_root, tsconfig_files) {
        Ok(p) => p,
        Err(e) => {
            return Err(e);
        },
    };
    estimate_includes_for_packages(monorepo_root, &packages)
}

/// Root containment of the estimate: every file the estimate keeps — given
/// entries the walk can yield under a base whose segments past the root's are
/// clean — is clean itself, and nonempty as long as no entry's own segments
/// end with the root's, that is, as long as no walked file masquerades as the
/// root.
pub proof fn lemma_estimate_root_containment(
    root: Seq<Seq<char>>,
    allow_js: bool,
    resolve_json_module: bool,
    include_globs: Seq<Seq<char>>,
    base: Seq<Seq<char>>,
    entries: Seq<Seq<Seq<char>>>,
    f: Seq<Seq<char>>,
)
    requires
        base.len() >= root.len(),
        forall|j: int| root.len() <= j < base.len() ==> clean_segment(#[trigger] base[j]),
        forall|k: int|
            0 <= k < entries.len() ==> walk_entry_under(base, #[trigger] entries[k]),
        estimate_result(root, allow_js, resolve_json_module, include_globs, entries).contains(f),
    ensures
        forall|j: int| 0 <= j < f.len() ==> clean_segment(#[trigger] f[j]),
        (forall|k: int| 0 <= k < entries.len() ==> !path_ends_with(#[trigger] entries[k], root))
            ==> f.len() >= 1,
    decreases entries.len(),
{
    if entries.len() > 0 {
        let front = estimate_result(
            root,
            allow_js,
            resolve_json_module,
            include_globs,
            entries.drop_last(),
        );
        let last = entries.last();
        let kept = keeps_entry(root, allow_js, resolve_json_module, include_globs, last);
        if kept && strip_prefix_seq(root, last) is Some && f == strip_prefix_seq(
            root,
            last,
        ).unwrap() && !front.contains(f) {
            let rel = strip_prefix_seq(root, last).unwrap();
            assert forall|j: int| root.len() <= j < last.len() implies clean_segment(
                #[trigger] last[j],
            ) by {
                assert(walk_entry_under(base, last));
                if j < base.len() {
                    assert(last[j] == last.take(base.len() as int)[j]);
                    assert(last[j] == base[j]);
                }
            }
            crate::path::lemma_strip_prefix_containment(root, last, rel);
            assert(entries.contains(last)) by {
                assert(entries[entries.len() - 1] == last);
            }
        } else {
            assert(front.contains(f)) by {
                if kept {
                    match strip_prefix_seq(root, last) {
                        Some(rel) => {
                            let whole = estimate_result(
                                root,
                                allow_js,
                                resolve_json_module,
                                include_globs,
                                entries,
                            );
                            assert(whole == front.push(rel));
                            let k = choose|k: int| 0 <= k < whole.len() && whole[k] == f;
                            if k < front.len() {
                                assert(front[k] == f);
                            }
                        },
                        None => {},
                    }
                }
            }
            assert(forall|k: int|
                0 <= k < entries.drop_last().len() ==> walk_entry_under(
                    base,
                    #[trigger] entries.drop_last()[k],
                ));
            lemma_estimate_root_containment(
                root,
                allow_js,
                resolve_json_module,
                include_globs,
                base,
                entries.drop_last(),
                f,
            );
            assert((forall|k: int|
                0 <= k < entries.len() ==> !path_ends_with(#[trigger] entries[k], root)) ==> (
            forall|k: int|
                0 <= k < entries.drop_last().len() ==> !path_ends_with(
                    #[trigger] entries.drop_last()[k],
                    root,
                )));
        }
    }
}

} // verus!

verus! {

impl Error {
    /// Render the error: the offending path for a package in the monorepo
    /// root, a fixed phrase otherwise.
    pub fn message(&self) -> (r: String)
        ensures
            r@ == match self.kind {
                ErrorKind::PackageInMonorepoRoot(p) => "unexpected package in monorepo root: "@
                    + crate::path::join_seq(p@, '/'),
                _ => "unable to estimate tsconfig includes"@,
            },
    {
        match &self.kind {
            ErrorKind::PackageInMonorepoRoot(p) => {
                let mut s = String::from_str("unexpected package in monorepo root: ");
                s.append(crate::path::path_to_string(p).as_str());
                s
            },
            _ => String::from_str("unable to estimate tsconfig includes"),
        }
    }
}

} // verus!
