//! The exact enumerator: interpret the file list the TypeScript compiler
//! itself reports.
//!
//! The compiler is the authoritative source for which files take part in a
//! compilation, because it follows `import` statements and reference
//! directives that no independent estimate can fully replicate.  Spawning the
//! compiler is a process boundary the library cannot cross, so a caller runs
//! `tsc --listFilesOnly --project <dir>` for each resolved package and hands
//! the captured standard output to [`exact_files_from_output`]; everything
//! that interprets that output — splitting it into lines, the containment and
//! vendoring filters, the rebasing onto the monorepo root — is verified.

use vstd::prelude::*;

use crate::file_set::{sort_paths, ResolvedFileSet};
use crate::path::{
    all_paths_clean, clean_segment, is_child_of_node_modules, is_child_of_node_modules_seq,
    is_monorepo_file, is_monorepo_file_seq, lemma_monorepo_file_strips, path_ends_with, split_seq,
    split_string, strip_prefix_seq, FilePath, StripPrefixError,
};
use crate::typescript_package::TypescriptPackage;

verus! {

/// Failure to enumerate one package through the compiler.
#[derive(Debug)]
pub struct EnumerateError {
    pub kind: EnumerateErrorKind,
}

/// The ways enumeration through the compiler can fail.  The process-level
/// kinds are constructed by the caller that spawns the compiler; the library
/// cannot spawn processes itself.
#[derive(Debug)]
pub enum EnumerateErrorKind {
    /// The compiler process could not be started.
    Command { message: String },
    /// The compiler exited with a non-zero status; its standard error is
    /// kept as captured bytes.
    TypescriptCompiler { command: String, error: Vec<u8> },
    /// The compiler's output was not valid UTF-8.
    InvalidUtf8 { message: String },
    /// A reported path could not be rebased onto the monorepo root.
    StripPrefix(StripPrefixError),
    /// The configuration file sits at the monorepo root itself.
    PackageInMonorepoRoot(FilePath),
    /// The monorepo root could not be canonicalized.
    Canonicalize { path: FilePath, message: String },
}

/// Failure of exact enumeration.
#[derive(Debug)]
pub struct Error {
    pub kind: ErrorKind,
}

/// The ways exact enumeration can fail.
#[derive(Debug)]
pub enum ErrorKind {
    /// The workspace definition at the monorepo root could not be read.
    MonorepoManifest(typescript_tools::io::FromFileError),
    /// The workspace's package manifests could not be enumerated.
    EnumeratePackageManifestsError(
        typescript_tools::monorepo_manifest::EnumeratePackageManifestsError,
    ),
    /// The internal dependency graph could not be computed.
    Query(typescript_tools::query::QueryError),
    /// A configuration file sits at the monorepo root itself.
    PackageInMonorepoRoot(FilePath),
    /// A requested configuration belongs to no package of the manifest graph.
    UnknownPackage { tsconfig_file: FilePath },
    /// A package name in the dependency closure has no manifest data.
    UnknownDependency { name: String },
    /// One package's enumeration through the compiler failed.
    Enumerate(EnumerateError),
}

/// A line with a trailing carriage return dropped, as the line-splitting of
/// captured process output drops it.
pub open spec fn trim_carriage_return(line: Seq<char>) -> Seq<char> {
    if line.len() > 0 && line.last() == '\r' {
        line.drop_last()
    } else {
        line
    }
}

/// The nonempty members of `lines`, each with a trailing carriage return
/// dropped, in order.
pub open spec fn nonempty_lines(lines: Seq<Seq<char>>) -> Seq<Seq<char>>
    decreases lines.len(),
{
    if lines.len() == 0 {
        Seq::empty()
    } else {
        let front = nonempty_lines(lines.drop_last());
        let line = trim_carriage_return(lines.last());
        if line.len() > 0 {
            front.push(line)
        } else {
            front
        }
    }
}

/// Split captured process output into its nonempty lines, dropping a trailing
/// carriage return from each.
pub fn split_nonempty_lines(output: &str) -> (r: Vec<String>)
    ensures
        r.deep_view() == nonempty_lines(split_seq(output@, '\n')),
{
    let raw = split_string(output, '\n');
    let ghost rawv = raw.deep_view();
    let mut lines: Vec<String> = Vec::new();
    let n = raw.len();
    let mut i: usize = 0;
    proof {
        assert(rawv.take(0) =~= Seq::<Seq<char>>::empty());
    }
    while i < n
        invariant
            rawv == raw.deep_view(),
            n == rawv.len(),
            n == raw@.len(),
            i <= n,
            lines.deep_view() == nonempty_lines(rawv.take(i as int)),
        decreases n - i,
    {
        proof {
            assert(rawv[i as int] == raw@[i as int]@);
            assert(rawv.take(i as int + 1).drop_last() =~= rawv.take(i as int));
            assert(rawv.take(i as int + 1).last() == rawv[i as int]);
        }
        let line = &raw[i];
        let len = line.as_str().unicode_len();
        let trimmed: String = if len > 0 && line.as_str().get_char(len - 1) == '\r' {
            let t = line.as_str().substring_char(0, len - 1).to_owned();
            proof {
                assert(t@ =~= trim_carriage_return(line@));
            }
            t
        } else {
            crate::path::clone_string(line)
        };
        if trimmed.as_str().unicode_len() > 0 {
            let ghost tv = trimmed@;
            let ghost before = lines.deep_view();
            lines.push(trimmed);
            proof {
                assert(lines.deep_view() =~= before.push(tv)) by {
                    assert(forall|k: int|
                        0 <= k < lines@.len() ==> lines.deep_view()[k] == lines@[k]@);
                }
            }
        }
        i = i + 1;
    }
    proof {
        assert(rawv.take(n as int) =~= rawv);
    }
    lines
}

/// The paths the compiler reported: each nonempty line of its output, split
/// into segments.
pub open spec fn reported_paths(output: Seq<char>) -> Seq<Seq<Seq<char>>> {
    let lines = nonempty_lines(split_seq(output, '\n'));
    Seq::new(lines.len(), |i: int| split_seq(lines[i], '/'))
}

/// Whether a reported path survives the exact filter: it lies inside the
/// monorepo and not under a dependency-vendoring directory.
pub open spec fn keeps_reported(root: Seq<Seq<char>>, p: Seq<Seq<char>>) -> bool {
    &&& is_monorepo_file_seq(root, p)
    &&& !is_child_of_node_modules_seq(p)
}

/// The files the exact method keeps from the reported paths, each rebased
/// onto the monorepo root, in reported order.
pub open spec fn exact_result(root: Seq<Seq<char>>, reported: Seq<Seq<Seq<char>>>) -> Seq<
    Seq<Seq<char>>,
>
    decreases reported.len(),
{
    if reported.len() == 0 {
        Seq::empty()
    } else {
        let front = exact_result(root, reported.drop_last());
        if keeps_reported(root, reported.last()) {
            match strip_prefix_seq(root, reported.last()) {
                Some(rel) => front.push(rel),
                None => front,
            }
        } else {
            front
        }
    }
}

/// Interpret the compiler's `--listFilesOnly` output: split it into nonempty
/// lines, keep the reported paths that lie inside the monorepo and outside
/// dependency-vendoring directories, and rebase each onto the monorepo root —
/// exactly [`exact_result`] of the reported paths.
///
/// `canonical_root` must be the same form of the monorepo root the compiler
/// reports paths under — canonicalized by the caller — else the containment
/// filter drops everything.
pub fn exact_files_from_output(canonical_root: &FilePath, output: &str) -> (r: Result<
    Vec<FilePath>,
    EnumerateError,
>)
    ensures
        r is Ok,
        r matches Ok(files) ==> files.deep_view() == exact_result(
            canonical_root@,
            reported_paths(output@),
        ),
        r matches Ok(files) ==> ((forall|k: int, j: int|
            0 <= k < reported_paths(output@).len() && canonical_root@.len() <= j < reported_paths(
                output@,
            )[k].len() ==> clean_segment(#[trigger] reported_paths(output@)[k][j]))
            ==> all_paths_clean(files.deep_view())),
{
    let ghost rootv = canonical_root@;
    let ghost rep = reported_paths(output@);
    let lines = split_nonempty_lines(output);
    let ghost lv = lines.deep_view();
    let mut out: Vec<FilePath> = Vec::new();
    let n = lines.len();
    let mut i: usize = 0;
    proof {
        assert(rep.len() == lv.len());
        assert(rep.take(0) =~= Seq::<Seq<Seq<char>>>::empty());
    }
    while i < n
        invariant
            rootv == canonical_root@,
            rep == reported_paths(output@),
            lv == lines.deep_view(),
            lv == nonempty_lines(split_seq(output@, '\n')),
            rep.len() == lv.len(),
            n == lv.len(),
            n == lines@.len(),
            i <= n,
            out.deep_view() == exact_result(rootv, rep.take(i as int)),
        decreases n - i,
    {
        proof {
            assert(lv[i as int] == lines@[i as int]@);
            assert(lv == nonempty_lines(split_seq(output@, '\n')));
            assert(rep == Seq::new(lv.len(), |k: int| split_seq(lv[k], '/')));
            assert(rep[i as int] == split_seq(lv[i as int], '/'));
            assert(rep.take(i as int + 1).drop_last() =~= rep.take(i as int));
            assert(rep.take(i as int + 1).last() == rep[i as int]);
        }
        let path = crate::path::parse_path(lines[i].as_str());
        let keep = is_monorepo_file(canonical_root, &path) && !is_child_of_node_modules(&path);
        if keep {
            match crate::path::remove_relative_path_prefix_from_absolute_path(
                canonical_root,
                &path,
            ) {
                Ok(rel) => {
                    let ghost relv = rel@;
                    let ghost before = out.deep_view();
                    out.push(rel);
                    proof {
                        assert(out.deep_view() =~= before.push(relv)) by {
                            assert(forall|k: int|
                                0 <= k < out@.len() ==> out.deep_view()[k] == out@[k]@);
                        }
                    }
                },
                Err(e) => {
                    proof {
                        lemma_monorepo_file_strips(rootv, path@);
                        assert(false);
                    }
                    return Err(EnumerateError { kind: EnumerateErrorKind::StripPrefix(e) });
                },
            }
        }
        i = i + 1;
    }
    proof {
        assert(rep.take(n as int) =~= rep);
        if forall|k: int, j: int|
            0 <= k < rep.len() && rootv.len() <= j < rep[k].len() ==> clean_segment(
                #[trigger] rep[k][j],
            ) {
            assert forall|k: int, j: int|
                0 <= k < out.deep_view().len() && 0 <= j < out.deep_view()[k].len()
                    implies clean_segment(#[trigger] out.deep_view()[k][j]) by {
                assert(out.deep_view().contains(out.deep_view()[k]));
                lemma_exact_root_containment(rootv, rep, out.deep_view()[k]);
            }
        }
    }
    Ok(out)
}

/// Root containment of the exact method: every file it keeps — given reported
/// paths whose segments past the root's are clean — is clean itself, and
/// nonempty as long as no reported path's own segments end with the root's.
pub proof fn lemma_exact_root_containment(
    root: Seq<Seq<char>>,
    reported: Seq<Seq<Seq<char>>>,
    f: Seq<Seq<char>>,
)
    requires
        forall|k: int, j: int|
            0 <= k < reported.len() && root.len() <= j < reported[k].len() ==> clean_segment(
                #[trigger] reported[k][j],
            ),
        exact_result(root, reported).contains(f),
    ensures
        forall|j: int| 0 <= j < f.len() ==> clean_segment(#[trigger] f[j]),
        (forall|k: int| 0 <= k < reported.len() ==> !path_ends_with(#[trigger] reported[k], root))
            ==> f.len() >= 1,
    decreases reported.len(),
{
    if reported.len() > 0 {
        let front = exact_result(root, reported.drop_last());
        let last = reported.last();
        let kept = keeps_reported(root, last);
        if kept && strip_prefix_seq(root, last) is Some && f == strip_prefix_seq(
            root,
            last,
        ).unwrap() && !front.contains(f) {
            let rel = strip_prefix_seq(root, last).unwrap();
            assert forall|j: int| root.len() <= j < last.len() implies clean_segment(
                #[trigger] last[j],
            ) by {
                assert(reported[reported.len() - 1] == last);
            }
            crate::path::lemma_strip_prefix_containment(root, last, rel);
            assert(reported[reported.len() - 1] == last);
        } else {
            assert(front.contains(f)) by {
                if kept {
                    match strip_prefix_seq(root, last) {
                        Some(rel) => {
                            let whole = exact_result(root, reported);
                            assert(whole == front.push(rel));
                            let k = choose|k: int| 0 <= k < whole.len() && whole[k] == f;
                            if k < front.len() {
                                assert(front[k] == f);
                            }
                        },
                        None => {},
                    }
                }
            }
            assert(forall|k: int, j: int|
                0 <= k < reported.drop_last().len() && root.len() <= j
                    < reported.drop_last()[k].len() ==> clean_segment(
                    #[trigger] reported.drop_last()[k][j],
                ));
            lemma_exact_root_containment(root, reported.drop_last(), f);
            assert((forall|k: int|
                0 <= k < reported.len() ==> !path_ends_with(#[trigger] reported[k], root)) ==> (
            forall|k: int|
                0 <= k < reported.drop_last().len() ==> !path_ends_with(
                    #[trigger] reported.drop_last()[k],
                    root,
                )));
        }
    }
}

} // verus!

verus! {

/// Resolve the identities to enumerate for the requested configurations: load
/// the monorepo's manifest data and build the deduplicated, inclusive
/// dependency closure.  A caller then runs the compiler once per identity and
/// hands the outputs to [`exact_includes_from_outputs`].
pub fn resolve_packages(
    monorepo_root: &FilePath,
    tsconfig_files: &Vec<crate::typescript_package::TypescriptConfigFile>,
) -> (r: Result<Vec<TypescriptPackage>, Error>)
    ensures
        r matches Ok(packages) ==> crate::typescript_package::strictly_sorted_packages(
            crate::typescript_package::packages_view(packages@),
        ),
        (exists|q: int| 0 <= q < tsconfig_files@.len() && (#[trigger] tsconfig_files@[q]@).len()
            < 2) ==> r is Err,
{
    let manifest = match crate::manifest::load_monorepo_manifest(monorepo_root) {
        Ok(m) => m,
        Err(e) => {
            return Err(Error { kind: ErrorKind::MonorepoManifest(e) });
        },
    };
    let dirs = match crate::manifest::package_directories(&manifest) {
        Ok(d) => d,
        Err(e) => {
            return Err(Error { kind: ErrorKind::EnumeratePackageManifestsError(e) });
        },
    };
    let graph = match crate::manifest::internal_dependency_graph(monorepo_root) {
        Ok(g) => g,
        Err(e) => {
            return Err(Error { kind: ErrorKind::Query(e) });
        },
    };
    match crate::closure::resolve_package_closure(&dirs, &graph, tsconfig_files) {
        Ok(p) => {
            proof {
                assert forall|q: int|
                    0 <= q < tsconfig_files@.len() implies (
                #[trigger] tsconfig_files@[q]@).len() >= 2 by {
                    assert(crate::closure::requests_view(tsconfig_files@)[q]
                        == tsconfig_files@[q]@);
                }
            }
            Ok(p)
        },
        Err(crate::closure::ClosureError::PackageInMonorepoRoot { tsconfig_file }) => Err(
            Error { kind: ErrorKind::PackageInMonorepoRoot(tsconfig_file) },
        ),
        Err(crate::closure::ClosureError::UnknownPackage { tsconfig_file }) => Err(
            Error { kind: ErrorKind::UnknownPackage { tsconfig_file } },
        ),
        Err(crate::closure::ClosureError::UnknownDependency { name }) => Err(
            Error { kind: ErrorKind::UnknownDependency { name } },
        ),
    }
}

/// Whether `entry` records, under `package`'s scoped name, exactly the files
/// the exact method keeps from the captured compiler `output`, rebased onto
/// `root`.
pub open spec fn entry_matches_output(
    entry: crate::file_set::PackageFiles,
    root: Seq<Seq<char>>,
    package: TypescriptPackage,
    output: Seq<char>,
) -> bool {
    &&& package@.0 == entry.scoped_package_name@
    &&& forall|e: Seq<Seq<char>>|
        #[trigger] entry.included_files.deep_view().contains(e) <==> exact_result(
            root,
            reported_paths(output),
        ).contains(e)
}

/// Whether every one of `entries` belongs to one of `packages` and holds
/// exactly the files the exact method keeps from that package's captured
/// compiler output, rebased onto `root`.
pub open spec fn entries_match_outputs(
    entries: Seq<crate::file_set::PackageFiles>,
    root: Seq<Seq<char>>,
    packages: Seq<TypescriptPackage>,
    outputs: Seq<String>,
) -> bool {
    forall|k: int|
        0 <= k < entries.len() ==> exists|j: int|
            0 <= j < packages.len() && entry_matches_output(
                #[trigger] entries[k],
                root,
                #[trigger] packages[j],
                outputs[j]@,
            )
}

/// Group the per-package compiler outputs into the final result: for each
/// resolved package, interpret the output the compiler produced for it, sort
/// the kept files, and enter them under the package's scoped name.  The
/// caller supplies one captured output per package, in the same order.
///
/// This never fails: interpreting captured output is total.  Every entry of
/// the result belongs to one of the packages and holds exactly the sorted
/// files the exact method keeps from that package's output; a name two
/// packages share keeps the files of the first.
pub fn exact_includes_from_outputs(
    canonical_root: &FilePath,
    packages: &Vec<TypescriptPackage>,
    outputs: &Vec<String>,
) -> (r: Result<ResolvedFileSet, Error>)
    requires
        packages@.len() == outputs@.len(),
    ensures
        r is Ok,
        r matches Ok(set) ==> set.well_formed(),
        r matches Ok(set) ==> forall|nn: Seq<char>|
            #[trigger] set.spec_names().contains(nn) <==> exists|j: int|
                0 <= j < packages@.len() && (#[trigger] packages@[j]@).0 == nn,
        r matches Ok(set) ==> entries_match_outputs(
            set.entries@,
            canonical_root@,
            packages@,
            outputs@,
        ),
{
    let mut set = ResolvedFileSet { entries: Vec::new() };
    let n = packages.len();
    let mut i: usize = 0;
    proof {
        assert(set.spec_names().len() == 0);
        assert(entries_match_outputs(
            set.entries@,
            canonical_root@,
            packages@.take(0),
            outputs@.take(0),
        )) by {
            assert(set.entries@.len() == 0);
        }
    }
    while i < n
        invariant
            set.well_formed(),
            i <= n,
            n == packages@.len(),
            n == outputs@.len(),
            forall|nn: Seq<char>|
                #[trigger] set.spec_names().contains(nn) <==> exists|j: int|
                    0 <= j < i && (#[trigger] packages@[j]@).0 == nn,
            entries_match_outputs(
                set.entries@,
                canonical_root@,
                packages@.take(i as int),
                outputs@.take(i as int),
            ),
        decreases n - i,
    {
        let files = match exact_files_from_output(canonical_root, outputs[i].as_str()) {
            Ok(f) => f,
            Err(e) => {
                return Err(Error { kind: ErrorKind::Enumerate(e) });
            },
        };
        let sorted = sort_paths(files);
        let name = crate::path::clone_string(&packages[i].scoped_package_name);
        let ghost nv = name@;
        let ghost sv = sorted.deep_view();
        let ghost before_names = set.spec_names();
        let ghost before_entries = set.entries@;
        let ghost pk = packages@.take(i as int);
        let ghost ok = outputs@.take(i as int);
        proof {
            assert(nv == packages@[i as int]@.0);
        }
        crate::file_set::insert_sorted_entry(&mut set, name, sorted);
        proof {
            let pk1 = packages@.take(i as int + 1);
            let ok1 = outputs@.take(i as int + 1);
            assert forall|nn: Seq<char>| #[trigger] set.spec_names().contains(nn) implies exists|
                j: int,
            | 0 <= j < i + 1 && (#[trigger] packages@[j]@).0 == nn by {
                if before_names.contains(nn) {
                    let j = choose|j: int| 0 <= j < i && (#[trigger] packages@[j]@).0 == nn;
                    assert((packages@[j]@).0 == nn);
                } else {
                    assert((packages@[i as int]@).0 == nn);
                }
            }
            assert forall|nn: Seq<char>|
                (exists|j: int| 0 <= j < i + 1 && (#[trigger] packages@[j]@).0 == nn) implies
                #[trigger] set.spec_names().contains(nn) by {
                let j = choose|j: int| 0 <= j < i + 1 && (#[trigger] packages@[j]@).0 == nn;
                if j < i {
                    assert(before_names.contains(nn));
                }
            }
            assert(entries_match_outputs(set.entries@, canonical_root@, pk1, ok1)) by {
                assert forall|k: int| 0 <= k < set.entries@.len() implies exists|j: int|
                    0 <= j < pk1.len() && entry_matches_output(
                        #[trigger] set.entries@[k],
                        canonical_root@,
                        #[trigger] pk1[j],
                        ok1[j]@,
                    ) by {
                    if before_names.contains(nv) {
                        assert(set.entries@[k] == before_entries[k]);
                        let j = choose|j: int|
                            0 <= j < pk.len() && entry_matches_output(
                                #[trigger] before_entries[k],
                                canonical_root@,
                                #[trigger] pk[j],
                                ok[j]@,
                            );
                        assert(pk1[j] == pk[j] && ok1[j] == ok[j]);
                        assert(entry_matches_output(set.entries@[k], canonical_root@, pk1[j], ok1[
                            j
                        ]@));
                    } else {
                        let k0 = choose|k0: int|
                            0 <= k0 <= before_entries.len() && set.entries@
                                == before_entries.insert(k0, #[trigger] set.entries@[k0]) && set
                                .entries@[k0].scoped_package_name@ == nv && set.entries@[
                                k0
                            ].included_files == sorted;
                        before_entries.insert_ensures(k0, set.entries@[k0]);
                        if k == k0 {
                            assert(pk1[i as int] == packages@[i as int] && ok1[i as int]
                                == outputs@[i as int]);
                            assert(entry_matches_output(
                                set.entries@[k],
                                canonical_root@,
                                pk1[i as int],
                                ok1[i as int]@,
                            )) by {
                                assert(set.entries@[k].included_files.deep_view() == sv);
                            }
                        } else {
                            let ghost old_k: int = if k < k0 {
                                k
                            } else {
                                k - 1
                            };
                            assert(set.entries@[k] == before_entries[old_k]);
                            let j = choose|j: int|
                                0 <= j < pk.len() && entry_matches_output(
                                    #[trigger] before_entries[old_k],
                                    canonical_root@,
                                    #[trigger] pk[j],
                                    ok[j]@,
                                );
                            assert(pk1[j] == pk[j] && ok1[j] == ok[j]);
                            assert(entry_matches_output(
                                set.entries@[k],
                                canonical_root@,
                                pk1[j],
                                ok1[j]@,
                            ));
                        }
                    }
                }
            }
        }
        i = i + 1;
    }
    proof {
        assert(packages@.take(n as int) =~= packages@);
        assert(outputs@.take(n as int) =~= outputs@);
    }
    Ok(set)
}

} // verus!

verus! {

impl EnumerateError {
    /// Render the error, naming the command or path involved.
    pub fn message(&self) -> (r: String)
        ensures
            r@ == match self.kind {
                EnumerateErrorKind::Command { message } => "unable to spawn child process: "@
                    + message@,
                EnumerateErrorKind::TypescriptCompiler { command, error } =>
                    "tsc exited with non-zero status code for command "@ + command@,
                EnumerateErrorKind::InvalidUtf8 { message } =>
                    "command output included invalid UTF-8: "@ + message@,
                EnumerateErrorKind::StripPrefix(e) => "unable to manipulate file path: "@
                    + e.spec_message(),
                EnumerateErrorKind::PackageInMonorepoRoot(p) =>
                    "unexpected package in monorepo root: "@ + crate::path::join_seq(p@, '/'),
                EnumerateErrorKind::Canonicalize { path, message } =>
                    "unable to canonicalize path "@ + crate::path::join_seq(path@, '/'),
            },
    {
        match &self.kind {
            EnumerateErrorKind::Command { message } => {
                let mut s = String::from_str("unable to spawn child process: ");
                s.append(message.as_str());
                s
            },
            EnumerateErrorKind::TypescriptCompiler { command, error: _ } => {
                let mut s = String::from_str("tsc exited with non-zero status code for command ");
                s.append(command.as_str());
                s
            },
            EnumerateErrorKind::InvalidUtf8 { message } => {
                let mut s = String::from_str("command output included invalid UTF-8: ");
                s.append(message.as_str());
                s
            },
            EnumerateErrorKind::StripPrefix(e) => {
                let mut s = String::from_str("unable to manipulate file path: ");
                s.append(e.message().as_str());
                s
            },
            EnumerateErrorKind::PackageInMonorepoRoot(p) => {
                let mut s = String::from_str("unexpected package in monorepo root: ");
                s.append(crate::path::path_to_string(p).as_str());
                s
            },
            EnumerateErrorKind::Canonicalize { path, message: _ } => {
                let mut s = String::from_str("unable to canonicalize path ");
                s.append(crate::path::path_to_string(path).as_str());
                s
            },
        }
    }
}

impl Error {
    /// Render the error: the offending path for a package in the monorepo
    /// root, a fixed phrase otherwise.
    pub fn message(&self) -> (r: String)
        ensures
            r@ == match self.kind {
                ErrorKind::PackageInMonorepoRoot(p) => "unexpected package in monorepo root: "@
                    + crate::path::join_seq(p@, '/'),
                _ => "unable to enumerate exact tsconfig includes"@,
            },
    {
        match &self.kind {
            ErrorKind::PackageInMonorepoRoot(p) => {
                let mut s = String::from_str("unexpected package in monorepo root: ");
                s.append(crate::path::path_to_string(p).as_str());
                s
            },
            _ => String::from_str("unable to enumerate exact tsconfig includes"),
        }
    }
}

} // verus!
