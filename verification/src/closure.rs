//! The dependency closure builder: from the monorepo's manifest data and a
//! set of requested project configurations to the deduplicated, inclusive set
//! of package identities to enumerate.
//!
//! The manifest data arrives as plain values — each package's name and
//! directory, and each package's transitive internal dependencies — so every
//! step here is verified for every value of that data.

use vstd::prelude::*;

use crate::order::Cmp;
use crate::path::FilePath;
use crate::typescript_package::TypescriptConfigFile;

verus! {

/// A package's name and its directory relative to the monorepo root, as the
/// manifest graph reports them.
#[derive(Debug)]
pub struct PackageDirectory {
    pub name: String,
    pub directory: FilePath,
}

/// A package's name and the names of all its transitive internal
/// dependencies, the package itself excluded, as the manifest graph reports
/// them.
#[derive(Debug)]
pub struct PackageDependencies {
    pub name: String,
    pub dependencies: Vec<String>,
}

/// The views of the name→directory entries.
pub open spec fn dirs_view(s: Seq<PackageDirectory>) -> Seq<(Seq<char>, Seq<Seq<char>>)> {
    Seq::new(s.len(), |i: int| (s[i].name@, s[i].directory@))
}

/// The views of the name→dependencies entries.
pub open spec fn graph_view(s: Seq<PackageDependencies>) -> Seq<(Seq<char>, Seq<Seq<char>>)> {
    Seq::new(s.len(), |i: int| (s[i].name@, s[i].dependencies.deep_view()))
}

/// The directory of the first entry named `name`, scanning from `i`.
pub open spec fn dir_of_from(
    dv: Seq<(Seq<char>, Seq<Seq<char>>)>,
    name: Seq<char>,
    i: int,
) -> Option<Seq<Seq<char>>>
    decreases dv.len() - i,
{
    if i < 0 || i >= dv.len() {
        None
    } else if dv[i].0 == name {
        Some(dv[i].1)
    } else {
        dir_of_from(dv, name, i + 1)
    }
}

/// The directory recorded for `name`: that of the first entry so named.
pub open spec fn dir_of(dv: Seq<(Seq<char>, Seq<Seq<char>>)>, name: Seq<char>) -> Option<
    Seq<Seq<char>>,
> {
    dir_of_from(dv, name, 0)
}

/// The name of the first entry whose directory is `dir`, scanning from `i`.
pub open spec fn owner_of_from(
    dv: Seq<(Seq<char>, Seq<Seq<char>>)>,
    dir: Seq<Seq<char>>,
    i: int,
) -> Option<Seq<char>>
    decreases dv.len() - i,
{
    if i < 0 || i >= dv.len() {
        None
    } else if dv[i].1 == dir {
        Some(dv[i].0)
    } else {
        owner_of_from(dv, dir, i + 1)
    }
}

/// The name of the package whose directory is `dir`: that of the first entry
/// with this directory.
pub open spec fn owner_of(dv: Seq<(Seq<char>, Seq<Seq<char>>)>, dir: Seq<Seq<char>>) -> Option<
    Seq<char>,
> {
    owner_of_from(dv, dir, 0)
}

/// The dependency names of the first entry named `name`, scanning from `i`.
pub open spec fn deps_of_from(
    gv: Seq<(Seq<char>, Seq<Seq<char>>)>,
    name: Seq<char>,
    i: int,
) -> Option<Seq<Seq<char>>>
    decreases gv.len() - i,
{
    if i < 0 || i >= gv.len() {
        None
    } else if gv[i].0 == name {
        Some(gv[i].1)
    } else {
        deps_of_from(gv, name, i + 1)
    }
}

/// The transitive internal dependency names recorded for `name`: those of the
/// first entry so named.
pub open spec fn deps_of(gv: Seq<(Seq<char>, Seq<Seq<char>>)>, name: Seq<char>) -> Option<
    Seq<Seq<char>>,
> {
    deps_of_from(gv, name, 0)
}

/// Look up the directory recorded for `name`.
pub fn lookup_directory<'a>(
    package_directories: &'a Vec<PackageDirectory>,
    name: &String,
) -> (r: Option<&'a FilePath>)
    ensures
        match r {
            Some(dir) => dir_of(dirs_view(package_directories@), name@) == Some(dir@),
            None => dir_of(dirs_view(package_directories@), name@) is None,
        },
{
    let ghost dv = dirs_view(package_directories@);
    let n = package_directories.len();
    let mut i: usize = 0;
    while i < n
        invariant
            dv == dirs_view(package_directories@),
            n == dv.len(),
            n == package_directories@.len(),
            i <= n,
            dir_of(dv, name@) == dir_of_from(dv, name@, i as int),
        decreases n - i,
    {
        proof {
            assert(dv[i as int] == (
                package_directories@[i as int].name@,
                package_directories@[i as int].directory@,
            ));
        }
        if crate::path::strings_equal(&package_directories[i].name, name) {
            return Some(&package_directories[i].directory);
        }
        i = i + 1;
    }
    None
}

/// Look up the package whose directory is `dir`.
pub fn lookup_owner<'a>(
    package_directories: &'a Vec<PackageDirectory>,
    dir: &FilePath,
) -> (r: Option<&'a String>)
    ensures
        match r {
            Some(name) => owner_of(dirs_view(package_directories@), dir@) == Some(name@),
            None => owner_of(dirs_view(package_directories@), dir@) is None,
        },
{
    let ghost dv = dirs_view(package_directories@);
    let n = package_directories.len();
    let mut i: usize = 0;
    while i < n
        invariant
            dv == dirs_view(package_directories@),
            n == dv.len(),
            n == package_directories@.len(),
            i <= n,
            owner_of(dv, dir@) == owner_of_from(dv, dir@, i as int),
        decreases n - i,
    {
        proof {
            assert(dv[i as int] == (
                package_directories@[i as int].name@,
                package_directories@[i as int].directory@,
            ));
        }
        match crate::order::compare_paths(&package_directories[i].directory, dir) {
            Cmp::Eq => {
                return Some(&package_directories[i].name);
            },
            _ => {},
        }
        i = i + 1;
    }
    None
}

/// Look up the transitive internal dependency names recorded for `name`.
pub fn lookup_dependencies<'a>(
    dependency_graph: &'a Vec<PackageDependencies>,
    name: &String,
) -> (r: Option<&'a Vec<String>>)
    ensures
        match r {
            Some(deps) => deps_of(graph_view(dependency_graph@), name@) == Some(deps.deep_view()),
            None => deps_of(graph_view(dependency_graph@), name@) is None,
        },
{
    let ghost gv = graph_view(dependency_graph@);
    let n = dependency_graph.len();
    let mut i: usize = 0;
    while i < n
        invariant
            gv == graph_view(dependency_graph@),
            n == gv.len(),
            n == dependency_graph@.len(),
            i <= n,
            deps_of(gv, name@) == deps_of_from(gv, name@, i as int),
        decreases n - i,
    {
        proof {
            assert(gv[i as int] == (
                dependency_graph@[i as int].name@,
                dependency_graph@[i as int].dependencies.deep_view(),
            ));
        }
        if crate::path::strings_equal(&dependency_graph[i].name, name) {
            return Some(&dependency_graph[i].dependencies);
        }
        i = i + 1;
    }
    None
}

} // verus!

verus! {

/// Failure of the closure builder.
#[derive(Debug)]
pub enum ClosureError {
    /// A configuration file sits at the monorepo root itself: packages must
    /// live in a subdirectory of the workspace.
    PackageInMonorepoRoot { tsconfig_file: FilePath },
    /// A requested configuration's directory belongs to no package of the
    /// manifest graph: the request and the graph are inconsistent.
    UnknownPackage { tsconfig_file: FilePath },
    /// A package name reached through the dependency graph has no manifest
    /// data: the graph and the directory index are inconsistent.
    UnknownDependency { name: String },
}

/// The identity derived for the package `name`: its recorded directory with
/// the configuration file name appended.
pub open spec fn identity_of(
    dv: Seq<(Seq<char>, Seq<Seq<char>>)>,
    name: Seq<char>,
) -> Option<(Seq<char>, Seq<Seq<char>>)> {
    match dir_of(dv, name) {
        Some(dir) => Some((name, dir.push(crate::typescript_package::tsconfig_filename()))),
        None => None,
    }
}

/// Whether `name` belongs to the inclusive closure of the package owning the
/// requested configuration `t`: it is the owner itself or one of the owner's
/// recorded transitive dependencies.
pub open spec fn closure_name(
    dv: Seq<(Seq<char>, Seq<Seq<char>>)>,
    gv: Seq<(Seq<char>, Seq<Seq<char>>)>,
    t: Seq<Seq<char>>,
    name: Seq<char>,
) -> bool {
    &&& t.len() >= 2
    &&& match owner_of(dv, t.drop_last()) {
        Some(owner) => match deps_of(gv, owner) {
            Some(deps) => name == owner || deps.contains(name),
            None => false,
        },
        None => false,
    }
}

/// Whether the identity `e` belongs to the closure resolved for the requested
/// configuration `t`.
pub open spec fn closure_member(
    dv: Seq<(Seq<char>, Seq<Seq<char>>)>,
    gv: Seq<(Seq<char>, Seq<Seq<char>>)>,
    t: Seq<Seq<char>>,
    e: (Seq<char>, Seq<Seq<char>>),
) -> bool {
    exists|name: Seq<char>| #[trigger] closure_name(dv, gv, t, name) && identity_of(dv, name)
        == Some(e)
}

/// Whether the requested configuration `t` resolves without error: it lies in
/// a subdirectory, its owner is known, the owner's dependencies are recorded,
/// and every closure member has a directory below the root.
pub open spec fn request_resolvable(
    dv: Seq<(Seq<char>, Seq<Seq<char>>)>,
    gv: Seq<(Seq<char>, Seq<Seq<char>>)>,
    t: Seq<Seq<char>>,
) -> bool {
    &&& t.len() >= 2
    &&& match owner_of(dv, t.drop_last()) {
        Some(owner) => match deps_of(gv, owner) {
            Some(deps) => forall|name: Seq<char>|
                (name == owner || deps.contains(name)) ==> match #[trigger] dir_of(dv, name) {
                    Some(dir) => dir.len() >= 1,
                    None => false,
                },
            None => false,
        },
        None => false,
    }
}

/// The views of the requested configuration files.
pub open spec fn requests_view(s: Seq<TypescriptConfigFile>) -> Seq<Seq<Seq<char>>> {
    Seq::new(s.len(), |i: int| s[i]@)
}

/// Whether the identity `e` belongs to the closure of any of the requests.
pub open spec fn resolved_member(
    dv: Seq<(Seq<char>, Seq<Seq<char>>)>,
    gv: Seq<(Seq<char>, Seq<Seq<char>>)>,
    reqs: Seq<Seq<Seq<char>>>,
    e: (Seq<char>, Seq<Seq<char>>),
) -> bool {
    exists|qq: int| 0 <= qq < reqs.len() && #[trigger] closure_member(dv, gv, reqs[qq], e)
}

/// Resolve the requested configurations to the deduplicated, inclusive set of
/// package identities to enumerate: for each request, the owning package and
/// all of its recorded transitive internal dependencies, the per-request
/// closures unioned and deduplicated by identity.
pub fn resolve_package_closure(
    package_directories: &Vec<PackageDirectory>,
    dependency_graph: &Vec<PackageDependencies>,
    tsconfig_files: &Vec<TypescriptConfigFile>,
) -> (r: Result<Vec<crate::typescript_package::TypescriptPackage>, ClosureError>)
    ensures
        match r {
            Ok(packages) => {
                &&& crate::typescript_package::strictly_sorted_packages(
                    crate::typescript_package::packages_view(packages@),
                )
                &&& forall|e: (Seq<char>, Seq<Seq<char>>)|
                    #[trigger] crate::typescript_package::packages_view(packages@).contains(e)
                        <==> resolved_member(
                        dirs_view(package_directories@),
                        graph_view(dependency_graph@),
                        requests_view(tsconfig_files@),
                        e,
                    )
                &&& forall|qq: int|
                    0 <= qq < tsconfig_files@.len() ==> request_resolvable(
                        dirs_view(package_directories@),
                        graph_view(dependency_graph@),
                        #[trigger] requests_view(tsconfig_files@)[qq],
                    )
            },
            Err(e) => {
                &&& exists|qq: int|
                    0 <= qq < tsconfig_files@.len() && !request_resolvable(
                        dirs_view(package_directories@),
                        graph_view(dependency_graph@),
                        #[trigger] requests_view(tsconfig_files@)[qq],
                    )
                &&& match e {
                    ClosureError::PackageInMonorepoRoot { tsconfig_file } => {
                        ||| exists|qq: int|
                            0 <= qq < tsconfig_files@.len()
                                && #[trigger] requests_view(tsconfig_files@)[qq]
                                == tsconfig_file@ && tsconfig_file@.len() < 2
                        ||| exists|qq: int, name: Seq<char>|
                            0 <= qq < tsconfig_files@.len() && #[trigger] closure_name(
                                dirs_view(package_directories@),
                                graph_view(dependency_graph@),
                                requests_view(tsconfig_files@)[qq],
                                name,
                            ) && match dir_of(dirs_view(package_directories@), name) {
                                Some(dir) => dir.len() == 0 && tsconfig_file@ == dir.push(
                                    crate::typescript_package::tsconfig_filename(),
                                ),
                                None => false,
                            }
                    },
                    ClosureError::UnknownPackage { tsconfig_file } => exists|qq: int|
                        0 <= qq < tsconfig_files@.len()
                            && #[trigger] requests_view(tsconfig_files@)[qq] == tsconfig_file@
                            && tsconfig_file@.len() >= 2 && owner_of(
                            dirs_view(package_directories@),
                            tsconfig_file@.drop_last(),
                        ) is None,
                    ClosureError::UnknownDependency { name } => exists|qq: int|
                        0 <= qq < tsconfig_files@.len() && {
                            let t = #[trigger] requests_view(tsconfig_files@)[qq];
                            t.len() >= 2 && match owner_of(
                                dirs_view(package_directories@),
                                t.drop_last(),
                            ) {
                                Some(owner) => (deps_of(graph_view(dependency_graph@), owner)
                                    is None && name@ == owner) || (closure_name(
                                    dirs_view(package_directories@),
                                    graph_view(dependency_graph@),
                                    t,
                                    name@,
                                ) && dir_of(dirs_view(package_directories@), name@) is None),
                                None => false,
                            }
                        },
                }
            },
        },
{
    let ghost dv = dirs_view(package_directories@);
    let ghost gv = graph_view(dependency_graph@);
    let ghost reqs = requests_view(tsconfig_files@);
    let mut result: Vec<crate::typescript_package::TypescriptPackage> = Vec::new();
    let nq = tsconfig_files.len();
    let mut q: usize = 0;
    while q < nq
        invariant
            dv == dirs_view(package_directories@),
            gv == graph_view(dependency_graph@),
            reqs == requests_view(tsconfig_files@),
            nq == reqs.len(),
            nq == tsconfig_files@.len(),
            q <= nq,
            crate::typescript_package::strictly_sorted_packages(
                crate::typescript_package::packages_view(result@),
            ),
            forall|e: (Seq<char>, Seq<Seq<char>>)|
                #[trigger] crate::typescript_package::packages_view(result@).contains(e)
                    <==> resolved_member(dv, gv, reqs.take(q as int), e),
            forall|k: int| 0 <= k < q ==> request_resolvable(dv, gv, #[trigger] reqs[k]),
        decreases nq - q,
    {
        let t = &tsconfig_files[q];
        proof {
            assert(reqs[q as int] == t@);
        }
        if t.0.segments.len() < 2 {
            proof {
                assert(t.0.segments@.len() == t@.len());
                assert(!request_resolvable(dv, gv, reqs[q as int]));
            }
            return Err(ClosureError::PackageInMonorepoRoot { tsconfig_file: t.0.clone() });
        }
        proof {
            assert(t.0.segments@.len() == t@.len());
        }
        let parent = crate::path::parent_path(&t.0);
        let owner_name: &String = match lookup_owner(package_directories, &parent) {
            Some(name) => name,
            None => {
                proof {
                    assert(!request_resolvable(dv, gv, reqs[q as int]));
                }
                return Err(ClosureError::UnknownPackage { tsconfig_file: t.0.clone() });
            },
        };
        let deps: &Vec<String> = match lookup_dependencies(dependency_graph, owner_name) {
            Some(d) => d,
            None => {
                proof {
                    assert(!request_resolvable(dv, gv, reqs[q as int]));
                }
                return Err(ClosureError::UnknownDependency {
                    name: crate::path::clone_string(owner_name),
                });
            },
        };
        let ghost owner = owner_name@;
        let ghost deps_v = deps.deep_view();

        // The owner itself belongs to the closure.
        proof {
            assert(closure_name(dv, gv, t@, owner));
        }
        let owner_dir: &FilePath = match lookup_directory(package_directories, owner_name) {
            Some(d) => d,
            None => {
                proof {
                    assert(!request_resolvable(dv, gv, reqs[q as int]));
                }
                return Err(ClosureError::UnknownDependency {
                    name: crate::path::clone_string(owner_name),
                });
            },
        };
        if owner_dir.segments.len() == 0 {
            let bad = crate::typescript_package::tsconfig_in(owner_dir);
            proof {
                assert(owner_dir.segments@.len() == owner_dir@.len());
                assert(!request_resolvable(dv, gv, reqs[q as int]));
            }
            return Err(ClosureError::PackageInMonorepoRoot { tsconfig_file: bad });
        }
        proof {
            assert(owner_dir.segments@.len() == owner_dir@.len());
        }
        let owner_identity = crate::typescript_package::TypescriptPackage {
            scoped_package_name: crate::path::clone_string(owner_name),
            tsconfig_file: crate::typescript_package::TypescriptConfigFile::new(
                crate::typescript_package::tsconfig_in(owner_dir),
            ),
        };
        proof {
            assert(owner_identity@ == (owner, owner_dir@.push(
                crate::typescript_package::tsconfig_filename(),
            )));
            assert(identity_of(dv, owner) == Some(owner_identity@));
        }
        let ghost before_owner = crate::typescript_package::packages_view(result@);
        let ghost owner_idv = owner_identity@;
        crate::typescript_package::insert_sorted_package(&mut result, owner_identity);
        proof {
            let pv = crate::typescript_package::packages_view(result@);
            assert forall|e: (Seq<char>, Seq<Seq<char>>)| #[trigger] pv.contains(e) <==> (
            resolved_member(dv, gv, reqs.take(q as int), e) || identity_of(dv, owner) == Some(e)
                || exists|kk: int|
                0 <= kk < 0 && #[trigger] identity_of(dv, deps_v[kk]) == Some(e)) by {
                if pv.contains(e) {
                    if !before_owner.contains(e) {
                        assert(e == owner_idv);
                    }
                }
                if resolved_member(dv, gv, reqs.take(q as int), e) {
                    assert(before_owner.contains(e));
                }
                if identity_of(dv, owner) == Some(e) {
                    assert(e == owner_idv);
                }
            }
        }

        // Then every recorded transitive dependency.
        let m = deps.len();
        let mut k: usize = 0;
        while k < m
            invariant
                dv == dirs_view(package_directories@),
                gv == graph_view(dependency_graph@),
                reqs == requests_view(tsconfig_files@),
                nq == reqs.len(),
                nq == tsconfig_files@.len(),
                q < nq,
                reqs[q as int] == t@,
                t@.len() >= 2,
                owner_of(dv, t@.drop_last()) == Some(owner),
                deps_of(gv, owner) == Some(deps_v),
                m == deps_v.len(),
                m == deps@.len(),
                deps_v == deps.deep_view(),
                k <= m,
                crate::typescript_package::strictly_sorted_packages(
                    crate::typescript_package::packages_view(result@),
                ),
                forall|e: (Seq<char>, Seq<Seq<char>>)|
                    #[trigger] crate::typescript_package::packages_view(result@).contains(e)
                        <==> (resolved_member(dv, gv, reqs.take(q as int), e) || identity_of(
                        dv,
                        owner,
                    ) == Some(e) || exists|kk: int|
                        0 <= kk < k as int && #[trigger] identity_of(dv, deps_v[kk]) == Some(e)),
                forall|kk: int| 0 <= kk < q ==> request_resolvable(dv, gv, #[trigger] reqs[kk]),
                match dir_of(dv, owner) {
                    Some(dir) => dir.len() >= 1,
                    None => false,
                },
                forall|kk: int|
                    0 <= kk < k as int ==> match #[trigger] dir_of(dv, deps_v[kk]) {
                        Some(dir) => dir.len() >= 1,
                        None => false,
                    },
            decreases m - k,
        {
            let name: &String = &deps[k];
            let ghost name_v = name@;
            proof {
                assert(deps_v[k as int] == deps@[k as int]@);
                assert(name_v == deps_v[k as int]);
                assert(deps_v.contains(name_v)) by {
                    assert(deps_v[k as int] == name_v);
                }
                assert(closure_name(dv, gv, t@, name_v));
            }
            let dir: &FilePath = match lookup_directory(package_directories, name) {
                Some(d) => d,
                None => {
                    proof {
                        assert(!request_resolvable(dv, gv, reqs[q as int]));
                    }
                    return Err(ClosureError::UnknownDependency {
                        name: crate::path::clone_string(name),
                    });
                },
            };
            if dir.segments.len() == 0 {
                let bad = crate::typescript_package::tsconfig_in(dir);
                proof {
                    assert(dir.segments@.len() == dir@.len());
                    assert(!request_resolvable(dv, gv, reqs[q as int]));
                }
                return Err(ClosureError::PackageInMonorepoRoot { tsconfig_file: bad });
            }
            proof {
                assert(dir.segments@.len() == dir@.len());
            }
            let identity = crate::typescript_package::TypescriptPackage {
                scoped_package_name: crate::path::clone_string(name),
                tsconfig_file: crate::typescript_package::TypescriptConfigFile::new(
                    crate::typescript_package::tsconfig_in(dir),
                ),
            };
            proof {
                assert(identity@ == (name_v, dir@.push(
                    crate::typescript_package::tsconfig_filename(),
                )));
                assert(identity_of(dv, name_v) == Some(identity@));
            }
            let ghost before = crate::typescript_package::packages_view(result@);
            let ghost idv = identity@;
            crate::typescript_package::insert_sorted_package(&mut result, identity);
            proof {
                let pv = crate::typescript_package::packages_view(result@);
                assert forall|e: (Seq<char>, Seq<Seq<char>>)| #[trigger] pv.contains(e) implies (
                resolved_member(dv, gv, reqs.take(q as int), e) || identity_of(dv, owner) == Some(
                    e,
                ) || exists|kk: int|
                    0 <= kk < k as int + 1 && #[trigger] identity_of(dv, deps_v[kk]) == Some(
                        e,
                    )) by {
                    if before.contains(e) {
                        if !(resolved_member(dv, gv, reqs.take(q as int), e) || identity_of(
                            dv,
                            owner,
                        ) == Some(e)) {
                            let kk = choose|kk: int|
                                0 <= kk < k as int && #[trigger] identity_of(dv, deps_v[kk])
                                    == Some(e);
                            assert(identity_of(dv, deps_v[kk]) == Some(e));
                        }
                    } else {
                        assert(e == idv);
                        assert(identity_of(dv, deps_v[k as int]) == Some(e));
                    }
                }
                assert forall|e: (Seq<char>, Seq<Seq<char>>)|
                    (resolved_member(dv, gv, reqs.take(q as int), e) || identity_of(dv, owner)
                        == Some(e) || exists|kk: int|
                        0 <= kk < k as int + 1 && #[trigger] identity_of(dv, deps_v[kk]) == Some(
                            e,
                        )) implies #[trigger] pv.contains(e) by {
                    if resolved_member(dv, gv, reqs.take(q as int), e) || identity_of(dv, owner)
                        == Some(e) {
                        assert(before.contains(e));
                    } else {
                        let kk = choose|kk: int|
                            0 <= kk < k as int + 1 && #[trigger] identity_of(dv, deps_v[kk])
                                == Some(e);
                        if kk < k as int {
                            assert(before.contains(e));
                        } else {
                            assert(e == idv);
                        }
                    }
                }
            }
            k = k + 1;
        }
        proof {
            assert forall|e: (Seq<char>, Seq<Seq<char>>)|
                #[trigger] crate::typescript_package::packages_view(result@).contains(e)
                    <==> resolved_member(dv, gv, reqs.take(q as int + 1), e) by {
                let pv = crate::typescript_package::packages_view(result@);
                if pv.contains(e) {
                    if resolved_member(dv, gv, reqs.take(q as int), e) {
                        let qq = choose|qq: int|
                            0 <= qq < reqs.take(q as int).len() && #[trigger] closure_member(
                                dv,
                                gv,
                                reqs.take(q as int)[qq],
                                e,
                            );
                        assert(reqs.take(q as int + 1)[qq] == reqs.take(q as int)[qq]);
                        assert(closure_member(dv, gv, reqs.take(q as int + 1)[qq], e));
                    } else if identity_of(dv, owner) == Some(e) {
                        assert(closure_name(dv, gv, t@, owner));
                        assert(closure_member(dv, gv, t@, e));
                        assert(reqs.take(q as int + 1)[q as int] == t@);
                        assert(closure_member(dv, gv, reqs.take(q as int + 1)[q as int], e));
                    } else {
                        let kk = choose|kk: int|
                            0 <= kk < m && #[trigger] identity_of(dv, deps_v[kk]) == Some(e);
                        assert(deps_v.contains(deps_v[kk]));
                        assert(closure_name(dv, gv, t@, deps_v[kk]));
                        assert(closure_member(dv, gv, t@, e));
                        assert(reqs.take(q as int + 1)[q as int] == t@);
                        assert(closure_member(dv, gv, reqs.take(q as int + 1)[q as int], e));
                    }
                }
                if resolved_member(dv, gv, reqs.take(q as int + 1), e) {
                    let qq = choose|qq: int|
                        0 <= qq < reqs.take(q as int + 1).len() && #[trigger] closure_member(
                            dv,
                            gv,
                            reqs.take(q as int + 1)[qq],
                            e,
                        );
                    if qq < q as int {
                        assert(reqs.take(q as int)[qq] == reqs.take(q as int + 1)[qq]);
                        assert(closure_member(dv, gv, reqs.take(q as int)[qq], e));
                        assert(resolved_member(dv, gv, reqs.take(q as int), e));
                        assert(pv.contains(e));
                    } else {
                        assert(reqs.take(q as int + 1)[qq] == t@);
                        let name = choose|name: Seq<char>| #[trigger] closure_name(
                            dv,
                            gv,
                            t@,
                            name,
                        ) && identity_of(dv, name) == Some(e);
                        if name == owner {
                            assert(pv.contains(e));
                        } else {
                            assert(deps_v.contains(name));
                            let kk = choose|kk: int|
                                0 <= kk < deps_v.len() && deps_v[kk] == name;
                            assert(identity_of(dv, deps_v[kk]) == Some(e));
                            assert(pv.contains(e));
                        }
                    }
                }
            }
            assert(request_resolvable(dv, gv, reqs[q as int])) by {
                assert forall|name: Seq<char>| (name == owner || deps_v.contains(name))
                    implies match #[trigger] dir_of(dv, name) {
                    Some(dir) => dir.len() >= 1,
                    None => false,
                } by {
                    if name != owner {
                        let kk = choose|kk: int| 0 <= kk < deps_v.len() && deps_v[kk] == name;
                        assert(match dir_of(dv, deps_v[kk]) {
                            Some(dir) => dir.len() >= 1,
                            None => false,
                        });
                    }
                }
            }
        }
        q = q + 1;
    }
    proof {
        assert(reqs.take(nq as int) =~= reqs);
    }
    Ok(result)
}

} // verus!

verus! {

/// Closure inclusivity: the closure resolved for a requested configuration
/// always contains the identity of the owning package itself, even when that
/// package has no internal dependencies.
pub proof fn lemma_closure_inclusive(
    dv: Seq<(Seq<char>, Seq<Seq<char>>)>,
    gv: Seq<(Seq<char>, Seq<Seq<char>>)>,
    t: Seq<Seq<char>>,
)
    requires
        request_resolvable(dv, gv, t),
    ensures
        match owner_of(dv, t.drop_last()) {
            Some(owner) => match identity_of(dv, owner) {
                Some(e) => closure_member(dv, gv, t, e),
                None => false,
            },
            None => false,
        },
{
    let owner = match owner_of(dv, t.drop_last()) {
        Some(owner) => owner,
        None => arbitrary(),
    };
    assert(closure_name(dv, gv, t, owner));
    assert(match dir_of(dv, owner) {
        Some(dir) => dir.len() >= 1,
        None => false,
    });
    let e = match identity_of(dv, owner) {
        Some(e) => e,
        None => arbitrary(),
    };
    assert(closure_name(dv, gv, t, owner) && identity_of(dv, owner) == Some(e));
}

/// Closure union and idempotence: the set resolved for the concatenation of
/// two request lists holds exactly the identities resolved for the one or for
/// the other — resolving requests separately and uniting the outcomes gives
/// the same set as resolving them together, and repeating a request adds
/// nothing.
pub proof fn lemma_closure_union(
    dv: Seq<(Seq<char>, Seq<Seq<char>>)>,
    gv: Seq<(Seq<char>, Seq<Seq<char>>)>,
    reqs1: Seq<Seq<Seq<char>>>,
    reqs2: Seq<Seq<Seq<char>>>,
    e: (Seq<char>, Seq<Seq<char>>),
)
    ensures
        resolved_member(dv, gv, reqs1 + reqs2, e) <==> (resolved_member(dv, gv, reqs1, e)
            || resolved_member(dv, gv, reqs2, e)),
{
    let both = reqs1 + reqs2;
    if resolved_member(dv, gv, both, e) {
        let qq = choose|qq: int| 0 <= qq < both.len() && #[trigger] closure_member(
            dv,
            gv,
            both[qq],
            e,
        );
        if qq < reqs1.len() {
            assert(reqs1[qq] == both[qq]);
            assert(closure_member(dv, gv, reqs1[qq], e));
        } else {
            assert(reqs2[qq - reqs1.len()] == both[qq]);
            assert(closure_member(dv, gv, reqs2[qq - reqs1.len()], e));
        }
    }
    if resolved_member(dv, gv, reqs1, e) {
        let qq = choose|qq: int| 0 <= qq < reqs1.len() && #[trigger] closure_member(
            dv,
            gv,
            reqs1[qq],
            e,
        );
        assert(both[qq] == reqs1[qq]);
        assert(closure_member(dv, gv, both[qq], e));
    }
    if resolved_member(dv, gv, reqs2, e) {
        let qq = choose|qq: int| 0 <= qq < reqs2.len() && #[trigger] closure_member(
            dv,
            gv,
            reqs2[qq],
            e,
        );
        assert(both[qq + reqs1.len()] == reqs2[qq]);
        assert(closure_member(dv, gv, both[qq + reqs1.len()], e));
    }
}

/// Deduplication: in a strictly sorted identity set — as the closure builder
/// returns — no identity appears twice, however many requests shared it.
pub proof fn lemma_sorted_packages_unique(s: Seq<(Seq<char>, Seq<Seq<char>>)>)
    requires
        crate::typescript_package::strictly_sorted_packages(s),
    ensures
        forall|i: int, j: int| 0 <= i < s.len() && 0 <= j < s.len() && i != j ==> s[i] != s[j],
{
    assert forall|i: int, j: int|
        0 <= i < s.len() && 0 <= j < s.len() && i != j implies s[i] != s[j] by {
        if i < j {
            crate::typescript_package::lemma_package_lt_asymmetric(s[i], s[j]);
        } else {
            crate::typescript_package::lemma_package_lt_asymmetric(s[j], s[i]);
        }
    }
}

} // verus!
