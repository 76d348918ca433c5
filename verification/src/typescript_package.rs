//! Packages of the monorepo and their configuration files.

use vstd::prelude::*;

use crate::order::{
    lemma_path_lt_asymmetric, lemma_path_lt_transitive, lemma_str_lt_asymmetric,
    lemma_str_lt_transitive, path_lt, str_lt, Cmp,
};
use crate::path::FilePath;

verus! {

/// A package whose configuration file resolves to the monorepo root: packages
/// must live in a subdirectory of the workspace.
#[derive(Debug)]
pub struct PackageInMonorepoRootError(pub FilePath);

/// The path of a project's configuration file, relative to the monorepo root.
#[derive(Debug, PartialEq, Eq, Hash)]
pub struct TypescriptConfigFile(pub FilePath);

impl View for TypescriptConfigFile {
    type V = Seq<Seq<char>>;

    open spec fn view(&self) -> Seq<Seq<char>> {
        self.0@
    }
}

impl Clone for TypescriptConfigFile {
    fn clone(&self) -> (r: Self)
        ensures
            r@ == self@,
    {
        TypescriptConfigFile(self.0.clone())
    }
}

impl TypescriptConfigFile {
    /// Wrap a configuration-file path relative to the monorepo root.
    pub fn new(path: FilePath) -> (r: Self)
        ensures
            r@ == path@,
    {
        TypescriptConfigFile(path)
    }

    /// The configuration file's path.
    pub fn as_path(&self) -> (r: &FilePath)
        ensures
            r@ == self@,
    {
        &self.0
    }

    /// The directory holding the package this configuration file belongs to,
    /// joined onto `monorepo_root`.
    ///
    /// Fails when the configuration file sits at the monorepo root itself: a
    /// package must live in a subdirectory of the workspace.
    pub fn package_directory(&self, monorepo_root: &FilePath) -> (r: Result<
        FilePath,
        PackageInMonorepoRootError,
    >)
        ensures
            match r {
                Ok(dir) => self@.len() >= 2 && dir@ == monorepo_root@ + self@.drop_last(),
                Err(e) => self@.len() < 2 && e.0@ == monorepo_root@ + self@,
            },
{
        let joined = crate::path::join_paths(monorepo_root, &self.0);
        if self.0.segments.len() < 2 {
            proof {
                assert(self.0.segments@.len() == self@.len());
            }
            return Err(PackageInMonorepoRootError(joined));
        }
        let mut dir_segments = joined.segments;
        let ghost before_deep = dir_segments.deep_view();
        let ghost before_shallow = dir_segments@;
        let _last = dir_segments.pop();
        proof {
            assert(self.0.segments@.len() == self@.len());
            assert(before_deep == monorepo_root@ + self@);
            assert(before_deep.len() == before_shallow.len());
            assert(before_shallow.len() >= 2);
            assert(dir_segments@ =~= before_shallow.subrange(0, before_shallow.len() - 1));
            assert(dir_segments.deep_view().len() == dir_segments@.len());
            assert(dir_segments@.len() == before_deep.len() - 1);
            assert((monorepo_root@ + self@.drop_last()).len() == before_deep.len() - 1);
            assert forall|k: int|
                0 <= k < dir_segments@.len() implies dir_segments.deep_view()[k] == (monorepo_root@
                + self@.drop_last())[k] by {
                assert(dir_segments.deep_view()[k] == dir_segments@[k]@);
                assert(dir_segments@[k] == before_shallow[k]);
                assert(before_deep[k] == before_shallow[k]@);
                if k >= monorepo_root@.len() {
                    assert(self@.drop_last()[k - monorepo_root@.len()] == self@[k
                        - monorepo_root@.len()]);
                }
                assert(before_deep[k] == (monorepo_root@ + self@)[k]);
            }
            assert(dir_segments.deep_view() =~= monorepo_root@ + self@.drop_last());
        }
        Ok(FilePath { segments: dir_segments })
    }
}

/// The identity of a package to enumerate: its scoped name and the path of
/// its configuration file relative to the monorepo root.  This pair is the
/// unit of deduplication for the dependency closure.
#[derive(Debug)]
pub struct TypescriptPackage {
    pub scoped_package_name: String,
    pub tsconfig_file: TypescriptConfigFile,
}

impl View for TypescriptPackage {
    type V = (Seq<char>, Seq<Seq<char>>);

    open spec fn view(&self) -> (Seq<char>, Seq<Seq<char>>) {
        (self.scoped_package_name@, self.tsconfig_file@)
    }
}

impl Clone for TypescriptPackage {
    fn clone(&self) -> (r: Self)
        ensures
            r@ == self@,
    {
        TypescriptPackage {
            scoped_package_name: crate::path::clone_string(&self.scoped_package_name),
            tsconfig_file: self.tsconfig_file.clone(),
        }
    }
}

/// Order on package identities: by scoped name, then by configuration path.
pub open spec fn package_lt(a: (Seq<char>, Seq<Seq<char>>), b: (Seq<char>, Seq<Seq<char>>)) -> bool {
    str_lt(a.0, b.0) || (a.0 == b.0 && path_lt(a.1, b.1))
}

pub proof fn lemma_package_lt_asymmetric(a: (Seq<char>, Seq<Seq<char>>), b: (Seq<char>, Seq<Seq<char>>))
    requires
        package_lt(a, b),
    ensures
        !package_lt(b, a),
        a != b,
{
    if str_lt(a.0, b.0) {
        lemma_str_lt_asymmetric(a.0, b.0);
    } else {
        lemma_path_lt_asymmetric(a.1, b.1);
    }
}

pub proof fn lemma_package_lt_transitive(
    a: (Seq<char>, Seq<Seq<char>>),
    b: (Seq<char>, Seq<Seq<char>>),
    c: (Seq<char>, Seq<Seq<char>>),
)
    requires
        package_lt(a, b),
        package_lt(b, c),
    ensures
        package_lt(a, c),
{
    if str_lt(a.0, b.0) && str_lt(b.0, c.0) {
        lemma_str_lt_transitive(a.0, b.0, c.0);
    } else if a.0 == b.0 && b.0 == c.0 {
        lemma_path_lt_transitive(a.1, b.1, c.1);
    }
}

/// Compare two package identities: by scoped name, then by configuration path.
pub fn compare_packages(a: &TypescriptPackage, b: &TypescriptPackage) -> (r: Cmp)
    ensures
        r is Lt <==> package_lt(a@, b@),
        r is Gt <==> package_lt(b@, a@),
        r is Eq <==> a@ == b@,
{
    match crate::order::compare_strings(&a.scoped_package_name, &b.scoped_package_name) {
        Cmp::Lt => Cmp::Lt,
        Cmp::Gt => Cmp::Gt,
        Cmp::Eq => {
            match crate::order::compare_paths(a.tsconfig_file.as_path(), b.tsconfig_file.as_path()) {
                Cmp::Lt => Cmp::Lt,
                Cmp::Gt => Cmp::Gt,
                Cmp::Eq => Cmp::Eq,
            }
        },
    }
}

/// Whether the package identities of `s` are in strictly increasing order, so
/// deduplicated.
pub open spec fn strictly_sorted_packages(s: Seq<(Seq<char>, Seq<Seq<char>>)>) -> bool {
    forall|i: int, j: int| 0 <= i < j < s.len() ==> package_lt(s[i], s[j])
}

/// The views of a vector of package identities.
pub open spec fn packages_view(v: Seq<TypescriptPackage>) -> Seq<(Seq<char>, Seq<Seq<char>>)> {
    Seq::new(v.len(), |i: int| v[i]@)
}

/// Insert `x` into the strictly sorted identity set `v`, keeping it strictly
/// sorted; an identity already present is not duplicated.
pub fn insert_sorted_package(v: &mut Vec<TypescriptPackage>, x: TypescriptPackage)
    requires
        strictly_sorted_packages(packages_view(old(v)@)),
    ensures
        strictly_sorted_packages(packages_view(final(v)@)),
        forall|e: (Seq<char>, Seq<Seq<char>>)|
            #[trigger] packages_view(final(v)@).contains(e) <==> (packages_view(
                old(v)@,
            ).contains(e) || e == x@),
{
    let n = v.len();
    let mut i: usize = 0;
    while i < n
        invariant
            strictly_sorted_packages(packages_view(v@)),
            v@ == old(v)@,
            n == v@.len(),
            i <= n,
            forall|j: int| 0 <= j < i ==> package_lt(packages_view(v@)[j], x@),
        decreases n - i,
    {
        proof {
            assert(packages_view(v@)[i as int] == v@[i as int]@);
        }
        match compare_packages(&v[i], &x) {
            Cmp::Lt => {},
            Cmp::Eq => {
                proof {
                    assert(packages_view(v@).contains(x@)) by {
                        assert(packages_view(v@)[i as int] == x@);
                    }
                }
                return;
            },
            Cmp::Gt => {
                let ghost old_pv = packages_view(v@);
                v.insert(i, x);
                proof {
                    assert(packages_view(v@) =~= old_pv.insert(i as int, x@)) by {
                        old_pv.insert_ensures(i as int, x@);
                    }
                    old_pv.insert_ensures(i as int, x@);
                    assert forall|p: int, q: int|
                        0 <= p < q < packages_view(v@).len() implies package_lt(
                        packages_view(v@)[p],
                        packages_view(v@)[q],
                    ) by {
                        let pv = packages_view(v@);
                        if q < i {
                        } else if p < i && q == i {
                            assert(pv[p] == old_pv[p]);
                            assert(pv[q] == x@);
                        } else if p < i && q > i {
                            assert(pv[p] == old_pv[p]);
                            assert(pv[q] == old_pv[q - 1]);
                        } else if p == i {
                            assert(pv[p] == x@);
                            assert(pv[q] == old_pv[q - 1]);
                            if q - 1 > i {
                                lemma_package_lt_transitive(x@, old_pv[i as int], old_pv[q - 1]);
                            }
                        } else {
                            assert(pv[p] == old_pv[p - 1]);
                            assert(pv[q] == old_pv[q - 1]);
                        }
                    }
                    assert forall|e: (Seq<char>, Seq<Seq<char>>)| #[trigger] packages_view(
                        v@,
                    ).contains(e) implies (old_pv.contains(e) || e == x@) by {
                        let pv = packages_view(v@);
                        let k = choose|k: int| 0 <= k < pv.len() && pv[k] == e;
                        if k < i {
                            assert(old_pv[k] == e);
                        } else if k > i {
                            assert(old_pv[k - 1] == e);
                        }
                    }
                    assert forall|e: (Seq<char>, Seq<Seq<char>>)| old_pv.contains(e) || e == x@
                        implies #[trigger] packages_view(v@).contains(e) by {
                        let pv = packages_view(v@);
                        if e == x@ {
                            assert(pv[i as int] == e);
                        } else {
                            let k = choose|k: int| 0 <= k < old_pv.len() && old_pv[k] == e;
                            if k < i {
                                assert(pv[k] == e);
                            } else {
                                assert(pv[k + 1] == e);
                            }
                        }
                    }
                }
                return;
            },
        }
        i = i + 1;
    }
    let ghost old_pv = packages_view(v@);
    v.push(x);
    proof {
        assert(packages_view(v@) =~= old_pv.push(x@));
        assert forall|p: int, q: int|
            0 <= p < q < packages_view(v@).len() implies package_lt(
            packages_view(v@)[p],
            packages_view(v@)[q],
        ) by {
            let pv = packages_view(v@);
            if q == pv.len() - 1 {
                assert(pv[p] == old_pv[p]);
                assert(pv[q] == x@);
            }
        }
        assert forall|e: (Seq<char>, Seq<Seq<char>>)| #[trigger] packages_view(v@).contains(e)
            implies (old_pv.contains(e) || e == x@) by {
            let pv = packages_view(v@);
            let k = choose|k: int| 0 <= k < pv.len() && pv[k] == e;
            if k < pv.len() - 1 {
                assert(old_pv[k] == e);
            }
        }
        assert forall|e: (Seq<char>, Seq<Seq<char>>)| old_pv.contains(e) || e == x@ implies
            #[trigger] packages_view(v@).contains(e) by {
            let pv = packages_view(v@);
            if e == x@ {
                assert(pv[pv.len() - 1] == e);
            } else {
                let k = choose|k: int| 0 <= k < old_pv.len() && old_pv[k] == e;
                assert(pv[k] == e);
            }
        }
    }
}

} // verus!

verus! {

/// The fixed file name of a project's configuration file.
pub open spec fn tsconfig_filename() -> Seq<char> {
    "tsconfig.json"@
}

/// The configuration-file path inside the package directory `dir`.
pub fn tsconfig_in(dir: &FilePath) -> (r: FilePath)
    ensures
        r@ == dir@.push(tsconfig_filename()),
{
    crate::path::push_segment(dir, String::from_str("tsconfig.json"))
}

} // verus!
