//! The grouped result of an enumeration: for every resolved package, the
//! sorted, deduplicated list of files that take part in its compilation,
//! as paths relative to the monorepo root.

use vstd::prelude::*;

use crate::order::{str_lt, strictly_sorted_paths, strictly_sorted_strings};
use crate::path::FilePath;

verus! {

/// One package's entry in the result: its scoped name and its sorted file
/// list.
#[derive(Debug)]
pub struct PackageFiles {
    pub scoped_package_name: String,
    pub included_files: Vec<FilePath>,
}

impl View for PackageFiles {
    type V = (Seq<char>, Seq<Seq<Seq<char>>>);

    open spec fn view(&self) -> (Seq<char>, Seq<Seq<Seq<char>>>) {
        (self.scoped_package_name@, self.included_files.deep_view())
    }
}

/// The views of a sequence of entries.
pub open spec fn entries_view(s: Seq<PackageFiles>) -> Seq<(Seq<char>, Seq<Seq<Seq<char>>>)> {
    Seq::new(s.len(), |i: int| s[i]@)
}

/// File lists grouped by scoped package name, the names strictly sorted.
#[derive(Debug)]
pub struct ResolvedFileSet {
    pub entries: Vec<PackageFiles>,
}

impl ResolvedFileSet {
    /// The scoped package names of the entries, in order.
    pub open spec fn spec_names(&self) -> Seq<Seq<char>> {
        Seq::new(self.entries@.len(), |i: int| self.entries@[i].scoped_package_name@)
    }

    /// Entries are strictly sorted by name — so each package appears exactly
    /// once — and every file list is strictly sorted, so free of duplicates.
    pub open spec fn well_formed(&self) -> bool {
        &&& strictly_sorted_strings(self.spec_names())
        &&& forall|i: int|
            0 <= i < self.entries@.len() ==> strictly_sorted_paths(
                #[trigger] self.entries@[i].included_files.deep_view(),
            )
    }
}

/// Sort `files` into a strictly increasing list: the result holds exactly the
/// paths of the input, ordered and deduplicated.
pub fn sort_paths(files: Vec<FilePath>) -> (r: Vec<FilePath>)
    ensures
        strictly_sorted_paths(r.deep_view()),
        forall|e: Seq<Seq<char>>|
            #[trigger] r.deep_view().contains(e) <==> files.deep_view().contains(e),
{
    let mut sorted: Vec<FilePath> = Vec::new();
    let mut files = files;
    let n = files.len();
    let ghost fv = files.deep_view();
    let mut i: usize = 0;
    while i < n
        invariant
            n == fv.len(),
            n == files@.len(),
            fv == files.deep_view(),
            i <= n,
            strictly_sorted_paths(sorted.deep_view()),
            forall|e: Seq<Seq<char>>|
                #[trigger] sorted.deep_view().contains(e) <==> fv.take(i as int).contains(e),
        decreases n - i,
    {
        let ghost before = sorted.deep_view();
        let x = files[i].clone();
        proof {
            assert(fv[i as int] == files@[i as int]@);
        }
        crate::order::insert_sorted_path(&mut sorted, x);
        proof {
            assert forall|e: Seq<Seq<char>>| #[trigger] sorted.deep_view().contains(e) implies fv
                .take(i as int + 1)
                .contains(e) by {
                if before.contains(e) {
                    let k = choose|k: int| 0 <= k < i && fv.take(i as int)[k] == e;
                    assert(fv.take(i as int + 1)[k] == e);
                } else {
                    assert(e == fv[i as int]);
                    assert(fv.take(i as int + 1)[i as int] == e);
                }
            }
            assert forall|e: Seq<Seq<char>>| fv.take(i as int + 1).contains(e) implies #[trigger]
                sorted.deep_view().contains(e) by {
                let k = choose|k: int| 0 <= k < i + 1 && #[trigger] fv.take(i as int + 1)[k] == e;
                if k < i {
                    assert(fv.take(i as int)[k] == e);
                    assert(before.contains(e));
                }
            }
        }
        i = i + 1;
    }
    proof {
        assert(fv.take(n as int) =~= fv);
    }
    sorted
}

} // verus!

verus! {

/// Insert one package's entry, keeping the names strictly sorted; a name
/// already present keeps its existing entry, and in that case nothing
/// changes.  Otherwise the result is the old entries with one new entry —
/// carrying exactly `name` and `files` — inserted at its place.
pub fn insert_sorted_entry(set: &mut ResolvedFileSet, name: String, files: Vec<FilePath>)
    requires
        old(set).well_formed(),
        strictly_sorted_paths(files.deep_view()),
    ensures
        final(set).well_formed(),
        forall|n: Seq<char>|
            #[trigger] final(set).spec_names().contains(n) <==> (old(set).spec_names().contains(n)
                || n == name@),
        old(set).spec_names().contains(name@) ==> final(set).entries@ == old(set).entries@,
        !old(set).spec_names().contains(name@) ==> exists|k: int|
            0 <= k <= old(set).entries@.len() && final(set).entries@ == old(set).entries@.insert(
                k,
                #[trigger] final(set).entries@[k],
            ) && final(set).entries@[k].scoped_package_name@ == name@
            && final(set).entries@[k].included_files == files,
{
    let n = set.entries.len();
    let mut i: usize = 0;
    while i < n
        invariant
            set.well_formed(),
            set.entries@ == old(set).entries@,
            n == set.entries@.len(),
            i <= n,
            strictly_sorted_paths(files.deep_view()),
            forall|j: int| 0 <= j < i ==> crate::order::str_lt(set.spec_names()[j], name@),
        decreases n - i,
    {
        proof {
            assert(set.spec_names()[i as int] == set.entries@[i as int].scoped_package_name@);
        }
        match crate::order::compare_strings(&set.entries[i].scoped_package_name, &name) {
            crate::order::Cmp::Lt => {},
            crate::order::Cmp::Eq => {
                proof {
                    assert(set.spec_names().contains(name@)) by {
                        assert(set.spec_names()[i as int] == name@);
                    }
                }
                return;
            },
            crate::order::Cmp::Gt => {
                let ghost old_names = set.spec_names();
                let ghost old_entries = set.entries@;
                let entry = PackageFiles { scoped_package_name: name, included_files: files };
                let ghost nv = entry.scoped_package_name@;
                set.entries.insert(i, entry);
                proof {
                    assert(set.spec_names() =~= old_names.insert(i as int, nv)) by {
                        old_names.insert_ensures(i as int, nv);
                        assert(forall|k: int|
                            0 <= k < set.entries@.len() ==> set.spec_names()[k] == set.entries@[
                                k
                            ].scoped_package_name@);
                    }
                    old_names.insert_ensures(i as int, nv);
                    old_entries.insert_ensures(i as int, entry);
                    assert forall|p: int, q: int|
                        0 <= p < q < set.spec_names().len() implies crate::order::str_lt(
                        set.spec_names()[p],
                        set.spec_names()[q],
                    ) by {
                        let sn = set.spec_names();
                        if q < i {
                        } else if p < i && q == i {
                            assert(sn[p] == old_names[p]);
                            assert(sn[q] == nv);
                        } else if p < i && q > i {
                            assert(sn[p] == old_names[p]);
                            assert(sn[q] == old_names[q - 1]);
                        } else if p == i {
                            assert(sn[p] == nv);
                            assert(sn[q] == old_names[q - 1]);
                            if q - 1 > i {
                                crate::order::lemma_str_lt_transitive(
                                    nv,
                                    old_names[i as int],
                                    old_names[q - 1],
                                );
                            }
                        } else {
                            assert(sn[p] == old_names[p - 1]);
                            assert(sn[q] == old_names[q - 1]);
                        }
                    }
                    assert forall|k: int|
                        0 <= k < set.entries@.len() implies strictly_sorted_paths(
                        #[trigger] set.entries@[k].included_files.deep_view(),
                    ) by {
                        if k < i {
                            assert(set.entries@[k] == old_entries[k]);
                            assert(strictly_sorted_paths(
                                old(set).entries@[k].included_files.deep_view(),
                            ));
                        } else if k > i {
                            assert(set.entries@[k] == old_entries[k - 1]);
                            assert(strictly_sorted_paths(
                                old(set).entries@[k - 1].included_files.deep_view(),
                            ));
                        } else {
                            assert(set.entries@[k] == entry);
                            assert(entry.included_files == files);
                            assert(strictly_sorted_paths(files.deep_view()));
                        }
                    }
                    assert forall|nn: Seq<char>| #[trigger] set.spec_names().contains(nn) implies (
                    old_names.contains(nn) || nn == nv) by {
                        let sn = set.spec_names();
                        let k = choose|k: int| 0 <= k < sn.len() && sn[k] == nn;
                        if k < i {
                            assert(old_names[k] == nn);
                        } else if k > i {
                            assert(old_names[k - 1] == nn);
                        }
                    }
                    assert forall|nn: Seq<char>| old_names.contains(nn) || nn == nv implies
                        #[trigger] set.spec_names().contains(nn) by {
                        let sn = set.spec_names();
                        if nn == nv {
                            assert(sn[i as int] == nn);
                        } else {
                            let k = choose|k: int|
                                0 <= k < old_names.len() && old_names[k] == nn;
                            if k < i {
                                assert(sn[k] == nn);
                            } else {
                                assert(sn[k + 1] == nn);
                            }
                        }
                    }
                    assert(!old_names.contains(nv)) by {
                        assert forall|j: int| 0 <= j < old_names.len() implies old_names[j]
                            != nv by {
                            if j < i {
                                crate::order::lemma_str_lt_asymmetric(old_names[j], nv);
                            } else if j == i {
                                crate::order::lemma_str_lt_asymmetric(nv, old_names[i as int]);
                            } else {
                                crate::order::lemma_str_lt_transitive(
                                    nv,
                                    old_names[i as int],
                                    old_names[j],
                                );
                                crate::order::lemma_str_lt_asymmetric(nv, old_names[j]);
                            }
                        }
                    }
                    assert(set.entries@[i as int] == entry);
                    assert(set.entries@ == old_entries.insert(i as int, set.entries@[i as int]));
                }
                return;
            },
        }
        i = i + 1;
    }
    let ghost old_names = set.spec_names();
    let ghost old_entries = set.entries@;
    let entry = PackageFiles { scoped_package_name: name, included_files: files };
    let ghost nv = entry.scoped_package_name@;
    set.entries.push(entry);
    proof {
        assert(set.spec_names() =~= old_names.push(nv)) by {
            assert(forall|k: int|
                0 <= k < set.entries@.len() ==> set.spec_names()[k] == set.entries@[
                    k
                ].scoped_package_name@);
        }
        assert forall|p: int, q: int|
            0 <= p < q < set.spec_names().len() implies crate::order::str_lt(
            set.spec_names()[p],
            set.spec_names()[q],
        ) by {
            let sn = set.spec_names();
            if q == sn.len() - 1 {
                assert(sn[p] == old_names[p]);
                assert(sn[q] == nv);
            }
        }
        assert forall|k: int|
            0 <= k < set.entries@.len() implies strictly_sorted_paths(
            #[trigger] set.entries@[k].included_files.deep_view(),
        ) by {
            if k < set.entries@.len() - 1 {
                assert(set.entries@[k] == old_entries[k]);
                assert(strictly_sorted_paths(old(set).entries@[k].included_files.deep_view()));
            } else {
                assert(set.entries@[k] == entry);
                assert(entry.included_files == files);
                assert(strictly_sorted_paths(files.deep_view()));
            }
        }
        assert forall|nn: Seq<char>| #[trigger] set.spec_names().contains(nn) implies (
        old_names.contains(nn) || nn == nv) by {
            let sn = set.spec_names();
            let k = choose|k: int| 0 <= k < sn.len() && sn[k] == nn;
            if k < sn.len() - 1 {
                assert(old_names[k] == nn);
            }
        }
        assert forall|nn: Seq<char>| old_names.contains(nn) || nn == nv implies #[trigger] set
            .spec_names()
            .contains(nn) by {
            let sn = set.spec_names();
            if nn == nv {
                assert(sn[sn.len() - 1] == nn);
            } else {
                let k = choose|k: int| 0 <= k < old_names.len() && old_names[k] == nn;
                assert(sn[k] == nn);
            }
        }
        assert(!old_names.contains(nv)) by {
            assert forall|j: int| 0 <= j < old_names.len() implies old_names[j] != nv by {
                crate::order::lemma_str_lt_asymmetric(old_names[j], nv);
            }
        }
        let ghost last = old_entries.len() as int;
        assert(set.entries@[last] == entry);
        assert(set.entries@ =~= old_entries.insert(last, set.entries@[last]));
    }
}

} // verus!
