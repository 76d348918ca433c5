//! Lexicographic order on strings and on segment paths.
//!
//! File lists and package identities are kept strictly sorted, so the library
//! defines its own character-wise order on strings and lifts it segment-wise
//! to paths, together with the facts — asymmetry, connectedness and
//! transitivity — that sorted insertion rests on.

use vstd::prelude::*;
use vstd::utf8::char_u32_cast;

verus! {

proof fn lemma_char_code_injective(a: char, b: char)
    requires
        a as u32 == b as u32,
    ensures
        a == b,
{
    char_u32_cast(a, a as u32);
    char_u32_cast(b, b as u32);
}

/// The outcome of comparing two values.
pub enum Cmp {
    Lt,
    Eq,
    Gt,
}

/// Character-wise lexicographic order on strings: `a` comes strictly before
/// `b` when `a` is a proper prefix of `b` or its first differing character is
/// smaller.
pub open spec fn str_lt(a: Seq<char>, b: Seq<char>) -> bool
    decreases a.len(),
{
    if b.len() == 0 {
        false
    } else if a.len() == 0 {
        true
    } else if (a[0] as u32) < (b[0] as u32) {
        true
    } else if (a[0] as u32) > (b[0] as u32) {
        false
    } else {
        str_lt(a.skip(1), b.skip(1))
    }
}

proof fn lemma_str_lt_common_prefix(a: Seq<char>, b: Seq<char>, i: int)
    requires
        0 <= i <= a.len(),
        i <= b.len(),
        forall|j: int| 0 <= j < i ==> a[j] == b[j],
    ensures
        str_lt(a, b) == str_lt(a.skip(i), b.skip(i)),
    decreases i,
{
    if i > 0 {
        assert(a[0] == b[0]);
        assert(str_lt(a, b) == str_lt(a.skip(1), b.skip(1)));
        assert(forall|j: int| 0 <= j < i - 1 ==> a.skip(1)[j] == b.skip(1)[j]);
        lemma_str_lt_common_prefix(a.skip(1), b.skip(1), i - 1);
        assert(a.skip(1).skip(i - 1) =~= a.skip(i));
        assert(b.skip(1).skip(i - 1) =~= b.skip(i));
    } else {
        assert(a.skip(0) =~= a);
        assert(b.skip(0) =~= b);
    }
}

pub proof fn lemma_str_lt_asymmetric(a: Seq<char>, b: Seq<char>)
    requires
        str_lt(a, b),
    ensures
        !str_lt(b, a),
        a != b,
    decreases a.len(),
{
    if a.len() == 0 {
        assert(b.len() > 0);
    } else {
        if (a[0] as u32) == (b[0] as u32) {
            lemma_str_lt_asymmetric(a.skip(1), b.skip(1));
            assert(a != b) by {
                if a == b {
                    assert(a.skip(1) =~= b.skip(1));
                }
            }
        }
    }
}

pub proof fn lemma_str_lt_connected(a: Seq<char>, b: Seq<char>)
    requires
        !str_lt(a, b),
        !str_lt(b, a),
    ensures
        a == b,
    decreases a.len(),
{
    if a.len() == 0 {
        assert(b.len() == 0);
        assert(a =~= b);
    } else {
        assert(b.len() > 0);
        assert(a[0] == b[0]) by {
            lemma_char_code_injective(a[0], b[0]);
        }
        lemma_str_lt_connected(a.skip(1), b.skip(1));
        assert(a =~= b) by {
            assert(forall|j: int|
                1 <= j < a.len() ==> a[j] == a.skip(1)[j - 1] && b[j] == b.skip(1)[j - 1]);
        }
    }
}

pub proof fn lemma_str_lt_transitive(a: Seq<char>, b: Seq<char>, c: Seq<char>)
    requires
        str_lt(a, b),
        str_lt(b, c),
    ensures
        str_lt(a, c),
    decreases a.len(),
{
    assert(b.len() > 0 && c.len() > 0);
    if a.len() > 0 {
        if (a[0] as u32) == (b[0] as u32) && (b[0] as u32) == (c[0] as u32) {
            lemma_str_lt_transitive(a.skip(1), b.skip(1), c.skip(1));
        }
    }
}

/// Compare two strings in the character-wise lexicographic order.
pub fn compare_strings(a: &String, b: &String) -> (r: Cmp)
    ensures
        r is Lt <==> str_lt(a@, b@),
        r is Gt <==> str_lt(b@, a@),
        r is Eq <==> a@ == b@,
{
    let na = a.as_str().unicode_len();
    let nb = b.as_str().unicode_len();
    let mut i: usize = 0;
    loop
        invariant
            na == a@.len(),
            nb == b@.len(),
            i <= na,
            i <= nb,
            forall|j: int| 0 <= j < i ==> a@[j] == b@[j],
        decreases na - i,
    {
        proof {
            lemma_str_lt_common_prefix(a@, b@, i as int);
            lemma_str_lt_common_prefix(b@, a@, i as int);
        }
        if i == na || i == nb {
            if na == nb {
                proof {
                    assert(a@ =~= b@);
                }
                return Cmp::Eq;
            } else if na < nb {
                proof {
                    assert(str_lt(a@.skip(i as int), b@.skip(i as int)));
                    lemma_str_lt_asymmetric(a@, b@);
                }
                return Cmp::Lt;
            } else {
                proof {
                    assert(str_lt(b@.skip(i as int), a@.skip(i as int)));
                    lemma_str_lt_asymmetric(b@, a@);
                }
                return Cmp::Gt;
            }
        }
        let ca = a.as_str().get_char(i);
        let cb = b.as_str().get_char(i);
        if (ca as u32) < (cb as u32) {
            proof {
                assert(str_lt(a@.skip(i as int), b@.skip(i as int)));
                lemma_str_lt_asymmetric(a@, b@);
            }
            return Cmp::Lt;
        } else if (ca as u32) > (cb as u32) {
            proof {
                assert(str_lt(b@.skip(i as int), a@.skip(i as int)));
                lemma_str_lt_asymmetric(b@, a@);
            }
            return Cmp::Gt;
        }
        proof {
            assert(a@[i as int] == b@[i as int]) by {
                lemma_char_code_injective(a@[i as int], b@[i as int]);
            }
        }
        i = i + 1;
    }
}

} // verus!

verus! {

/// Segment-wise lexicographic order on paths: segments are compared in the
/// character-wise string order, and a path comes strictly before any path it
/// is a proper prefix of.
pub open spec fn path_lt(a: Seq<Seq<char>>, b: Seq<Seq<char>>) -> bool
    decreases a.len(),
{
    if b.len() == 0 {
        false
    } else if a.len() == 0 {
        true
    } else if str_lt(a[0], b[0]) {
        true
    } else if a[0] != b[0] {
        false
    } else {
        path_lt(a.skip(1), b.skip(1))
    }
}

proof fn lemma_path_lt_common_prefix(a: Seq<Seq<char>>, b: Seq<Seq<char>>, i: int)
    requires
        0 <= i <= a.len(),
        i <= b.len(),
        forall|j: int| 0 <= j < i ==> a[j] == b[j],
    ensures
        path_lt(a, b) == path_lt(a.skip(i), b.skip(i)),
    decreases i,
{
    if i > 0 {
        assert(a[0] == b[0]);
        if str_lt(a[0], b[0]) {
            lemma_str_lt_asymmetric(a[0], b[0]);
        }
        assert(path_lt(a, b) == path_lt(a.skip(1), b.skip(1)));
        assert(forall|j: int| 0 <= j < i - 1 ==> a.skip(1)[j] == b.skip(1)[j]);
        lemma_path_lt_common_prefix(a.skip(1), b.skip(1), i - 1);
        assert(a.skip(1).skip(i - 1) =~= a.skip(i));
        assert(b.skip(1).skip(i - 1) =~= b.skip(i));
    } else {
        assert(a.skip(0) =~= a);
        assert(b.skip(0) =~= b);
    }
}

pub proof fn lemma_path_lt_asymmetric(a: Seq<Seq<char>>, b: Seq<Seq<char>>)
    requires
        path_lt(a, b),
    ensures
        !path_lt(b, a),
        a != b,
    decreases a.len(),
{
    if a.len() == 0 {
        assert(b.len() > 0);
    } else {
        if str_lt(a[0], b[0]) {
            lemma_str_lt_asymmetric(a[0], b[0]);
        } else {
            assert(a[0] == b[0]);
            lemma_path_lt_asymmetric(a.skip(1), b.skip(1));
            assert(a != b) by {
                if a == b {
                    assert(a.skip(1) =~= b.skip(1));
                }
            }
        }
    }
}

pub proof fn lemma_path_lt_connected(a: Seq<Seq<char>>, b: Seq<Seq<char>>)
    requires
        !path_lt(a, b),
        !path_lt(b, a),
    ensures
        a == b,
    decreases a.len(),
{
    if a.len() == 0 {
        assert(b.len() == 0);
        assert(a =~= b);
    } else {
        assert(b.len() > 0);
        assert(a[0] == b[0]) by {
            if a[0] != b[0] {
                lemma_str_lt_connected(a[0], b[0]);
            }
        }
        lemma_path_lt_connected(a.skip(1), b.skip(1));
        assert(a =~= b) by {
            assert(forall|j: int|
                1 <= j < a.len() ==> a[j] == a.skip(1)[j - 1] && b[j] == b.skip(1)[j - 1]);
        }
    }
}

pub proof fn lemma_path_lt_transitive(a: Seq<Seq<char>>, b: Seq<Seq<char>>, c: Seq<Seq<char>>)
    requires
        path_lt(a, b),
        path_lt(b, c),
    ensures
        path_lt(a, c),
    decreases a.len(),
{
    assert(b.len() > 0 && c.len() > 0);
    if a.len() > 0 {
        if str_lt(a[0], b[0]) {
            if str_lt(b[0], c[0]) {
                lemma_str_lt_transitive(a[0], b[0], c[0]);
            } else {
                assert(b[0] == c[0]);
            }
            lemma_str_lt_asymmetric(a[0], c[0]);
        } else {
            assert(a[0] == b[0]);
            if str_lt(b[0], c[0]) {
                lemma_str_lt_asymmetric(b[0], c[0]);
            } else {
                assert(b[0] == c[0]);
                lemma_path_lt_transitive(a.skip(1), b.skip(1), c.skip(1));
            }
        }
    }
}

} // verus!

verus! {

/// Compare two paths in the segment-wise lexicographic order.
pub fn compare_paths(a: &crate::path::FilePath, b: &crate::path::FilePath) -> (r: Cmp)
    ensures
        r is Lt <==> path_lt(a@, b@),
        r is Gt <==> path_lt(b@, a@),
        r is Eq <==> a@ == b@,
{
    let na = a.segments.len();
    let nb = b.segments.len();
    let mut i: usize = 0;
    loop
        invariant
            na == a@.len(),
            nb == b@.len(),
            na == a.segments@.len(),
            nb == b.segments@.len(),
            i <= na,
            i <= nb,
            forall|j: int| 0 <= j < i ==> a@[j] == b@[j],
        decreases na - i,
    {
        proof {
            lemma_path_lt_common_prefix(a@, b@, i as int);
            lemma_path_lt_common_prefix(b@, a@, i as int);
        }
        if i == na || i == nb {
            if na == nb {
                proof {
                    assert(a@ =~= b@);
                }
                return Cmp::Eq;
            } else if na < nb {
                proof {
                    assert(path_lt(a@.skip(i as int), b@.skip(i as int)));
                    lemma_path_lt_asymmetric(a@, b@);
                }
                return Cmp::Lt;
            } else {
                proof {
                    assert(path_lt(b@.skip(i as int), a@.skip(i as int)));
                    lemma_path_lt_asymmetric(b@, a@);
                }
                return Cmp::Gt;
            }
        }
        proof {
            assert(a@[i as int] == a.segments@[i as int]@);
            assert(b@[i as int] == b.segments@[i as int]@);
        }
        match compare_strings(&a.segments[i], &b.segments[i]) {
            Cmp::Lt => {
                proof {
                    assert(path_lt(a@.skip(i as int), b@.skip(i as int)));
                    lemma_path_lt_asymmetric(a@, b@);
                }
                return Cmp::Lt;
            },
            Cmp::Gt => {
                proof {
                    lemma_str_lt_asymmetric(b@[i as int], a@[i as int]);
                    assert(path_lt(b@.skip(i as int), a@.skip(i as int)));
                    lemma_path_lt_asymmetric(b@, a@);
                }
                return Cmp::Gt;
            },
            Cmp::Eq => {},
        }
        i = i + 1;
    }
}

/// Whether the paths of `s` are in strictly increasing order, so sorted and
/// free of duplicates.
pub open spec fn strictly_sorted_paths(s: Seq<Seq<Seq<char>>>) -> bool {
    forall|i: int, j: int| 0 <= i < j < s.len() ==> path_lt(s[i], s[j])
}

/// Insert `x` into the strictly sorted `v`, keeping it strictly sorted; a path
/// already present is not duplicated.
pub fn insert_sorted_path(v: &mut Vec<crate::path::FilePath>, x: crate::path::FilePath)
    requires
        strictly_sorted_paths(old(v).deep_view()),
    ensures
        strictly_sorted_paths(final(v).deep_view()),
        forall|e: Seq<Seq<char>>|
            #[trigger] final(v).deep_view().contains(e) <==> (old(v).deep_view().contains(e) || e
                == x@),
{
    let n = v.len();
    let mut i: usize = 0;
    proof {
        assert(v.deep_view().len() == n);
    }
    while i < n
        invariant
            strictly_sorted_paths(v.deep_view()),
            v.deep_view() == old(v).deep_view(),
            v@ == old(v)@,
            n == v.deep_view().len(),
            n == v@.len(),
            i <= n,
            forall|j: int| 0 <= j < i ==> path_lt(v.deep_view()[j], x@),
        decreases n - i,
    {
        proof {
            assert(v.deep_view()[i as int] == v@[i as int]@);
        }
        match compare_paths(&v[i], &x) {
            Cmp::Lt => {},
            Cmp::Eq => {
                proof {
                    assert(v.deep_view().contains(x@)) by {
                        assert(v.deep_view()[i as int] == x@);
                    }
                }
                return;
            },
            Cmp::Gt => {
                let ghost old_dv = v.deep_view();
                v.insert(i, x);
                proof {
                    assert(v.deep_view() =~= old_dv.insert(i as int, x@)) by {
                        old_dv.insert_ensures(i as int, x@);
                        assert(forall|k: int|
                            0 <= k < v@.len() ==> v.deep_view()[k] == v@[k]@);
                    }
                    old_dv.insert_ensures(i as int, x@);
                    assert forall|p: int, q: int|
                        0 <= p < q < v.deep_view().len() implies path_lt(
                        v.deep_view()[p],
                        v.deep_view()[q],
                    ) by {
                        let dv = v.deep_view();
                        if q < i {
                        } else if p < i && q == i {
                            assert(dv[p] == old_dv[p]);
                            assert(dv[q] == x@);
                        } else if p < i && q > i {
                            assert(dv[p] == old_dv[p]);
                            assert(dv[q] == old_dv[q - 1]);
                        } else if p == i {
                            assert(dv[p] == x@);
                            assert(dv[q] == old_dv[q - 1]);
                            if q - 1 > i {
                                lemma_path_lt_transitive(x@, old_dv[i as int], old_dv[q - 1]);
                            }
                        } else {
                            assert(dv[p] == old_dv[p - 1]);
                            assert(dv[q] == old_dv[q - 1]);
                        }
                    }
                    assert forall|e: Seq<Seq<char>>| #[trigger] v.deep_view().contains(e) implies (
                    old_dv.contains(e) || e == x@) by {
                        let dv = v.deep_view();
                        let k = choose|k: int| 0 <= k < dv.len() && dv[k] == e;
                        if k < i {
                            assert(old_dv[k] == e);
                        } else if k > i {
                            assert(old_dv[k - 1] == e);
                        }
                    }
                    assert forall|e: Seq<Seq<char>>| old_dv.contains(e) || e == x@ implies
                        #[trigger] v.deep_view().contains(e) by {
                        let dv = v.deep_view();
                        if e == x@ {
                            assert(dv[i as int] == e);
                        } else {
                            let k = choose|k: int| 0 <= k < old_dv.len() && old_dv[k] == e;
                            if k < i {
                                assert(dv[k] == e);
                            } else {
                                assert(dv[k + 1] == e);
                            }
                        }
                    }
                }
                return;
            },
        }
        i = i + 1;
    }
    let ghost old_dv = v.deep_view();
    v.push(x);
    proof {
        assert(v.deep_view() =~= old_dv.push(x@)) by {
            assert(forall|k: int| 0 <= k < v@.len() ==> v.deep_view()[k] == v@[k]@);
        }
        assert forall|p: int, q: int|
            0 <= p < q < v.deep_view().len() implies path_lt(v.deep_view()[p], v.deep_view()[q]) by {
            let dv = v.deep_view();
            if q == dv.len() - 1 {
                assert(dv[p] == old_dv[p]);
                assert(dv[q] == x@);
            }
        }
        assert forall|e: Seq<Seq<char>>| #[trigger] v.deep_view().contains(e) implies (
        old_dv.contains(e) || e == x@) by {
            let dv = v.deep_view();
            let k = choose|k: int| 0 <= k < dv.len() && dv[k] == e;
            if k < dv.len() - 1 {
                assert(old_dv[k] == e);
            }
        }
        assert forall|e: Seq<Seq<char>>| old_dv.contains(e) || e == x@ implies #[trigger] v
            .deep_view()
            .contains(e) by {
            let dv = v.deep_view();
            if e == x@ {
                assert(dv[dv.len() - 1] == e);
            } else {
                let k = choose|k: int| 0 <= k < old_dv.len() && old_dv[k] == e;
                assert(dv[k] == e);
            }
        }
    }
}

} // verus!

verus! {

/// Whether the strings of `s` are in strictly increasing order.
pub open spec fn strictly_sorted_strings(s: Seq<Seq<char>>) -> bool {
    forall|i: int, j: int| 0 <= i < j < s.len() ==> str_lt(s[i], s[j])
}

} // verus!

verus! {

/// In a strictly sorted file list — as every list of a well-formed result set
/// is — no path appears twice.
pub proof fn lemma_sorted_paths_unique(s: Seq<Seq<Seq<char>>>)
    requires
        strictly_sorted_paths(s),
    ensures
        forall|i: int, j: int| 0 <= i < s.len() && 0 <= j < s.len() && i != j ==> s[i] != s[j],
{
    assert forall|i: int, j: int|
        0 <= i < s.len() && 0 <= j < s.len() && i != j implies s[i] != s[j] by {
        if i < j {
            lemma_path_lt_asymmetric(s[i], s[j]);
        } else {
            lemma_path_lt_asymmetric(s[j], s[i]);
        }
    }
}

} // verus!
