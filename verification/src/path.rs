//! Paths modelled as their `/`-separated segments.
//!
//! A [`FilePath`] keeps the segments of a path as a vector of strings, so the
//! library can reason about parents, prefixes and suffixes exactly.  Splitting
//! a string on `/` and joining the segments back with `/` are inverses, so no
//! information is lost at the boundary to the operating system.

use vstd::prelude::*;

verus! {

/// A path kept as its `/`-separated segments.
///
/// An absolute path such as `/a/b` splits into an empty first segment followed
/// by `a` and `b`; joining the segments back restores the string exactly.
#[derive(Debug, PartialEq, Eq, Hash)]
pub struct FilePath {
    pub segments: Vec<String>,
}

impl View for FilePath {
    type V = Seq<Seq<char>>;

    open spec fn view(&self) -> Seq<Seq<char>> {
        self.segments.deep_view()
    }
}

impl DeepView for FilePath {
    type V = Seq<Seq<char>>;

    open spec fn deep_view(&self) -> Seq<Seq<char>> {
        self.view()
    }
}

impl Clone for FilePath {
    fn clone(&self) -> (r: Self)
        ensures
            r@ == self@,
    {
        let segments = self.segments.clone();
        proof {
            assert forall|i: int| 0 <= i < segments@.len() implies segments@[i]@
                == self.segments@[i]@ by {}
            assert(segments.deep_view() =~= self.segments.deep_view());
        }
        FilePath { segments }
    }
}

/// The segments of `s` split on the separator `sep`.
///
/// The result is never empty: an empty input yields one empty segment, and a
/// trailing separator yields a trailing empty segment.
pub open spec fn split_seq(s: Seq<char>, sep: char) -> Seq<Seq<char>>
    decreases s.len(),
{
    if s.len() == 0 {
        seq![Seq::<char>::empty()]
    } else if s.last() == sep {
        split_seq(s.drop_last(), sep).push(Seq::<char>::empty())
    } else {
        let r = split_seq(s.drop_last(), sep);
        r.update(r.len() - 1, r.last().push(s.last()))
    }
}

/// The segments of `parts` joined with the separator `sep`.
pub open spec fn join_seq(parts: Seq<Seq<char>>, sep: char) -> Seq<char>
    decreases parts.len(),
{
    if parts.len() == 0 {
        Seq::empty()
    } else if parts.len() == 1 {
        parts[0]
    } else {
        join_seq(parts.drop_last(), sep) + seq![sep] + parts.last()
    }
}

pub proof fn lemma_split_seq_nonempty(s: Seq<char>, sep: char)
    ensures
        split_seq(s, sep).len() >= 1,
    decreases s.len(),
{
    if s.len() > 0 {
        lemma_split_seq_nonempty(s.drop_last(), sep);
    }
}

/// Split `s` on the character `sep`.
pub fn split_string(s: &str, sep: char) -> (r: Vec<String>)
    ensures
        r.deep_view() == split_seq(s@, sep),
{
    let n = s.unicode_len();
    let mut segs: Vec<String> = Vec::new();
    let mut start: usize = 0;
    let mut i: usize = 0;
    proof {
        assert(s@.take(0) =~= Seq::<char>::empty());
        assert(segs.deep_view().push(s@.subrange(0, 0)) =~~= split_seq(s@.take(0), sep));
    }
    while i < n
        invariant
            n == s@.len(),
            start <= i <= n,
            forall|j: int| start <= j < i ==> s@[j] != sep,
            segs.deep_view().push(s@.subrange(start as int, i as int)) == split_seq(
                s@.take(i as int),
                sep,
            ),
        decreases n - i,
    {
        let c = s.get_char(i);
        proof {
            assert(s@.take(i as int + 1).drop_last() =~= s@.take(i as int));
            assert(s@.take(i as int + 1).last() == s@[i as int]);
        }
        if c == sep {
            let seg = s.substring_char(start, i).to_owned();
            let ghost old_dv = segs.deep_view();
            segs.push(seg);
            proof {
                assert(segs.deep_view() =~= old_dv.push(seg@));
                assert(segs.deep_view().push(s@.subrange(i as int + 1, i as int + 1))
                    =~~= split_seq(s@.take(i as int + 1), sep));
            }
            start = i + 1;
        } else {
            proof {
                let r = split_seq(s@.take(i as int), sep);
                lemma_split_seq_nonempty(s@.take(i as int), sep);
                assert(r.last() == s@.subrange(start as int, i as int));
                assert(s@.subrange(start as int, i as int).push(s@[i as int]) =~= s@.subrange(
                    start as int,
                    i as int + 1,
                ));
                assert(r.update(r.len() - 1, r.last().push(s@[i as int]))
                    =~~= segs.deep_view().push(s@.subrange(start as int, i as int + 1)));
            }
        }
        i = i + 1;
    }
    let seg = s.substring_char(start, n).to_owned();
    let ghost old_dv = segs.deep_view();
    segs.push(seg);
    proof {
        assert(s@.take(n as int) =~= s@);
        assert(segs.deep_view() =~= old_dv.push(seg@));
        assert(segs.deep_view() =~= split_seq(s@, sep));
    }
    segs
}

/// Join `parts` with the `/` separator.
pub fn join_strings(parts: &Vec<String>) -> (r: String)
    ensures
        r@ == join_seq(parts.deep_view(), '/'),
{
    let mut out = String::new();
    let mut k: usize = 0;
    proof {
        reveal_strlit("/");
    }
    while k < parts.len()
        invariant
            k <= parts.len(),
            out@ == join_seq(parts.deep_view().take(k as int), '/'),
        decreases parts.len() - k,
    {
        if k > 0 {
            out = out.concat("/");
            proof {
                reveal_strlit("/");
            }
        }
        out.append(parts[k].as_str());
        proof {
            let pv = parts.deep_view();
            assert(pv.take(k as int + 1).drop_last() =~= pv.take(k as int));
            assert(pv.take(k as int + 1).last() == pv[k as int]);
            if k > 0 {
                assert(out@ =~= join_seq(pv.take(k as int + 1), '/'));
            } else {
                assert(out@ =~= pv[0]);
                assert(join_seq(pv.take(1), '/') == pv.take(1)[0]);
            }
        }
        k = k + 1;
    }
    proof {
        assert(parts.deep_view().take(parts.len() as int) =~= parts.deep_view());
    }
    out
}

/// Whether the string contains the glob wildcard character `*`.
pub open spec fn is_glob_seq(s: Seq<char>) -> bool {
    exists|i: int| 0 <= i < s.len() && s[i] == '*'
}

/// Whether `string` is a glob pattern, that is, contains a `*` wildcard.
pub fn is_glob(string: &str) -> (r: bool)
    ensures
        r == is_glob_seq(string@),
{
    let n = string.unicode_len();
    let mut i: usize = 0;
    while i < n
        invariant
            n == string@.len(),
            i <= n,
            forall|j: int| 0 <= j < i ==> string@[j] != '*',
        decreases n - i,
    {
        if string.get_char(i) == '*' {
            return true;
        }
        i = i + 1;
    }
    false
}

} // verus!

verus! {

/// Whether the last segments of `p` are exactly the segments of `suffix`.
pub open spec fn path_ends_with(p: Seq<Seq<char>>, suffix: Seq<Seq<char>>) -> bool {
    &&& p.len() >= suffix.len()
    &&& forall|j: int|
        0 <= j < suffix.len() ==> p[p.len() - suffix.len() + j] == suffix[j]
}

/// Compare two strings for equality of their character sequences.
pub fn strings_equal(a: &String, b: &String) -> (r: bool)
    ensures
        r == (a@ == b@),
{
    a.eq(b)
}

/// Whether the segments of `p` end with the segments of `suffix`.
pub fn file_path_ends_with(p: &FilePath, suffix: &FilePath) -> (r: bool)
    ensures
        r == path_ends_with(p@, suffix@),
{
    let n = p.segments.len();
    let m = suffix.segments.len();
    if m > n {
        return false;
    }
    let r = prefix_ends_with(p, n, suffix);
    proof {
        assert(p@.take(n as int) =~= p@);
    }
    r
}

/// Whether some leading portion of `file`, cut at a segment boundary, ends
/// with the segments of `root` — the sense in which `file` lies inside the
/// monorepo rooted at `root`.
pub open spec fn is_monorepo_file_seq(root: Seq<Seq<char>>, file: Seq<Seq<char>>) -> bool {
    exists|i: int| 0 <= i <= file.len() && path_ends_with(file.take(i), root)
}

/// Whether the leading `i` segments of `p` end with the segments of `suffix`;
/// a helper for scanning a path's prefixes.
fn prefix_ends_with(p: &FilePath, i: usize, suffix: &FilePath) -> (r: bool)
    requires
        suffix@.len() <= i <= p@.len(),
    ensures
        r == path_ends_with(p@.take(i as int), suffix@),
{
    let m = suffix.segments.len();
    proof {
        assert(m == suffix@.len());
        assert(p.segments@.len() == p@.len());
    }
    let mut j: usize = 0;
    let mut matched = true;
    while j < m && matched
        invariant
            m <= i <= p@.len(),
            m == suffix@.len(),
            p.segments@.len() == p@.len(),
            j <= m,
            matched ==> forall|k: int| 0 <= k < j ==> p@[i - m + k] == suffix@[k],
            !matched ==> !path_ends_with(p@.take(i as int), suffix@),
        decreases m - j,
    {
        proof {
            assert(p@[i - m + j] == p.segments@[i - m + j]@);
            assert(suffix@[j as int] == suffix.segments@[j as int]@);
        }
        if !strings_equal(&p.segments[i - m + j], &suffix.segments[j]) {
            matched = false;
            proof {
                assert(p@.take(i as int)[i - m + j] == p@[i - m + j]);
                assert(!path_ends_with(p@.take(i as int), suffix@));
            }
        }
        j = j + 1;
    }
    if matched {
        proof {
            assert(p@.take(i as int).len() == i);
            assert forall|k: int| 0 <= k < m implies p@.take(i as int)[i - m + k]
                == suffix@[k] by {
                assert(p@.take(i as int)[i - m + k] == p@[i - m + k]);
            }
            assert(path_ends_with(p@.take(i as int), suffix@));
        }
        true
    } else {
        false
    }
}

/// Whether `file` lies inside the monorepo rooted at `monorepo_root`.
pub fn is_monorepo_file(monorepo_root: &FilePath, file: &FilePath) -> (r: bool)
    ensures
        r == is_monorepo_file_seq(monorepo_root@, file@),
{
    let n = file.segments.len();
    let m = monorepo_root.segments.len();
    proof {
        assert(n == file@.len());
        assert(m == monorepo_root@.len());
    }
    if m > n {
        proof {
            assert forall|i: int| 0 <= i <= file@.len() implies !path_ends_with(
                file@.take(i),
                monorepo_root@,
            ) by {
                assert(file@.take(i).len() <= file@.len() < monorepo_root@.len());
            }
        }
        return false;
    }
    let mut i: usize = n;
    loop
        invariant
            m <= i <= n,
            n == file@.len(),
            m == monorepo_root@.len(),
            forall|k: int| i < k <= n ==> !path_ends_with(file@.take(k), monorepo_root@),
        decreases i,
    {
        if prefix_ends_with(file, i, monorepo_root) {
            return true;
        }
        if i == m {
            proof {
                assert forall|k: int| 0 <= k <= file@.len() implies !path_ends_with(
                    file@.take(k),
                    monorepo_root@,
                ) by {
                    if k < m {
                        assert(file@.take(k).len() < monorepo_root@.len());
                    }
                }
            }
            return false;
        }
        i = i - 1;
    }
}

} // verus!

verus! {

/// Error returned when a path cannot be rebased onto a prefix.
#[derive(Debug)]
pub struct StripPrefixError {
    pub absolute_path: FilePath,
    pub kind: StripPrefixErrorKind,
}

/// The ways rebasing a path onto a prefix can fail.
#[derive(Debug)]
pub enum StripPrefixErrorKind {
    /// An ancestor matched the prefix but could not be stripped.  The segment
    /// model strips exactly the matched ancestor, so this kind is never
    /// produced; it is kept for callers that distinguish the two failures.
    Strip { ancestor: FilePath },
    /// No ancestor of the path ends with the prefix.
    PrefixNotFound { prefix: FilePath },
}

/// The remainder of `p` after its longest leading portion that ends with
/// `prefix`, scanning candidate cut points from `i` downward.
pub open spec fn strip_from(prefix: Seq<Seq<char>>, p: Seq<Seq<char>>, i: nat) -> Option<
    Seq<Seq<char>>,
>
    decreases i,
{
    if path_ends_with(p.take(i as int), prefix) {
        Some(p.skip(i as int))
    } else if i == 0 {
        None
    } else {
        strip_from(prefix, p, (i - 1) as nat)
    }
}

/// The remainder of `p` after its longest leading portion that ends with
/// `prefix`, or `None` when no leading portion does.
pub open spec fn strip_prefix_seq(prefix: Seq<Seq<char>>, p: Seq<Seq<char>>) -> Option<
    Seq<Seq<char>>,
> {
    strip_from(prefix, p, p.len())
}

proof fn lemma_strip_from_step(prefix: Seq<Seq<char>>, p: Seq<Seq<char>>, hi: nat, lo: nat)
    requires
        lo <= hi <= p.len(),
        forall|k: int| lo < k <= hi ==> !path_ends_with(p.take(k), prefix),
    ensures
        strip_from(prefix, p, hi) == strip_from(prefix, p, lo),
    decreases hi - lo,
{
    if hi > lo {
        assert(!path_ends_with(p.take(hi as int), prefix));
        lemma_strip_from_step(prefix, p, (hi - 1) as nat, lo);
    }
}

/// Strip from `absolute_path` its longest leading portion that ends with the
/// segments of `prefix`, leaving the remainder relative to that portion.
///
/// The prefix may itself be a relative path: a monorepo root given as
/// `test-data/repo` matches the ancestor `/home/user/test-data/repo` of an
/// absolute path below it.  Fails when no leading portion of the path ends
/// with the prefix.
pub fn remove_relative_path_prefix_from_absolute_path(
    prefix: &FilePath,
    absolute_path: &FilePath,
) -> (r: Result<FilePath, StripPrefixError>)
    ensures
        match r {
            Ok(rel) => strip_prefix_seq(prefix@, absolute_path@) == Some(rel@),
            Err(e) => {
                &&& strip_prefix_seq(prefix@, absolute_path@) is None
                &&& e.absolute_path@ == absolute_path@
                &&& e.kind matches StripPrefixErrorKind::PrefixNotFound { prefix: pf } && pf@
                    == prefix@
            },
        },
{
    let n = absolute_path.segments.len();
    let m = prefix.segments.len();
    proof {
        assert(n == absolute_path@.len());
        assert(m == prefix@.len());
    }
    if m > n {
        proof {
            assert forall|k: int| 0 < k <= n implies !path_ends_with(
                absolute_path@.take(k),
                prefix@,
            ) by {
                assert(absolute_path@.take(k).len() < prefix@.len());
            }
            lemma_strip_from_step(prefix@, absolute_path@, absolute_path@.len(), 0);
            assert(absolute_path@.take(0).len() < prefix@.len());
        }
        return Err(StripPrefixError {
            absolute_path: absolute_path.clone(),
            kind: StripPrefixErrorKind::PrefixNotFound { prefix: prefix.clone() },
        });
    }
    let mut i: usize = n;
    loop
        invariant
            m <= i <= n,
            n == absolute_path@.len(),
            m == prefix@.len(),
            n == absolute_path.segments@.len(),
            forall|k: int| i < k <= n ==> !path_ends_with(absolute_path@.take(k), prefix@),
        decreases i,
    {
        if prefix_ends_with(absolute_path, i, prefix) {
            let mut rel_segments: Vec<String> = Vec::new();
            let mut k: usize = i;
            proof {
                assert(rel_segments.deep_view() =~= absolute_path@.subrange(i as int, i as int));
            }
            while k < n
                invariant
                    i <= k <= n,
                    n == absolute_path@.len(),
                    n == absolute_path.segments@.len(),
                    rel_segments.deep_view() == absolute_path@.subrange(i as int, k as int),
                decreases n - k,
            {
                let seg = clone_string(&absolute_path.segments[k]);
                let ghost old_dv = rel_segments.deep_view();
                rel_segments.push(seg);
                proof {
                    assert(rel_segments.deep_view() =~= old_dv.push(seg@));
                    assert(absolute_path@[k as int] == absolute_path.segments@[k as int]@);
                    assert(rel_segments.deep_view() =~= absolute_path@.subrange(
                        i as int,
                        k as int + 1,
                    ));
                }
                k = k + 1;
            }
            proof {
                lemma_strip_from_step(prefix@, absolute_path@, absolute_path@.len(), i as nat);
                assert(absolute_path@.subrange(i as int, n as int) =~= absolute_path@.skip(
                    i as int,
                ));
            }
            return Ok(FilePath { segments: rel_segments });
        }
        if i == m {
            proof {
                assert forall|k: int| 0 < k <= n implies !path_ends_with(
                    absolute_path@.take(k),
                    prefix@,
                ) by {
                    if k < m {
                        assert(absolute_path@.take(k).len() < prefix@.len());
                    }
                }
                lemma_strip_from_step(prefix@, absolute_path@, absolute_path@.len(), 0);
                assert(absolute_path@.take(0).len() == 0);
                assert(m > 0);
                assert(!path_ends_with(absolute_path@.take(0), prefix@));
            }
            return Err(StripPrefixError {
                absolute_path: absolute_path.clone(),
                kind: StripPrefixErrorKind::PrefixNotFound { prefix: prefix.clone() },
            });
        }
        i = i - 1;
    }
}

/// Copy a string, preserving its characters.
pub fn clone_string(s: &String) -> (r: String)
    ensures
        r@ == s@,
{
    s.as_str().to_owned()
}

} // verus!

verus! {

/// The characters following the last `*` of `s`; the whole of `s` when it has
/// no `*`.
pub open spec fn after_last_star(s: Seq<char>) -> Seq<char>
    decreases s.len(),
{
    if s.len() == 0 {
        Seq::empty()
    } else if s.last() == '*' {
        Seq::empty()
    } else {
        after_last_star(s.drop_last()).push(s.last())
    }
}

/// The literal suffix a glob pattern pins down: the characters after its last
/// `*`, or nothing when the pattern ends with the wildcard itself.
pub open spec fn glob_file_extension_seq(s: Seq<char>) -> Option<Seq<char>> {
    if s.len() > 0 && s.last() == '*' {
        None
    } else {
        Some(after_last_star(s))
    }
}

proof fn lemma_after_last_star_no_star(s: Seq<char>)
    requires
        forall|j: int| 0 <= j < s.len() ==> s[j] != '*',
    ensures
        after_last_star(s) == s,
    decreases s.len(),
{
    if s.len() > 0 {
        lemma_after_last_star_no_star(s.drop_last());
        assert(after_last_star(s.drop_last()).push(s.last()) =~= s);
    }
}

proof fn lemma_after_last_star_at(s: Seq<char>, k: int)
    requires
        0 <= k < s.len(),
        s[k] == '*',
        forall|j: int| k < j < s.len() ==> s[j] != '*',
    ensures
        after_last_star(s) == s.skip(k + 1),
    decreases s.len(),
{
    if k == s.len() - 1 {
        assert(after_last_star(s) =~= s.skip(k + 1));
    } else {
        lemma_after_last_star_at(s.drop_last(), k);
        assert(s.drop_last().skip(k + 1).push(s.last()) =~= s.skip(k + 1));
    }
}

/// The suffix following the last wildcard of `glob`, used to whitelist a file
/// extension; `None` when the pattern ends with the wildcard itself and so
/// pins down no suffix.
pub fn glob_file_extension(glob: &str) -> (r: Option<String>)
    ensures
        match r {
            Some(ext) => glob_file_extension_seq(glob@) == Some(ext@),
            None => glob_file_extension_seq(glob@) is None,
        },
{
    let n = glob.unicode_len();
    if n > 0 && glob.get_char(n - 1) == '*' {
        return None;
    }
    let mut last_star: usize = n;
    let mut i: usize = 0;
    while i < n
        invariant
            n == glob@.len(),
            i <= n,
            last_star == n || (last_star < i && glob@[last_star as int] == '*'),
            last_star == n ==> forall|j: int| 0 <= j < i ==> glob@[j] != '*',
            last_star < n ==> forall|j: int| last_star < j < i ==> glob@[j] != '*',
        decreases n - i,
    {
        if glob.get_char(i) == '*' {
            last_star = i;
        }
        i = i + 1;
    }
    if last_star == n {
        let ext = glob.substring_char(0, n).to_owned();
        proof {
            lemma_after_last_star_no_star(glob@);
            assert(glob@.subrange(0, n as int) =~= glob@);
        }
        Some(ext)
    } else {
        let ext = glob.substring_char(last_star + 1, n).to_owned();
        proof {
            lemma_after_last_star_at(glob@, last_star as int);
            assert(glob@.subrange(last_star as int + 1, n as int) =~= glob@.skip(
                last_star as int + 1,
            ));
        }
        Some(ext)
    }
}

/// Whether some segment of the path is the dependency-vendoring directory
/// `node_modules`.
pub open spec fn is_child_of_node_modules_seq(p: Seq<Seq<char>>) -> bool {
    exists|i: int| 0 <= i < p.len() && p[i] == "node_modules"@
}

/// Whether `file` has a `node_modules` segment, that is, lies under a
/// dependency-vendoring directory.
pub fn is_child_of_node_modules(file: &FilePath) -> (r: bool)
    ensures
        r == is_child_of_node_modules_seq(file@),
{
    let nm: String = String::from_str("node_modules");
    let n = file.segments.len();
    let mut i: usize = 0;
    while i < n
        invariant
            n == file@.len(),
            n == file.segments@.len(),
            i <= n,
            nm@ == "node_modules"@,
            forall|j: int| 0 <= j < i ==> file@[j] != "node_modules"@,
        decreases n - i,
    {
        proof {
            assert(file@[i as int] == file.segments@[i as int]@);
        }
        if strings_equal(&file.segments[i], &nm) {
            return true;
        }
        i = i + 1;
    }
    false
}

/// Parse a `/`-separated path string into its segments.
pub fn parse_path(s: &str) -> (r: FilePath)
    ensures
        r@ == split_seq(s@, '/'),
{
    FilePath { segments: split_string(s, '/') }
}

/// Render the segments of `p` as a `/`-separated path string.
pub fn path_to_string(p: &FilePath) -> (r: String)
    ensures
        r@ == join_seq(p@, '/'),
{
    join_strings(&p.segments)
}

/// Join two paths: the segments of `rel` appended to those of `base`.
pub fn join_paths(base: &FilePath, rel: &FilePath) -> (r: FilePath)
    ensures
        r@ == base@ + rel@,
{
    let mut segments = base.segments.clone();
    proof {
        assert forall|i: int| 0 <= i < segments@.len() implies segments@[i]@
            == base.segments@[i]@ by {}
        assert(segments.deep_view() =~= base@);
    }
    let n = rel.segments.len();
    let mut k: usize = 0;
    while k < n
        invariant
            k <= n,
            n == rel@.len(),
            n == rel.segments@.len(),
            segments.deep_view() == base@ + rel@.take(k as int),
        decreases n - k,
    {
        let seg = clone_string(&rel.segments[k]);
        let ghost old_dv = segments.deep_view();
        segments.push(seg);
        proof {
            assert(segments.deep_view() =~= old_dv.push(seg@));
            assert(rel@[k as int] == rel.segments@[k as int]@);
            assert(segments.deep_view() =~= base@ + rel@.take(k as int + 1));
        }
        k = k + 1;
    }
    proof {
        assert(rel@.take(n as int) =~= rel@);
    }
    FilePath { segments }
}

} // verus!

verus! {

/// Whether the characters of `s` end with the characters of `suffix`.
pub open spec fn str_ends_with(s: Seq<char>, suffix: Seq<char>) -> bool {
    &&& s.len() >= suffix.len()
    &&& forall|j: int|
        0 <= j < suffix.len() ==> s[s.len() - suffix.len() + j] == suffix[j]
}

/// Whether the string `s` ends with the string `suffix`.
pub fn string_ends_with(s: &str, suffix: &str) -> (r: bool)
    ensures
        r == str_ends_with(s@, suffix@),
{
    let n = s.unicode_len();
    let m = suffix.unicode_len();
    if m > n {
        return false;
    }
    let mut j: usize = 0;
    while j < m
        invariant
            m <= n,
            n == s@.len(),
            m == suffix@.len(),
            j <= m,
            forall|k: int| 0 <= k < j ==> s@[n - m + k] == suffix@[k],
        decreases m - j,
    {
        if s.get_char(n - m + j) != suffix.get_char(j) {
            return false;
        }
        j = j + 1;
    }
    true
}

} // verus!

verus! {

/// The path with the last segment removed.
pub fn parent_path(p: &FilePath) -> (r: FilePath)
    requires
        p@.len() >= 1,
    ensures
        r@ == p@.drop_last(),
{
    let mut q = p.clone();
    let ghost before_deep = q.deep_view();
    let ghost before_shallow = q.segments@;
    let _last = q.segments.pop();
    proof {
        assert(before_deep.len() == before_shallow.len());
        assert(q.segments@ =~= before_shallow.subrange(0, before_shallow.len() - 1));
        assert(q@ =~= p@.drop_last()) by {
            assert forall|k: int| 0 <= k < q.segments@.len() implies q@[k] == before_deep[k] by {
                assert(q@[k] == q.segments@[k]@);
                assert(q.segments@[k] == before_shallow[k]);
                assert(before_deep[k] == before_shallow[k]@);
            }
        }
    }
    q
}

/// The path with one more segment appended.
pub fn push_segment(p: &FilePath, segment: String) -> (r: FilePath)
    ensures
        r@ == p@.push(segment@),
{
    let mut q = p.clone();
    let ghost before_deep = q.deep_view();
    let ghost sv = segment@;
    q.segments.push(segment);
    proof {
        assert(q@ =~= before_deep.push(sv)) by {
            assert(forall|k: int| 0 <= k < q.segments@.len() ==> q@[k] == q.segments@[k]@);
        }
    }
    q
}

} // verus!

verus! {

/// A segment that an operating-system directory walk can produce: nonempty,
/// not a relative reference, and free of the separator.
pub open spec fn clean_segment(s: Seq<char>) -> bool {
    &&& s.len() > 0
    &&& s != "."@
    &&& s != ".."@
    &&& !s.contains('/')
}

proof fn lemma_strip_from_some(prefix: Seq<Seq<char>>, p: Seq<Seq<char>>, hi: nat, i: nat)
    requires
        i <= hi <= p.len(),
        path_ends_with(p.take(i as int), prefix),
    ensures
        strip_from(prefix, p, hi) is Some,
    decreases hi - i,
{
    if !path_ends_with(p.take(hi as int), prefix) {
        lemma_strip_from_some(prefix, p, (hi - 1) as nat, i);
    }
}

/// A path can be rebased exactly when it lies inside the monorepo: some
/// leading portion of it ends with the root's segments.
pub proof fn lemma_monorepo_file_strips(root: Seq<Seq<char>>, p: Seq<Seq<char>>)
    ensures
        is_monorepo_file_seq(root, p) <==> strip_prefix_seq(root, p) is Some,
{
    if is_monorepo_file_seq(root, p) {
        let i = choose|i: int| 0 <= i <= p.len() && path_ends_with(p.take(i), root);
        lemma_strip_from_some(root, p, p.len(), i as nat);
    }
    if strip_prefix_seq(root, p) is Some {
        lemma_strip_some_witness(root, p, p.len());
    }
}

proof fn lemma_strip_some_witness(prefix: Seq<Seq<char>>, p: Seq<Seq<char>>, hi: nat)
    requires
        hi <= p.len(),
        strip_from(prefix, p, hi) is Some,
    ensures
        exists|i: int|
            0 <= i <= hi && path_ends_with(#[trigger] p.take(i), prefix) && strip_from(
                prefix,
                p,
                hi,
            ) == Some(p.skip(i)),
    decreases hi,
{
    if path_ends_with(p.take(hi as int), prefix) {
        assert(path_ends_with(p.take(hi as int), prefix) && strip_from(prefix, p, hi) == Some(
            p.skip(hi as int),
        ));
    } else {
        lemma_strip_some_witness(prefix, p, (hi - 1) as nat);
    }
}

/// Root containment of a rebased path: when every segment of `p` past the
/// root's is clean, so is every segment of the remainder after rebasing; and
/// when `p` does not itself end with the root — it is a file strictly below
/// it — the remainder is nonempty.
pub proof fn lemma_strip_prefix_containment(root: Seq<Seq<char>>, p: Seq<Seq<char>>, rel: Seq<
    Seq<char>,
>)
    requires
        strip_prefix_seq(root, p) == Some(rel),
        forall|j: int| root.len() <= j < p.len() ==> clean_segment(#[trigger] p[j]),
    ensures
        forall|j: int| 0 <= j < rel.len() ==> clean_segment(#[trigger] rel[j]),
        !path_ends_with(p, root) ==> rel.len() >= 1,
{
    lemma_strip_some_witness(root, p, p.len());
    let i = choose|i: int|
        0 <= i <= p.len() && path_ends_with(#[trigger] p.take(i), root) && strip_prefix_seq(
            root,
            p,
        ) == Some(p.skip(i));
    assert(p.take(i).len() == i);
    assert(i >= root.len());
    assert(rel =~= p.skip(i));
    assert forall|j: int| 0 <= j < rel.len() implies clean_segment(#[trigger] rel[j]) by {
        assert(rel[j] == p[i + j]);
        assert(i + j >= root.len());
    }
    if !path_ends_with(p, root) {
        assert(i < p.len()) by {
            if i == p.len() {
                assert(p.take(i) =~= p);
            }
        }
    }
}

} // verus!

verus! {

impl StripPrefixError {
    /// The rendering of the error: it names the prefix looked for and the
    /// offending path.
    pub open spec fn spec_message(&self) -> Seq<char> {
        match self.kind {
            StripPrefixErrorKind::Strip { ancestor } => "cannot strip prefix "@ + join_seq(
                ancestor@,
                '/',
            ) + " from path "@ + join_seq(self.absolute_path@, '/'),
            StripPrefixErrorKind::PrefixNotFound { prefix } => "never encountered prefix "@
                + join_seq(prefix@, '/') + " in path "@ + join_seq(self.absolute_path@, '/'),
        }
    }

    /// Render the error, naming the prefix looked for and the offending path.
    pub fn message(&self) -> (r: String)
        ensures
            r@ == self.spec_message(),
    {
        match &self.kind {
            StripPrefixErrorKind::Strip { ancestor } => {
                let mut s = String::from_str("cannot strip prefix ");
                s.append(path_to_string(ancestor).as_str());
                s.append(" from path ");
                s.append(path_to_string(&self.absolute_path).as_str());
                s
            },
            StripPrefixErrorKind::PrefixNotFound { prefix } => {
                let mut s = String::from_str("never encountered prefix ");
                s.append(path_to_string(prefix).as_str());
                s.append(" in path ");
                s.append(path_to_string(&self.absolute_path).as_str());
                s
            },
        }
    }
}

} // verus!

verus! {

proof fn lemma_split_no_sep(s: Seq<char>, sep: char)
    requires
        forall|i: int| 0 <= i < s.len() ==> s[i] != sep,
    ensures
        split_seq(s, sep) == seq![s],
    decreases s.len(),
{
    if s.len() == 0 {
        assert(split_seq(s, sep) =~~= seq![s]);
    } else {
        lemma_split_no_sep(s.drop_last(), sep);
        assert(split_seq(s, sep) =~~= seq![s]) by {
            assert(split_seq(s, sep) == seq![s.drop_last()].update(0, s.drop_last().push(s.last())));
            assert(s.drop_last().push(s.last()) =~= s);
        }
    }
}

proof fn lemma_split_around_sep(a: Seq<char>, b: Seq<char>, sep: char)
    requires
        forall|i: int| 0 <= i < b.len() ==> b[i] != sep,
    ensures
        split_seq(a + seq![sep] + b, sep) == split_seq(a, sep).push(b),
    decreases b.len(),
{
    let s = a + seq![sep] + b;
    if b.len() == 0 {
        assert(s.len() > 0 && s.last() == sep);
        assert(s.drop_last() =~= a);
        assert(split_seq(s, sep) =~~= split_seq(a, sep).push(b)) by {
            assert(b =~= Seq::<char>::empty());
        }
    } else {
        lemma_split_around_sep(a, b.drop_last(), sep);
        assert(s.len() > 0 && s.last() == b.last() && s.last() != sep);
        assert(s.drop_last() =~= a + seq![sep] + b.drop_last());
        let r = split_seq(s.drop_last(), sep);
        assert(r == split_seq(a, sep).push(b.drop_last()));
        lemma_split_seq_nonempty(a, sep);
        assert(r.last() == b.drop_last());
        assert(split_seq(s, sep) =~~= split_seq(a, sep).push(b)) by {
            assert(split_seq(s, sep) == r.update(r.len() - 1, r.last().push(s.last())));
            assert(b.drop_last().push(b.last()) =~= b);
        }
    }
}

/// Splitting and joining are inverses: joining nonempty segments that hold no
/// separator and splitting the result restores the segments exactly, so no
/// information is lost when a path crosses the boundary to the operating
/// system as a string.
pub proof fn lemma_split_join_roundtrip(p: Seq<Seq<char>>)
    requires
        p.len() >= 1,
        forall|i: int| 0 <= i < p.len() ==> !(#[trigger] p[i]).contains('/'),
    ensures
        split_seq(join_seq(p, '/'), '/') == p,
    decreases p.len(),
{
    if p.len() == 1 {
        assert(forall|i: int| 0 <= i < p[0].len() ==> p[0][i] != '/');
        lemma_split_no_sep(p[0], '/');
        assert(split_seq(join_seq(p, '/'), '/') =~~= p) by {
            assert(join_seq(p, '/') == p[0]);
        }
    } else {
        lemma_split_join_roundtrip(p.drop_last());
        assert(forall|i: int| 0 <= i < p.last().len() ==> p.last()[i] != '/') by {
            assert(!p[p.len() - 1].contains('/'));
        }
        lemma_split_around_sep(join_seq(p.drop_last(), '/'), p.last(), '/');
        assert(split_seq(join_seq(p, '/'), '/') =~~= p) by {
            assert(join_seq(p, '/') == join_seq(p.drop_last(), '/') + seq!['/'] + p.last());
            assert(p.drop_last().push(p.last()) =~= p);
        }
    }
}

} // verus!

verus! {

/// Whether every path of `files` consists of clean segments only, so that no
/// path can name the walk's relative references or smuggle a separator.
pub open spec fn all_paths_clean(files: Seq<Seq<Seq<char>>>) -> bool {
    forall|k: int, j: int|
        0 <= k < files.len() && 0 <= j < files[k].len() ==> clean_segment(#[trigger] files[k][j])
}

} // verus!
