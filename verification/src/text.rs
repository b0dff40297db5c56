//! Character-level text operations the protocol is built from: splitting on a
//! separator, line splitting, substring search, and string equality, each with
//! an exact specification over character sequences.

use vstd::prelude::*;

verus! {

/// The views of a sequence of owned strings.
pub open spec fn str_views(v: Seq<String>) -> Seq<Seq<char>> {
    v.map_values(|s: String| s@)
}

/// The segments of `s` between occurrences of `sep`, in order.  Splitting
/// always yields one segment more than there are separators; in particular
/// the empty sequence yields one empty segment.
pub open spec fn split_on(s: Seq<char>, sep: char) -> Seq<Seq<char>>
    decreases s.len(),
{
    if s.len() == 0 {
        seq![Seq::<char>::empty()]
    } else if s.last() == sep {
        split_on(s.drop_last(), sep).push(Seq::<char>::empty())
    } else {
        let r = split_on(s.drop_last(), sep);
        r.drop_last().push(r.last().push(s.last()))
    }
}

pub proof fn lemma_split_on_nonempty(s: Seq<char>, sep: char)
    ensures
        split_on(s, sep).len() >= 1,
    decreases s.len(),
{
    if s.len() != 0 {
        lemma_split_on_nonempty(s.drop_last(), sep);
    }
}

/// The lines of `s`: the segments between `'\n'` characters, with a final
/// empty segment dropped, so that a newline-terminated text yields exactly
/// its terminated lines and the empty text yields no lines.
pub open spec fn spec_lines(s: Seq<char>) -> Seq<Seq<char>> {
    if s.len() == 0 {
        Seq::empty()
    } else if s.last() == '\n' {
        split_on(s, '\n').drop_last()
    } else {
        split_on(s, '\n')
    }
}

proof fn lemma_str_views_push(v: Seq<String>, x: String)
    ensures
        str_views(v.push(x)) == str_views(v).push(x@),
{
    assert(str_views(v.push(x)) =~= str_views(v).push(x@));
}

/// Split `s` at every occurrence of `sep`.
pub fn split_on_char(s: &str, sep: char) -> (r: Vec<String>)
    ensures
        str_views(r@) == split_on(s@, sep),
{
    let n = s.unicode_len();
    let mut segs: Vec<String> = Vec::new();
    let mut start: usize = 0;
    let mut i: usize = 0;
    proof {
        assert(s@.take(0) =~= Seq::<char>::empty());
        assert(split_on(s@.take(0), sep) =~~= str_views(segs@).push(s@.subrange(0, 0)));
    }
    while i < n
        invariant
            start <= i <= n,
            n == s@.len(),
            split_on(s@.take(i as int), sep) == str_views(segs@).push(
                s@.subrange(start as int, i as int),
            ),
        decreases n - i,
    {
        let c = s.get_char(i);
        proof {
            assert(s@.take(i as int + 1) =~= s@.take(i as int).push(s@[i as int]));
            assert(s@.take(i as int + 1).drop_last() =~= s@.take(i as int));
            assert(s@.take(i as int + 1).last() == s@[i as int]);
            assert(str_views(segs@).push(s@.subrange(start as int, i as int)).drop_last()
                =~= str_views(segs@));
            assert(str_views(segs@).push(s@.subrange(start as int, i as int)).last()
                == s@.subrange(start as int, i as int));
        }
        if c == sep {
            let seg = s.substring_char(start, i);
            let owned: String = seg.to_owned();
            proof {
                lemma_str_views_push(segs@, owned);
            }
            segs.push(owned);
            start = i + 1;
            proof {
                assert(s@.subrange(start as int, start as int) =~= Seq::<char>::empty());
            }
        } else {
            proof {
                assert(s@.subrange(start as int, i + 1 as int) =~= s@.subrange(
                    start as int,
                    i as int,
                ).push(s@[i as int]));
            }
        }
        i = i + 1;
    }
    proof {
        assert(s@.take(n as int) =~= s@);
    }
    let seg = s.substring_char(start, n);
    let owned: String = seg.to_owned();
    proof {
        lemma_str_views_push(segs@, owned);
    }
    segs.push(owned);
    segs
}

/// Split `s` into its lines, per `spec_lines`.
pub fn split_lines(s: &str) -> (r: Vec<String>)
    ensures
        str_views(r@) == spec_lines(s@),
{
    let n = s.unicode_len();
    if n == 0 {
        let r: Vec<String> = Vec::new();
        proof {
            assert(str_views(r@) =~= spec_lines(s@));
        }
        return r;
    }
    let mut segs = split_on_char(s, '\n');
    if s.get_char(n - 1) == '\n' {
        proof {
            lemma_split_on_nonempty(s@, '\n');
            assert(s@.last() == '\n');
        }
        segs.pop();
        proof {
            assert(str_views(segs@) =~= split_on(s@, '\n').drop_last());
        }
    }
    segs
}

/// The nonempty segments, in order.
pub open spec fn nonempty_segments(segs: Seq<Seq<char>>) -> Seq<Seq<char>>
    decreases segs.len(),
{
    if segs.len() == 0 {
        Seq::empty()
    } else {
        let prev = nonempty_segments(segs.drop_last());
        if segs.last().len() > 0 {
            prev.push(segs.last())
        } else {
            prev
        }
    }
}

/// `p` occurs in `t` starting at position `k`.
pub open spec fn has_substr_at(t: Seq<char>, p: Seq<char>, k: int) -> bool {
    0 <= k && k + p.len() <= t.len() && t.subrange(k, k + p.len()) == p
}

/// `p` occurs somewhere in `t`.
pub open spec fn has_substr(t: Seq<char>, p: Seq<char>) -> bool {
    exists|k: int| has_substr_at(t, p, k)
}

/// Substring search by direct comparison at every position.
pub fn contains_substr(t: &str, p: &str) -> (r: bool)
    ensures
        r == has_substr(t@, p@),
{
    let n = t.unicode_len();
    let m = p.unicode_len();
    if m == 0 {
        proof {
            assert(t@.subrange(0, 0) =~= p@);
            assert(has_substr_at(t@, p@, 0));
        }
        return true;
    }
    if m > n {
        proof {
            assert(forall|k: int| !has_substr_at(t@, p@, k));
        }
        return false;
    }
    let mut k: usize = 0;
    while k <= n - m
        invariant
            1 <= m <= n,
            n == t@.len(),
            m == p@.len(),
            k <= n - m + 1,
            forall|kk: int| 0 <= kk < k ==> !has_substr_at(t@, p@, kk),
        decreases n - m - k + 1,
    {
        let mut j: usize = 0;
        let mut mismatch = false;
        while j < m
            invariant
                k + m <= n,
                n == t@.len(),
                m == p@.len(),
                j <= m,
                !mismatch ==> forall|jj: int| 0 <= jj < j ==> t@[k + jj] == p@[jj],
                mismatch ==> !has_substr_at(t@, p@, k as int),
            decreases m - j,
        {
            if !mismatch {
                let tc = t.get_char(k + j);
                let pc = p.get_char(j);
                if tc != pc {
                    proof {
                        if has_substr_at(t@, p@, k as int) {
                            assert(t@.subrange(k as int, k + m as int)[j as int] == p@[j as int]);
                        }
                    }
                    mismatch = true;
                }
            }
            j = j + 1;
        }
        if !mismatch {
            proof {
                assert(t@.subrange(k as int, k + m as int) =~= p@);
                assert(has_substr_at(t@, p@, k as int));
            }
            return true;
        }
        k = k + 1;
    }
    proof {
        assert forall|kk: int| !has_substr_at(t@, p@, kk) by {
            if kk >= k {
                assert(kk + p@.len() > t@.len());
            }
        }
    }
    false
}

/// A pushed sequence holds exactly the old elements and the new one.
pub proof fn lemma_push_contains<A>(s: Seq<A>, x: A, y: A)
    ensures
        s.push(x).contains(y) == (s.contains(y) || y == x),
{
    if s.push(x).contains(y) {
        let w = choose|w: int| 0 <= w < s.push(x).len() && s.push(x)[w] == y;
        if w < s.len() {
            assert(s[w] == y);
        }
    }
    if s.contains(y) {
        let w = choose|w: int| 0 <= w < s.len() && s[w] == y;
        assert(s.push(x)[w] == y);
    }
    if y == x {
        assert(s.push(x)[s.len() as int] == y);
    }
}

/// `s` begins with `p`.
pub open spec fn spec_starts_with(s: Seq<char>, p: Seq<char>) -> bool {
    p.len() <= s.len() && s.subrange(0, p.len() as int) == p
}

/// `s` ends with `p`.
pub open spec fn spec_ends_with(s: Seq<char>, p: Seq<char>) -> bool {
    p.len() <= s.len() && s.subrange(s.len() - p.len(), s.len() as int) == p
}

/// Prefix test by direct comparison.
pub fn starts_with_str(s: &str, p: &str) -> (r: bool)
    ensures
        r == spec_starts_with(s@, p@),
{
    let n = s.unicode_len();
    let m = p.unicode_len();
    if m > n {
        return false;
    }
    let mut j: usize = 0;
    while j < m
        invariant
            m <= n,
            n == s@.len(),
            m == p@.len(),
            j <= m,
            forall|jj: int| 0 <= jj < j ==> s@[jj] == p@[jj],
        decreases m - j,
    {
        if s.get_char(j) != p.get_char(j) {
            proof {
                if spec_starts_with(s@, p@) {
                    assert(s@.subrange(0, m as int)[j as int] == p@[j as int]);
                }
            }
            return false;
        }
        j = j + 1;
    }
    proof {
        assert(s@.subrange(0, m as int) =~= p@);
    }
    true
}

/// Suffix test by direct comparison.
pub fn ends_with_str(s: &str, p: &str) -> (r: bool)
    ensures
        r == spec_ends_with(s@, p@),
{
    let n = s.unicode_len();
    let m = p.unicode_len();
    if m > n {
        return false;
    }
    let off = n - m;
    let mut j: usize = 0;
    while j < m
        invariant
            m <= n,
            n == s@.len(),
            m == p@.len(),
            off == n - m,
            j <= m,
            forall|jj: int| 0 <= jj < j ==> s@[off + jj] == p@[jj],
        decreases m - j,
    {
        if s.get_char(off + j) != p.get_char(j) {
            proof {
                if spec_ends_with(s@, p@) {
                    assert(s@.subrange(n - m as int, n as int)[j as int] == p@[j as int]);
                }
            }
            return false;
        }
        j = j + 1;
    }
    proof {
        assert(s@.subrange(n - m as int, n as int) =~= p@);
    }
    true
}

/// Character-for-character string equality.
pub fn str_eq(a: &str, b: &str) -> (r: bool)
    ensures
        r == (a@ == b@),
{
    let n = a.unicode_len();
    if n != b.unicode_len() {
        return false;
    }
    let mut i: usize = 0;
    while i < n
        invariant
            n == a@.len(),
            n == b@.len(),
            i <= n,
            forall|j: int| 0 <= j < i ==> a@[j] == b@[j],
        decreases n - i,
    {
        if a.get_char(i) != b.get_char(i) {
            return false;
        }
        i = i + 1;
    }
    proof {
        assert(a@ =~= b@);
    }
    true
}

/// Whether one of the owned strings in `v` reads `name`.
pub fn names_contain(v: &Vec<String>, name: &str) -> (r: bool)
    ensures
        r == str_views(v@).contains(name@),
{
    let mut i: usize = 0;
    while i < v.len()
        invariant
            i <= v@.len(),
            forall|j: int| 0 <= j < i ==> str_views(v@)[j] != name@,
        decreases v@.len() - i,
    {
        if str_eq(v[i].as_str(), name) {
            proof {
                assert(str_views(v@)[i as int] == name@);
            }
            return true;
        }
        i = i + 1;
    }
    proof {
        assert(forall|j: int| 0 <= j < v@.len() ==> str_views(v@)[j] != name@);
    }
    false
}

} // verus!
