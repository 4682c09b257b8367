//! Executable text scanning, verified against the model in `text`: copying a
//! string into characters, substring search, trimming, and splitting into
//! line and token ranges.

use vstd::prelude::*;
use vstd::string::*;
use crate::chars::{exec_is_space_char, is_space_char};
use crate::text::{
    contains_seq, first_index_of, first_space_at, is_blank, lemma_first_index_of,
    lemma_first_space_at, lemma_tokens_of_head, lines_of, strip_cr, tokens_of,
};

verus! {

/// The characters of `s`, one per Unicode scalar value.
pub fn chars_of(s: &str) -> (v: Vec<char>)
    ensures
        v@ == s@,
{
    let n = s.unicode_len();
    let mut v: Vec<char> = Vec::new();
    let mut i: usize = 0;
    while i < n
        invariant
            i <= n,
            n == s@.len(),
            v@ == s@.take(i as int),
        decreases n - i,
    {
        let c = s.get_char(i);
        v.push(c);
        proof {
            assert(s@.take(i as int).push(s@[i as int]) =~= s@.take(i + 1));
        }
        i = i + 1;
    }
    proof {
        assert(s@.take(n as int) =~= s@);
    }
    v
}

/// A copy of the characters in `[a, b)`.
pub fn copy_range(v: &Vec<char>, a: usize, b: usize) -> (r: Vec<char>)
    requires
        a <= b <= v@.len(),
    ensures
        r@ == v@.subrange(a as int, b as int),
{
    let mut r: Vec<char> = Vec::new();
    let mut i: usize = a;
    while i < b
        invariant
            a <= i <= b <= v@.len(),
            r@ == v@.subrange(a as int, i as int),
        decreases b - i,
    {
        r.push(v[i]);
        proof {
            assert(v@.subrange(a as int, i as int).push(v@[i as int]) =~= v@.subrange(
                a as int,
                i + 1,
            ));
        }
        i = i + 1;
    }
    r
}

/// Every character in `[a, b)` is whitespace.
pub fn range_is_blank(v: &Vec<char>, a: usize, b: usize) -> (r: bool)
    requires
        a <= b <= v@.len(),
    ensures
        r == is_blank(v@.subrange(a as int, b as int)),
{
    let ghost part = v@.subrange(a as int, b as int);
    let mut i: usize = a;
    while i < b
        invariant
            a <= i <= b <= v@.len(),
            part == v@.subrange(a as int, b as int),
            forall|j: int| 0 <= j < i - a ==> is_space_char(part[j]),
        decreases b - i,
    {
        if !exec_is_space_char(v[i]) {
            proof {
                assert(part[i - a] == v@[i as int]);
            }
            return false;
        }
        i = i + 1;
    }
    true
}

/// The whole string is whitespace (or empty).
pub fn str_is_blank(s: &str) -> (r: bool)
    ensures
        r == is_blank(s@),
{
    let v = chars_of(s);
    let n = v.len();
    let r = range_is_blank(&v, 0, n);
    proof {
        assert(v@.subrange(0, n as int) =~= s@);
    }
    r
}

fn match_at(hay: &Vec<char>, needle: &Vec<char>, i: usize) -> (r: bool)
    requires
        i + needle@.len() <= hay@.len(),
    ensures
        r == (hay@.subrange(i as int, i + needle@.len()) == needle@),
{
    let ghost part = hay@.subrange(i as int, i + needle@.len());
    let hn = hay.len();
    let mut j: usize = 0;
    while j < needle.len()
        invariant
            j <= needle@.len(),
            i + needle@.len() <= hay@.len(),
            hn == hay@.len(),
            part == hay@.subrange(i as int, i + needle@.len()),
            forall|h: int| 0 <= h < j ==> part[h] == needle@[h],
        decreases needle@.len() - j,
    {
        if hay[i + j] != needle[j] {
            proof {
                assert(part[j as int] == hay@[i + j]);
                assert(part[j as int] != needle@[j as int]);
            }
            return false;
        }
        j = j + 1;
    }
    proof {
        assert(part =~= needle@);
    }
    true
}

/// Substring search: does `needle` occur contiguously in `hay`?
pub fn contains_sub(hay: &Vec<char>, needle: &Vec<char>) -> (r: bool)
    ensures
        r == contains_seq(hay@, needle@),
{
    if needle.len() > hay.len() {
        return false;
    }
    let last = hay.len() - needle.len();
    let mut i: usize = 0;
    while i <= last
        invariant
            i <= last,
            last == hay@.len() - needle@.len(),
            needle@.len() <= hay@.len(),
            forall|j: int|
                0 <= j < i ==> #[trigger] hay@.subrange(j, j + needle@.len()) != needle@,
        decreases last - i,
    {
        if match_at(hay, needle, i) {
            return true;
        }
        if i == last {
            return false;
        }
        i = i + 1;
    }
    false
}

/// The lines a range list stands for, each range read back from the text.
pub open spec fn ranges_model(text: Seq<char>, rs: Seq<(usize, usize)>) -> Seq<Seq<char>> {
    rs.map_values(|r: (usize, usize)| text.subrange(r.0 as int, r.1 as int))
}

/// Split the text into the ranges of its lines, as `lines_of` describes.
pub fn line_ranges(v: &Vec<char>) -> (out: Vec<(usize, usize)>)
    ensures
        ranges_model(v@, out@) == lines_of(v@),
        forall|k: int| 0 <= k < out@.len() ==> (#[trigger] out@[k]).0 <= out@[k].1 <= v@.len(),
{
    let n = v.len();
    let mut out: Vec<(usize, usize)> = Vec::new();
    let mut p: usize = 0;
    proof {
        assert(v@.skip(0) =~= v@);
        assert(ranges_model(v@, Seq::empty()) =~= Seq::<Seq<char>>::empty());
        assert(Seq::<Seq<char>>::empty() + lines_of(v@) =~= lines_of(v@));
    }
    while p < n
        invariant
            p <= n,
            n == v@.len(),
            lines_of(v@) == ranges_model(v@, out@) + lines_of(v@.skip(p as int)),
            forall|k: int| 0 <= k < out@.len() ==> (#[trigger] out@[k]).0 <= out@[k].1 <= v@.len(),
        decreases n - p,
    {
        let mut q: usize = p;
        while q < n && v[q] != '\n'
            invariant
                p <= q <= n,
                n == v@.len(),
                forall|j: int| p <= j < q ==> v@[j] != '\n',
            decreases n - q,
        {
            q = q + 1;
        }
        let ghost rest = v@.skip(p as int);
        proof {
            assert(forall|j: int| 0 <= j < rest.len() ==> rest[j] == v@[p + j]);
            lemma_first_index_of(rest, '\n');
            let f = first_index_of(rest, '\n');
            if f < q - p {
                assert(rest[f] == '\n');
                assert(v@[p + f] != '\n');
            }
            if q - p < f {
                assert(q < n);
                assert(rest[q - p] != '\n');
            }
            assert(f == q - p);
        }
        if q < n {
            let e = if q > p && v[q - 1] == '\r' {
                q - 1
            } else {
                q
            };
            proof {
                let line = strip_cr(rest.take(q - p));
                assert(rest.take(q - p) =~= v@.subrange(p as int, q as int));
                if q > p && v@[q - 1] == '\r' {
                    assert(rest.take(q - p).last() == '\r');
                    assert(line =~= v@.subrange(p as int, e as int));
                } else {
                    assert(line =~= v@.subrange(p as int, e as int));
                }
                assert(lines_of(rest) == seq![line] + lines_of(rest.skip(q - p + 1)));
                assert(rest.skip(q - p + 1) =~= v@.skip(q + 1));
                assert(ranges_model(v@, out@.push((p, e))) =~= ranges_model(v@, out@) + seq![
                    v@.subrange(p as int, e as int),
                ]);
                assert((ranges_model(v@, out@) + seq![line]) + lines_of(v@.skip(q + 1))
                    =~= ranges_model(v@, out@) + (seq![line] + lines_of(v@.skip(q + 1))));
            }
            out.push((p, e));
            p = q + 1;
        } else {
            proof {
                assert(first_index_of(rest, '\n') == rest.len());
                assert(lines_of(rest) == seq![rest]);
                assert(rest =~= v@.subrange(p as int, n as int));
                assert(ranges_model(v@, out@.push((p, n))) =~= ranges_model(v@, out@) + seq![
                    v@.subrange(p as int, n as int),
                ]);
                assert(v@.skip(n as int) =~= Seq::<char>::empty());
                assert(lines_of(v@.skip(n as int)) =~= Seq::<Seq<char>>::empty());
                assert((ranges_model(v@, out@) + seq![rest]) + lines_of(v@.skip(n as int))
                    =~= ranges_model(v@, out@) + seq![rest]);
            }
            out.push((p, n));
            p = n;
        }
    }
    proof {
        assert(v@.skip(n as int) =~= Seq::<char>::empty());
        assert(ranges_model(v@, out@) + lines_of(v@.skip(n as int)) =~= ranges_model(v@, out@));
    }
    out
}

/// Split `[lo, hi)` into the ranges of its whitespace-separated tokens, as
/// `tokens_of` describes.
pub fn token_ranges(v: &Vec<char>, lo: usize, hi: usize) -> (out: Vec<(usize, usize)>)
    requires
        lo <= hi <= v@.len(),
    ensures
        ranges_model(v@, out@) == tokens_of(v@.subrange(lo as int, hi as int)),
        forall|k: int|
            0 <= k < out@.len() ==> lo <= (#[trigger] out@[k]).0 < out@[k].1 <= hi,
{
    let ghost line = v@.subrange(lo as int, hi as int);
    let mut out: Vec<(usize, usize)> = Vec::new();
    let mut p: usize = lo;
    proof {
        assert(ranges_model(v@, Seq::empty()) =~= Seq::<Seq<char>>::empty());
        assert(Seq::<Seq<char>>::empty() + tokens_of(line) =~= tokens_of(line));
    }
    while p < hi
        invariant
            lo <= p <= hi <= v@.len(),
            line == v@.subrange(lo as int, hi as int),
            tokens_of(line) == ranges_model(v@, out@) + tokens_of(
                v@.subrange(p as int, hi as int),
            ),
            forall|k: int|
                0 <= k < out@.len() ==> lo <= (#[trigger] out@[k]).0 < out@[k].1 <= hi,
        decreases hi - p,
    {
        let ghost rest = v@.subrange(p as int, hi as int);
        proof {
            assert(forall|j: int| 0 <= j < rest.len() ==> rest[j] == v@[p + j]);
        }
        if exec_is_space_char(v[p]) {
            proof {
                assert(is_space_char(rest[0]));
                assert(tokens_of(rest) == tokens_of(rest.drop_first()));
                assert(rest.drop_first() =~= v@.subrange(p + 1, hi as int));
            }
            p = p + 1;
        } else {
            let mut q: usize = p + 1;
            while q < hi && !exec_is_space_char_at(v, q)
                invariant
                    p < q <= hi <= v@.len(),
                    forall|j: int| p <= j < q ==> !is_space_char(v@[j]),
                decreases hi - q,
            {
                q = q + 1;
            }
            proof {
                lemma_first_space_at(rest);
                let f = first_space_at(rest);
                if f < q - p {
                    assert(is_space_char(rest[f]));
                    assert(!is_space_char(v@[p + f]));
                }
                if q - p < f {
                    assert(q < hi);
                    assert(!is_space_char(rest[q - p]));
                    assert(is_space_char(v@[q as int]));
                }
                assert(f == q - p);
                lemma_tokens_of_head(rest);
                assert(rest.take(q - p) =~= v@.subrange(p as int, q as int));
                assert(rest.skip(q - p) =~= v@.subrange(q as int, hi as int));
                assert(ranges_model(v@, out@.push((p, q))) =~= ranges_model(v@, out@) + seq![
                    v@.subrange(p as int, q as int),
                ]);
                assert((ranges_model(v@, out@) + seq![rest.take(q - p)]) + tokens_of(
                    v@.subrange(q as int, hi as int),
                ) =~= ranges_model(v@, out@) + (seq![rest.take(q - p)] + tokens_of(
                    v@.subrange(q as int, hi as int),
                )));
            }
            out.push((p, q));
            p = q;
        }
    }
    proof {
        assert(v@.subrange(p as int, hi as int) =~= Seq::<char>::empty());
        assert(tokens_of(v@.subrange(p as int, hi as int)) =~= Seq::<Seq<char>>::empty());
        assert(ranges_model(v@, out@) + Seq::<Seq<char>>::empty() =~= ranges_model(v@, out@));
    }
    out
}

fn exec_is_space_char_at(v: &Vec<char>, i: usize) -> (r: bool)
    requires
        i < v@.len(),
    ensures
        r == is_space_char(v@[i as int]),
{
    exec_is_space_char(v[i])
}

/// The bounds of the text once leading and trailing whitespace is dropped:
/// the range read back is exactly `trim_of`.
pub fn trim_bounds(v: &Vec<char>) -> (r: (usize, usize))
    ensures
        r.0 <= r.1 <= v@.len(),
        v@.subrange(r.0 as int, r.1 as int) == crate::text::trim_of(v@),
{
    let n = v.len();
    let mut a: usize = 0;
    while a < n && exec_is_space_char_at(v, a)
        invariant
            a <= n,
            n == v@.len(),
            forall|j: int| 0 <= j < a ==> is_space_char(v@[j]),
        decreases n - a,
    {
        a = a + 1;
    }
    proof {
        crate::text::lemma_trim_lo(v@);
        crate::text::lemma_trim_hi(v@);
    }
    if a == n {
        proof {
            let lo = crate::text::trim_lo(v@);
            let hi = crate::text::trim_hi(v@);
            if lo < n {
                assert(is_space_char(v@[lo]));
            }
            if hi > 0 {
                assert(is_space_char(v@[hi - 1]));
            }
            assert(v@.subrange(0, 0) =~= crate::text::trim_of(v@));
        }
        return (0, 0);
    }
    let mut b: usize = n;
    while b > a && exec_is_space_char_at(v, b - 1)
        invariant
            a <= b <= n,
            n == v@.len(),
            forall|j: int| b <= j < n ==> is_space_char(v@[j]),
        decreases b,
    {
        b = b - 1;
    }
    proof {
        let lo = crate::text::trim_lo(v@);
        let hi = crate::text::trim_hi(v@);
        assert(!is_space_char(v@[a as int]));
        if lo < a {
            assert(is_space_char(v@[lo]));
        }
        if a < lo {
            assert(is_space_char(v@[a as int]));
        }
        assert(lo == a);
        if b == a {
            assert(is_space_char(v@[a as int]));
        }
        assert(b > a);
        assert(!is_space_char(v@[b - 1]));
        if hi < b {
            assert(is_space_char(v@[b - 1]));
        }
        if b < hi {
            assert(is_space_char(v@[hi - 1]));
        }
        assert(hi == b);
    }
    (a, b)
}

/// String equality, decided by the characters.
pub(crate) fn eq_string(a: &String, b: &String) -> (r: bool)
    ensures
        r == (a@ == b@),
{
    a.eq(b)
}

/// A freshly owned copy of the characters `[a, b)` of `s`.
pub fn extract(s: &str, a: usize, b: usize) -> (r: String)
    requires
        a <= b <= s@.len(),
    ensures
        r@ == s@.subrange(a as int, b as int),
{
    s.substring_char(a, b).to_owned()
}

} // verus!
