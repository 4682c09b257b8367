//! Mathematical model of the tool output text: line splitting, whitespace
//! tokenisation, case folding, substring containment, separator joining and
//! first-seen deduplication, with the lemmas the parsers rest on.

use vstd::prelude::*;
use crate::chars::{is_space_char, lower_char};

verus! {

/// Index of the first occurrence of `c` in `s`, or `s.len()` if absent.
pub open spec fn first_index_of(s: Seq<char>, c: char) -> int
    decreases s.len(),
{
    if s.len() == 0 {
        0
    } else if s[0] == c {
        0
    } else {
        1 + first_index_of(s.drop_first(), c)
    }
}

pub proof fn lemma_first_index_of(s: Seq<char>, c: char)
    ensures
        0 <= first_index_of(s, c) <= s.len(),
        forall|j: int| 0 <= j < first_index_of(s, c) ==> s[j] != c,
        first_index_of(s, c) < s.len() ==> s[first_index_of(s, c)] == c,
    decreases s.len(),
{
    if s.len() > 0 && s[0] != c {
        lemma_first_index_of(s.drop_first(), c);
        assert forall|j: int| 0 <= j < first_index_of(s, c) implies s[j] != c by {
            if j > 0 {
                assert(s.drop_first()[j - 1] != c);
            }
        }
    }
}

/// Index of the last occurrence of `c` in `s`, or `-1` if absent.
pub open spec fn last_index_of(s: Seq<char>, c: char) -> int
    decreases s.len(),
{
    if s.len() == 0 {
        -1
    } else if s.last() == c {
        s.len() - 1
    } else {
        last_index_of(s.drop_last(), c)
    }
}

pub proof fn lemma_last_index_of(s: Seq<char>, c: char)
    ensures
        -1 <= last_index_of(s, c) < s.len(),
        forall|j: int| last_index_of(s, c) < j < s.len() ==> s[j] != c,
        last_index_of(s, c) >= 0 ==> s[last_index_of(s, c)] == c,
    decreases s.len(),
{
    if s.len() > 0 && s.last() != c {
        lemma_last_index_of(s.drop_last(), c);
        assert forall|j: int| last_index_of(s, c) < j < s.len() implies s[j] != c by {
            if j < s.len() - 1 {
                assert(s.drop_last()[j] != c);
            }
        }
    }
}

/// Index of the first whitespace character in `s`, or `s.len()` if absent.
pub open spec fn first_space_at(s: Seq<char>) -> int
    decreases s.len(),
{
    if s.len() == 0 {
        0
    } else if is_space_char(s[0]) {
        0
    } else {
        1 + first_space_at(s.drop_first())
    }
}

pub proof fn lemma_first_space_at(s: Seq<char>)
    ensures
        0 <= first_space_at(s) <= s.len(),
        forall|j: int| 0 <= j < first_space_at(s) ==> !is_space_char(s[j]),
        first_space_at(s) < s.len() ==> is_space_char(s[first_space_at(s)]),
    decreases s.len(),
{
    if s.len() > 0 && !is_space_char(s[0]) {
        lemma_first_space_at(s.drop_first());
        assert forall|j: int| 0 <= j < first_space_at(s) implies !is_space_char(s[j]) by {
            if j > 0 {
                assert(!is_space_char(s.drop_first()[j - 1]));
            }
        }
    }
}

/// Every character of `s` is whitespace.  The empty string is blank.
pub open spec fn is_blank(s: Seq<char>) -> bool {
    forall|i: int| 0 <= i < s.len() ==> is_space_char(s[i])
}

/// The whitespace-separated fields of `s`, in order.
pub open spec fn tokens_of(s: Seq<char>) -> Seq<Seq<char>>
    decreases s.len(),
{
    if s.len() == 0 {
        Seq::empty()
    } else if is_space_char(s[0]) {
        tokens_of(s.drop_first())
    } else {
        let k = first_space_at(s);
        if 1 <= k <= s.len() {
            seq![s.take(k)] + tokens_of(s.skip(k))
        } else {
            Seq::empty()
        }
    }
}

/// Unfolding of `tokens_of` at the head token `[0, k)`.
pub proof fn lemma_tokens_of_head(s: Seq<char>)
    requires
        s.len() > 0,
        !is_space_char(s[0]),
    ensures
        1 <= first_space_at(s) <= s.len(),
        tokens_of(s) == seq![s.take(first_space_at(s))] + tokens_of(s.skip(first_space_at(s))),
{
    lemma_first_space_at(s);
}

/// A trailing carriage return, as a line ending may carry one.
pub open spec fn strip_cr(line: Seq<char>) -> Seq<char> {
    if line.len() > 0 && line.last() == '\r' {
        line.drop_last()
    } else {
        line
    }
}

/// The lines of `s`: segments split at `'\n'`, each stripped of a carriage
/// return that preceded the newline.  A final segment without a newline is a
/// line as well; a trailing newline adds no empty line.
pub open spec fn lines_of(s: Seq<char>) -> Seq<Seq<char>>
    decreases s.len(),
{
    if s.len() == 0 {
        Seq::empty()
    } else {
        let k = first_index_of(s, '\n');
        if 0 <= k < s.len() {
            seq![strip_cr(s.take(k))] + lines_of(s.skip(k + 1))
        } else {
            seq![s]
        }
    }
}

/// The lines after the header line, for output whose first line is a header.
pub open spec fn body_lines(s: Seq<char>) -> Seq<Seq<char>> {
    let ls = lines_of(s);
    if ls.len() >= 1 {
        ls.drop_first()
    } else {
        Seq::empty()
    }
}

/// Count of leading whitespace characters.
pub open spec fn trim_lo(s: Seq<char>) -> int
    decreases s.len(),
{
    if s.len() == 0 {
        0
    } else if is_space_char(s[0]) {
        1 + trim_lo(s.drop_first())
    } else {
        0
    }
}

pub proof fn lemma_trim_lo(s: Seq<char>)
    ensures
        0 <= trim_lo(s) <= s.len(),
        forall|j: int| 0 <= j < trim_lo(s) ==> is_space_char(s[j]),
        trim_lo(s) < s.len() ==> !is_space_char(s[trim_lo(s)]),
    decreases s.len(),
{
    if s.len() > 0 && is_space_char(s[0]) {
        lemma_trim_lo(s.drop_first());
        assert forall|j: int| 0 <= j < trim_lo(s) implies is_space_char(s[j]) by {
            if j > 0 {
                assert(is_space_char(s.drop_first()[j - 1]));
            }
        }
    }
}

/// End of the text once trailing whitespace is dropped.
pub open spec fn trim_hi(s: Seq<char>) -> int
    decreases s.len(),
{
    if s.len() == 0 {
        0
    } else if is_space_char(s.last()) {
        trim_hi(s.drop_last())
    } else {
        s.len() as int
    }
}

pub proof fn lemma_trim_hi(s: Seq<char>)
    ensures
        0 <= trim_hi(s) <= s.len(),
        forall|j: int| trim_hi(s) <= j < s.len() ==> is_space_char(s[j]),
        trim_hi(s) > 0 ==> !is_space_char(s[trim_hi(s) - 1]),
    decreases s.len(),
{
    if s.len() > 0 && is_space_char(s.last()) {
        lemma_trim_hi(s.drop_last());
        assert forall|j: int| trim_hi(s) <= j < s.len() implies is_space_char(s[j]) by {
            if j < s.len() - 1 {
                assert(is_space_char(s.drop_last()[j]));
            }
        }
    }
}

/// The text without leading and trailing whitespace.
pub open spec fn trim_of(s: Seq<char>) -> Seq<char> {
    if trim_lo(s) <= trim_hi(s) {
        s.subrange(trim_lo(s), trim_hi(s))
    } else {
        Seq::empty()
    }
}

/// ASCII case folding of a whole string, character by character.
pub open spec fn lower_seq(s: Seq<char>) -> Seq<char> {
    s.map_values(|c: char| lower_char(c))
}

/// Every character is ASCII.
pub open spec fn all_ascii(s: Seq<char>) -> bool {
    forall|i: int| 0 <= i < s.len() ==> (s[i] as u32) < 128
}

/// The Unicode lowercase folding of a string, the function `str::to_lowercase`
/// computes.  Its full definition spans the Unicode case tables, so it is left
/// unwritten here; the trusted wrapper around `str::to_lowercase` states what
/// is relied on, and fixes it on ASCII strings to `lower_seq`.
pub uninterp spec fn lower_of(s: Seq<char>) -> Seq<char>;

/// `needle` occurs contiguously inside `hay`.
pub open spec fn contains_seq(hay: Seq<char>, needle: Seq<char>) -> bool {
    exists|i: int|
        0 <= i && i + needle.len() <= hay.len() && #[trigger] hay.subrange(i, i + needle.len())
            == needle
}

/// The items joined with `sep` between neighbours.
pub open spec fn join_with(items: Seq<Seq<char>>, sep: Seq<char>) -> Seq<char>
    decreases items.len(),
{
    if items.len() == 0 {
        Seq::empty()
    } else if items.len() == 1 {
        items[0]
    } else {
        join_with(items.drop_last(), sep) + sep + items.last()
    }
}

/// Some element of `s` has key `k`.
pub open spec fn contains_key<A, K>(s: Seq<A>, key: spec_fn(A) -> K, k: K) -> bool {
    exists|i: int| 0 <= i < s.len() && key(s[i]) == k
}

/// First-seen deduplication: of all elements sharing a key, only the
/// earliest is kept, and the surviving elements keep their relative order.
pub open spec fn dedup_by_key<A, K>(s: Seq<A>, key: spec_fn(A) -> K) -> Seq<A>
    decreases s.len(),
{
    if s.len() == 0 {
        Seq::empty()
    } else {
        let pre = dedup_by_key(s.drop_last(), key);
        if contains_key(pre, key, key(s.last())) {
            pre
        } else {
            pre.push(s.last())
        }
    }
}

/// No two elements of the deduplicated sequence share a key.
pub proof fn lemma_dedup_by_key_unique<A, K>(s: Seq<A>, key: spec_fn(A) -> K)
    ensures
        forall|i: int, j: int|
            0 <= i < j < dedup_by_key(s, key).len() ==> key(dedup_by_key(s, key)[i]) != key(
                dedup_by_key(s, key)[j],
            ),
    decreases s.len(),
{
    if s.len() > 0 {
        lemma_dedup_by_key_unique(s.drop_last(), key);
        let pre = dedup_by_key(s.drop_last(), key);
        let d = dedup_by_key(s, key);
        if !contains_key(pre, key, key(s.last())) {
            assert forall|i: int, j: int| 0 <= i < j < d.len() implies key(d[i]) != key(
                d[j],
            ) by {
                if j == d.len() - 1 {
                    assert(!(key(pre[i]) == key(s.last())));
                }
            }
        }
    }
}

/// Every key of the input survives deduplication, and every survivor comes
/// from the input.
pub proof fn lemma_dedup_by_key_complete<A, K>(s: Seq<A>, key: spec_fn(A) -> K)
    ensures
        forall|i: int|
            0 <= i < s.len() ==> contains_key(dedup_by_key(s, key), key, key(s[i])),
        forall|j: int|
            0 <= j < dedup_by_key(s, key).len() ==> exists|i: int|
                0 <= i < s.len() && s[i] == #[trigger] dedup_by_key(s, key)[j],
    decreases s.len(),
{
    if s.len() > 0 {
        lemma_dedup_by_key_complete(s.drop_last(), key);
        let pre = dedup_by_key(s.drop_last(), key);
        let d = dedup_by_key(s, key);
        assert(pre.is_prefix_of(d));
        assert forall|i: int| 0 <= i < s.len() implies contains_key(d, key, key(s[i])) by {
            if i < s.len() - 1 {
                assert(s.drop_last()[i] == s[i]);
                assert(contains_key(pre, key, key(s[i])));
                let w = choose|w: int| 0 <= w < pre.len() && key(pre[w]) == key(s[i]);
                assert(key(d[w]) == key(s[i]));
            } else {
                if contains_key(pre, key, key(s.last())) {
                    let w = choose|w: int| 0 <= w < pre.len() && key(pre[w]) == key(s.last());
                    assert(key(d[w]) == key(s[i]));
                } else {
                    assert(key(d[d.len() - 1]) == key(s[i]));
                }
            }
        }
        assert forall|j: int| 0 <= j < d.len() implies exists|i: int|
            0 <= i < s.len() && s[i] == #[trigger] d[j] by {
            if j < pre.len() {
                let w = choose|w: int| 0 <= w < s.drop_last().len() && s.drop_last()[w] == pre[j];
                assert(s[w] == d[j]);
            } else {
                assert(s[s.len() - 1] == d[j]);
            }
        }
    }
}

/// Appending one element extends a `filter_map` by that element's image.
pub proof fn lemma_filter_map_push<A, B>(s: Seq<A>, x: A, f: spec_fn(A) -> Option<B>)
    ensures
        s.push(x).filter_map(f) == (match f(x) {
            Some(b) => s.filter_map(f).push(b),
            None => s.filter_map(f),
        }),
{
    assert(s.push(x).drop_last() =~= s);
    assert(s.push(x).last() == x);
    match f(x) {
        Some(b) => {
            assert(s.filter_map(f) + seq![b] =~= s.filter_map(f).push(b));
        },
        None => {},
    }
}

/// An element that maps to `None` adds nothing, wherever it stands.
pub proof fn lemma_filter_map_skip_none<A, B>(s: Seq<A>, k: int, x: A, f: spec_fn(A) -> Option<B>)
    requires
        0 <= k <= s.len(),
        f(x) is None,
    ensures
        s.insert(k, x).filter_map(f) == s.filter_map(f),
    decreases s.len(),
{
    let ins = s.insert(k, x);
    if k == s.len() {
        assert(ins =~= s.push(x));
        lemma_filter_map_push(s, x, f);
    } else {
        assert(ins.last() == s.last());
        assert(ins.drop_last() =~= s.drop_last().insert(k, x));
        lemma_filter_map_skip_none(s.drop_last(), k, x, f);
    }
}

/// If every element maps to `None`, `filter_map` yields nothing.
pub proof fn lemma_filter_map_all_none<A, B>(s: Seq<A>, f: spec_fn(A) -> Option<B>)
    requires
        forall|i: int| 0 <= i < s.len() ==> (#[trigger] f(s[i])) is None,
    ensures
        s.filter_map(f).len() == 0,
    decreases s.len(),
{
    if s.len() > 0 {
        assert(f(s[s.len() - 1]) is None);
        assert(forall|i: int|
            0 <= i < s.drop_last().len() ==> s.drop_last()[i] == s[i]);
        lemma_filter_map_all_none(s.drop_last(), f);
    }
}

/// Each survivor is the input's first element with its key.
pub proof fn lemma_dedup_by_key_first<A, K>(s: Seq<A>, key: spec_fn(A) -> K)
    ensures
        forall|j: int|
            0 <= j < dedup_by_key(s, key).len() ==> exists|i: int|
                0 <= i < s.len() && s[i] == #[trigger] dedup_by_key(s, key)[j] && forall|h: int|
                    0 <= h < i ==> #[trigger] key(s[h]) != key(s[i]),
    decreases s.len(),
{
    if s.len() > 0 {
        lemma_dedup_by_key_first(s.drop_last(), key);
        lemma_dedup_by_key_complete(s.drop_last(), key);
        let pre = dedup_by_key(s.drop_last(), key);
        let d = dedup_by_key(s, key);
        assert forall|j: int| 0 <= j < d.len() implies exists|i: int|
            0 <= i < s.len() && s[i] == #[trigger] d[j] && forall|h: int|
                0 <= h < i ==> #[trigger] key(s[h]) != key(s[i]) by {
            if j < pre.len() {
                let sd = s.drop_last();
                assert(pre[j] == dedup_by_key(sd, key)[j]);
                let i = choose|i: int|
                    0 <= i < sd.len() && sd[i] == #[trigger] dedup_by_key(sd, key)[j] && forall|
                        h: int,
                    | 0 <= h < i ==> #[trigger] key(sd[h]) != key(sd[i]);
                assert(s[i] == d[j]);
                assert forall|h: int| 0 <= h < i implies #[trigger] key(s[h]) != key(s[i]) by {
                    assert(sd[h] == s[h]);
                    assert(sd[i] == s[i]);
                    assert(key(sd[h]) != key(sd[i]));
                }
                assert(0 <= i < s.len() && s[i] == d[j] && forall|h: int|
                    0 <= h < i ==> #[trigger] key(s[h]) != key(s[i]));
            } else {
                // the last element was kept, so no earlier element shares its key
                let i = s.len() - 1;
                assert(s[i] == d[j]);
                assert forall|h: int| 0 <= h < i implies #[trigger] key(s[h]) != key(s[i]) by {
                    assert(s.drop_last()[h] == s[h]);
                    assert(contains_key(pre, key, key(s.drop_last()[h])));
                }
                assert(0 <= i < s.len() && s[i] == d[j] && forall|h: int|
                    0 <= h < i ==> #[trigger] key(s[h]) != key(s[i]));
            }
        }
    }
}

} // verus!
