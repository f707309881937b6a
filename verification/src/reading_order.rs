//! The reading-order check: where each expected snippet first occurs in the
//! extracted text, which snippets are missing, and which pairs of found
//! snippets came out in the wrong order. The score is the share of ordered
//! pairs, returned as a numerator and a denominator.
use vstd::prelude::*;

use crate::text::{chars_of, copy_string, find_chars, occurs_at, seq_contains};

verus! {

broadcast use crate::views::lemma_char_vec_deep_view;

/// The number of bytes `char::len_utf8` gives a character.
pub open spec fn utf8_width(c: char) -> nat {
    if (c as u32) < 0x80 {
        1
    } else if (c as u32) < 0x800 {
        2
    } else if (c as u32) < 0x10000 {
        3
    } else {
        4
    }
}

/// The length in bytes of the UTF-8 encoding of some text.
pub open spec fn utf8_len(s: Seq<char>) -> nat
    decreases s.len(),
{
    if s.len() == 0 {
        0
    } else {
        utf8_len(s.drop_last()) + utf8_width(s.last())
    }
}

fn char_width(c: char) -> (n: usize)
    ensures
        n == utf8_width(c),
{
    let v = c as u32;
    if v < 0x80 {
        1
    } else if v < 0x800 {
        2
    } else if v < 0x10000 {
        3
    } else {
        4
    }
}

proof fn lemma_utf8_len_prefix(s: Seq<char>, i: int)
    requires
        0 <= i <= s.len(),
    ensures
        utf8_len(s.take(i)) <= utf8_len(s),
        utf8_len(s) <= 4 * s.len(),
    decreases s.len() - i,
{
    if i < s.len() {
        lemma_utf8_len_prefix(s, i + 1);
        assert(s.take(i + 1).drop_last() =~= s.take(i));
    } else {
        assert(s.take(i) =~= s);
        lemma_utf8_len_bound(s);
    }
}

proof fn lemma_utf8_len_bound(s: Seq<char>)
    ensures
        utf8_len(s) <= 4 * s.len(),
    decreases s.len(),
{
    if s.len() > 0 {
        lemma_utf8_len_bound(s.drop_last());
    }
}

/// The byte offset of the `i`-th character.
fn byte_offset(s: &Vec<char>, i: usize) -> (n: usize)
    requires
        i <= s@.len(),
        4 * s@.len() <= usize::MAX,
    ensures
        n == utf8_len(s@.take(i as int)),
{
    let mut n: usize = 0;
    let mut k: usize = 0;
    while k < i
        invariant
            k <= i,
            i <= s@.len(),
            4 * s@.len() <= usize::MAX,
            n == utf8_len(s@.take(k as int)),
        decreases i - k,
    {
        proof {
            assert(s@.take(k + 1).drop_last() =~= s@.take(k as int));
            lemma_utf8_len_bound(s@.take(k + 1));
        }
        n = n + char_width(s[k]);
        k += 1;
    }
    n
}

/// The first position (in characters) at which a snippet occurs.
pub open spec fn first_occurrence(hay: Seq<char>, needle: Seq<char>) -> Option<int> {
    if seq_contains(hay, needle) {
        Some(
            choose|i: int|
                occurs_at(hay, needle, i) && forall|k: int| 0 <= k < i ==> !occurs_at(hay, needle, k),
        )
    } else {
        None
    }
}

/// `str::find`: the byte offset of the first occurrence.
pub open spec fn find_offset(hay: Seq<char>, needle: Seq<char>) -> Option<nat> {
    match first_occurrence(hay, needle) {
        Some(i) => Some(utf8_len(hay.take(i))),
        None => None,
    }
}

proof fn lemma_first_occurrence_unique(hay: Seq<char>, needle: Seq<char>, i: int)
    requires
        occurs_at(hay, needle, i),
        forall|k: int| 0 <= k < i ==> !occurs_at(hay, needle, k),
    ensures
        first_occurrence(hay, needle) == Some(i),
{
    assert(seq_contains(hay, needle));
    let j = choose|j: int|
        occurs_at(hay, needle, j) && forall|k: int| 0 <= k < j ==> !occurs_at(hay, needle, k);
    if j < i {
        assert(!occurs_at(hay, needle, j));
    }
    if i < j {
        assert(!occurs_at(hay, needle, i));
    }
}

/// Where a snippet first occurs in the text, as a byte offset.
pub fn find_snippet(text: &Vec<char>, snippet: &str) -> (r: Option<usize>)
    requires
        4 * text@.len() <= usize::MAX,
    ensures
        match r {
            Some(n) => find_offset(text@, snippet@) == Some(n as nat),
            None => find_offset(text@, snippet@) is None,
        },
{
    let needle = chars_of(snippet);
    match find_chars(text, &needle) {
        Some(i) => {
            proof {
                lemma_first_occurrence_unique(text@, needle@, i as int);
            }
            Some(byte_offset(text, i))
        },
        None => None,
    }
}

// ---------------------------------------------------------------------------
// Pairs of snippets
// ---------------------------------------------------------------------------

/// Whether the snippets at `l` and `r` were both found, in the wrong order.
pub open spec fn inverted(pos: Seq<Option<usize>>, l: int, r: int) -> bool {
    pos[l] matches Some(a) && pos[r] matches Some(b) && a > b
}

/// Whether the snippets at `l` and `r` were both found, in order.
pub open spec fn in_order(pos: Seq<Option<usize>>, l: int, r: int) -> bool {
    pos[l] matches Some(a) && pos[r] matches Some(b) && a <= b
}

/// The inverted pairs `(l, r)` with `l < r < end`, by `r`.
pub open spec fn row_inversions(pos: Seq<Option<usize>>, l: int, end: int) -> Seq<(int, int)>
    decreases end - l,
{
    if end <= l + 1 {
        seq![]
    } else {
        row_inversions(pos, l, end - 1) + if inverted(pos, l, end - 1) {
            seq![(l, end - 1)]
        } else {
            seq![]
        }
    }
}

/// The inverted pairs whose first snippet comes before `l_end`, by first and
/// then second snippet.
pub open spec fn inversions_upto(pos: Seq<Option<usize>>, l_end: int) -> Seq<(int, int)>
    decreases l_end,
{
    if l_end <= 0 {
        seq![]
    } else {
        inversions_upto(pos, l_end - 1) + row_inversions(pos, l_end - 1, pos.len() as int)
    }
}

/// The number of ordered pairs `(l, r)` with `l < r < end`.
pub open spec fn row_ordered(pos: Seq<Option<usize>>, l: int, end: int) -> nat
    decreases end - l,
{
    if end <= l + 1 {
        0
    } else {
        row_ordered(pos, l, end - 1) + if in_order(pos, l, end - 1) {
            1nat
        } else {
            0nat
        }
    }
}

pub open spec fn ordered_upto(pos: Seq<Option<usize>>, l_end: int) -> nat
    decreases l_end,
{
    if l_end <= 0 {
        0
    } else {
        ordered_upto(pos, l_end - 1) + row_ordered(pos, l_end - 1, pos.len() as int)
    }
}

/// The number of pairs `(l, r)` with `l < r < n`.
pub open spec fn pair_count(n: nat) -> nat {
    (n * (n - 1) / 2) as nat
}

proof fn lemma_row_bounds(pos: Seq<Option<usize>>, l: int, end: int)
    requires
        0 <= l,
    ensures
        row_ordered(pos, l, end) + row_inversions(pos, l, end).len() <= if end > l + 1 {
            end - l - 1
        } else {
            0
        },
    decreases end - l,
{
    if end > l + 1 {
        lemma_row_bounds(pos, l, end - 1);
    }
}

proof fn lemma_upto_bounds(pos: Seq<Option<usize>>, l_end: int)
    requires
        0 <= l_end <= pos.len(),
    ensures
        ordered_upto(pos, l_end) + inversions_upto(pos, l_end).len() <= l_end * pos.len(),
    decreases l_end,
{
    if l_end > 0 {
        lemma_upto_bounds(pos, l_end - 1);
        lemma_row_bounds(pos, l_end - 1, pos.len() as int);
        assert((l_end - 1) * pos.len() + pos.len() == l_end * pos.len()) by (nonlinear_arith);
    }
}

/// The outcome of the reading-order check.
pub struct ReadingOrderCounts {
    pub matched: Vec<(String, usize)>,
    pub missing: Vec<String>,
    pub inversions: Vec<(String, String)>,
    pub score_numerator: u128,
    pub score_denominator: u128,
}

/// The positions of the snippets in the text.
pub open spec fn snippet_offsets(text: Seq<char>, snippets: Seq<Seq<char>>) -> Seq<Option<nat>> {
    Seq::new(snippets.len(), |i: int| find_offset(text, snippets[i]))
}

pub open spec fn offsets_view(pos: Seq<Option<usize>>) -> Seq<Option<nat>> {
    Seq::new(
        pos.len(),
        |i: int|
            match pos[i] {
                Some(n) => Some(n as nat),
                None => None,
            },
    )
}

/// The found snippets with their offsets, in order.
pub open spec fn matched_snippets(snippets: Seq<Seq<char>>, pos: Seq<Option<usize>>) -> Seq<(Seq<char>, usize)>
    decreases snippets.len(),
{
    if snippets.len() == 0 || pos.len() == 0 {
        seq![]
    } else {
        let prev = matched_snippets(snippets.drop_last(), pos.drop_last());
        match pos.last() {
            Some(n) => prev.push((snippets.last(), n)),
            None => prev,
        }
    }
}

/// The snippets not found, in order.
pub open spec fn missing_snippets(snippets: Seq<Seq<char>>, pos: Seq<Option<usize>>) -> Seq<Seq<char>>
    decreases snippets.len(),
{
    if snippets.len() == 0 || pos.len() == 0 {
        seq![]
    } else {
        let prev = missing_snippets(snippets.drop_last(), pos.drop_last());
        match pos.last() {
            Some(_) => prev,
            None => prev.push(snippets.last()),
        }
    }
}

/// Checks the reading order of the snippets in the text. With fewer than two
/// snippets the score is one when all were found and zero otherwise; else it
/// is the share of snippet pairs found in order.
pub fn reading_order_outcome(snippets: &Vec<String>, text: &str) -> (r: ReadingOrderCounts)
    requires
        4 * text@.len() <= usize::MAX,
    ensures
        exists|pos: Seq<Option<usize>>|
            #[trigger] offsets_view(pos) == snippet_offsets(text@, snippets.deep_view()) && {
                let n = snippets@.len();
                let inv = inversions_upto(pos, n as int);
                &&& r.matched@.len() == matched_snippets(snippets.deep_view(), pos).len()
                &&& (forall|k: int|
                    0 <= k < r.matched@.len() ==> (#[trigger] r.matched@[k]).0@ == matched_snippets(
                        snippets.deep_view(),
                        pos,
                    )[k].0 && r.matched@[k].1 == matched_snippets(snippets.deep_view(), pos)[k].1)
                &&& r.missing.deep_view() == missing_snippets(snippets.deep_view(), pos)
                &&& if n < 2 {
                    &&& r.inversions@.len() == 0
                    &&& r.score_denominator == 1
                    &&& r.score_numerator == (if r.missing@.len() == 0 {
                        1u128
                    } else {
                        0u128
                    })
                } else {
                    &&& r.inversions@.len() == inv.len()
                    &&& (forall|k: int|
                        0 <= k < inv.len() ==> (#[trigger] r.inversions@[k]).0@ == snippets@[inv[k].0]@
                            && r.inversions@[k].1@ == snippets@[inv[k].1]@)
                    &&& r.score_numerator == ordered_upto(pos, n as int)
                    &&& r.score_denominator == pair_count(n)
                }
            },
{
    let tv = chars_of(text);
    let ghost sv = snippets.deep_view();
    let mut pos: Vec<Option<usize>> = Vec::new();
    let mut matched: Vec<(String, usize)> = Vec::new();
    let mut missing: Vec<String> = Vec::new();
    let mut i: usize = 0;
    proof {
        crate::views::lemma_vec_dview(*snippets);
    }
    while i < snippets.len()
        invariant
            i <= snippets@.len(),
            tv@ == text@,
            4 * text@.len() <= usize::MAX,
            sv == snippets.deep_view(),
            sv.len() == snippets@.len(),
            forall|k: int| 0 <= k < snippets@.len() ==> #[trigger] sv[k] == snippets@[k]@,
            pos@.len() == i,
            offsets_view(pos@) == snippet_offsets(text@, sv).take(i as int),
            matched@.len() == matched_snippets(sv.take(i as int), pos@).len(),
            forall|k: int|
                0 <= k < matched@.len() ==> (#[trigger] matched@[k]).0@ == matched_snippets(sv.take(i as int), pos@)[k].0
                    && matched@[k].1 == matched_snippets(sv.take(i as int), pos@)[k].1,
            missing.deep_view() == missing_snippets(sv.take(i as int), pos@),
        decreases snippets@.len() - i,
    {
        let ghost prev_pos = pos@;
        let ghost prev_missing = missing@;
        let p = find_snippet(&tv, snippets[i].as_str());
        pos.push(p);
        proof {
            assert(sv.take(i + 1).drop_last() =~= sv.take(i as int));
            assert(pos@.drop_last() =~= prev_pos);
            assert(sv.take(i + 1).last() == sv[i as int]);
            assert(offsets_view(pos@) =~= snippet_offsets(text@, sv).take(i + 1));
            crate::views::lemma_vec_dview(missing);
        }
        match p {
            Some(n) => {
                let ghost before = matched@;
                matched.push((copy_string(&snippets[i]), n));
                proof {
                    let m = matched_snippets(sv.take(i + 1), pos@);
                    assert(m == matched_snippets(sv.take(i as int), prev_pos).push((sv[i as int], n)));
                    assert forall|k: int| 0 <= k < matched@.len() implies (#[trigger] matched@[k]).0@ == m[k].0
                        && matched@[k].1 == m[k].1 by {
                        if k < before.len() {
                            assert(matched@[k] == before[k]);
                        }
                    }
                }
            },
            None => {
                let t = copy_string(&snippets[i]);
                missing.push(t);
                proof {
                    crate::views::lemma_vec_dview(missing);
                    crate::views::lemma_dview_push(prev_missing, t);
                }
            },
        }
        i += 1;
    }
    proof {
        assert(sv.take(snippets@.len() as int) =~= sv);
        assert(snippet_offsets(text@, sv).take(snippets@.len() as int) =~= snippet_offsets(text@, sv));
    }
    let n = snippets.len();
    if n < 2 {
        let all_found = missing.len() == 0;
        let inversions: Vec<(String, String)> = Vec::new();
        return ReadingOrderCounts {
            matched,
            missing,
            inversions,
            score_numerator: if all_found {
                1
            } else {
                0
            },
            score_denominator: 1,
        };
    }
    let ghost pv = pos@;
    let mut ordered: u128 = 0;
    let mut inversions: Vec<(String, String)> = Vec::new();
    let mut l: usize = 0;
    proof {
        lemma_upto_bounds(pv, n as int);
        assert(n * n <= u128::MAX) by (nonlinear_arith)
            requires
                n <= usize::MAX,
                usize::MAX <= u64::MAX,
        ;
    }
    while l < n
        invariant
            l <= n,
            n == snippets@.len(),
            n == pv.len(),
            pv == pos@,
            n * n <= u128::MAX,
            ordered == ordered_upto(pv, l as int),
            inversions@.len() == inversions_upto(pv, l as int).len(),
            forall|k: int|
                0 <= k < inversions@.len() ==> (#[trigger] inversions@[k]).0@ == snippets@[inversions_upto(
                    pv,
                    l as int,
                )[k].0]@ && inversions@[k].1@ == snippets@[inversions_upto(pv, l as int)[k].1]@,
            forall|k: int|
                0 <= k < inversions_upto(pv, l as int).len() ==> 0 <= #[trigger] inversions_upto(pv, l as int)[k].0
                    < n && 0 <= inversions_upto(pv, l as int)[k].1 < n,
        decreases n - l,
    {
        let mut r: usize = l + 1;
        let ghost base = inversions@;
        proof {
            lemma_upto_bounds(pv, l + 1);
            assert((l + 1) * n <= n * n) by (nonlinear_arith)
                requires
                    l + 1 <= n,
            ;
        }
        while r < n
            invariant
                l < n,
                l + 1 <= r <= n,
                n == snippets@.len(),
                n == pv.len(),
                pv == pos@,
                n * n <= u128::MAX,
                ordered_upto(pv, l + 1) + inversions_upto(pv, l + 1).len() <= n * n,
                ordered == ordered_upto(pv, l as int) + row_ordered(pv, l as int, r as int),
                base.len() == inversions_upto(pv, l as int).len(),
                inversions@.len() == base.len() + row_inversions(pv, l as int, r as int).len(),
                forall|k: int| 0 <= k < base.len() ==> #[trigger] inversions@[k] == base[k],
                forall|k: int|
                    0 <= k < base.len() ==> (#[trigger] base[k]).0@ == snippets@[inversions_upto(pv, l as int)[k].0]@
                        && base[k].1@ == snippets@[inversions_upto(pv, l as int)[k].1]@,
                forall|k: int|
                    0 <= k < row_inversions(pv, l as int, r as int).len() ==> (#[trigger] inversions@[base.len()
                        + k]).0@ == snippets@[row_inversions(pv, l as int, r as int)[k].0]@
                        && inversions@[base.len() + k].1@ == snippets@[row_inversions(
                        pv,
                        l as int,
                        r as int,
                    )[k].1]@,
                forall|k: int|
                    0 <= k < row_inversions(pv, l as int, r as int).len() ==> #[trigger] row_inversions(
                        pv,
                        l as int,
                        r as int,
                    )[k] == (l as int, row_inversions(pv, l as int, r as int)[k].1) && l < row_inversions(
                        pv,
                        l as int,
                        r as int,
                    )[k].1 < r,
            decreases n - r,
        {
            proof {
                lemma_row_bounds(pv, l as int, r + 1);
                lemma_row_prefix(pv, l as int, r + 1, n as int);
                assert(ordered_upto(pv, l + 1) == ordered_upto(pv, l as int) + row_ordered(pv, l as int, n as int));
            }
            let ghost before = inversions@;
            match (pos[l], pos[r]) {
                (Some(a), Some(b)) => {
                    if a <= b {
                        ordered = ordered + 1;
                    } else {
                        inversions.push((copy_string(&snippets[l]), copy_string(&snippets[r])));
                    }
                },
                _ => {},
            }
            proof {
                let row_now = row_inversions(pv, l as int, r + 1);
                let row_before = row_inversions(pv, l as int, r as int);
                assert forall|k: int| 0 <= k < row_now.len() implies (#[trigger] inversions@[base.len() + k]).0@
                    == snippets@[row_now[k].0]@ && inversions@[base.len() + k].1@ == snippets@[row_now[k].1]@ by {
                    if k < row_before.len() {
                        assert(row_now[k] == row_before[k]);
                        assert(inversions@[base.len() + k] == before[base.len() + k]);
                    }
                }
            }
            r += 1;
        }
        proof {
            let now = inversions_upto(pv, l + 1);
            let prev = inversions_upto(pv, l as int);
            let row = row_inversions(pv, l as int, n as int);
            assert(now == prev + row);
            assert forall|k: int| 0 <= k < inversions@.len() implies (#[trigger] inversions@[k]).0@
                == snippets@[now[k].0]@ && inversions@[k].1@ == snippets@[now[k].1]@ by {
                if k < base.len() {
                    assert(now[k] == prev[k]);
                } else {
                    assert(now[k] == row[k - base.len()]);
                    assert(inversions@[base.len() + (k - base.len())] == inversions@[k]);
                }
            }
            assert forall|k: int| 0 <= k < now.len() implies 0 <= #[trigger] now[k].0 < n && 0 <= now[k].1 < n by {
                if k < prev.len() {
                    assert(now[k] == prev[k]);
                } else {
                    assert(now[k] == row[k - prev.len()]);
                }
            }
        }
        l += 1;
    }
    let wide = n as u128;
    proof {
        assert(wide * (wide - 1) <= u128::MAX) by (nonlinear_arith)
            requires
                2 <= wide <= usize::MAX,
                usize::MAX <= u64::MAX,
        ;
    }
    ReadingOrderCounts {
        matched,
        missing,
        inversions,
        score_numerator: ordered,
        score_denominator: wide * (wide - 1) / 2,
    }
}

proof fn lemma_row_prefix(pos: Seq<Option<usize>>, l: int, r: int, n: int)
    requires
        0 <= l,
        l + 1 <= r <= n,
    ensures
        row_ordered(pos, l, r) <= row_ordered(pos, l, n),
        row_inversions(pos, l, r).len() <= row_inversions(pos, l, n).len(),
    decreases n - r,
{
    if r < n {
        lemma_row_prefix(pos, l, r + 1, n);
    }
}

} // verus!
