//! Required-text anchors: the snippets an evaluation manifest expects to find
//! in extracted text, how tolerant the match is, and which page lines are good
//! anchors to generate.
use vstd::prelude::*;

use crate::text::{
    str_eq,
    append_chars, chars_of, contains_chars, is_ascii_punctuation, is_ascii_punctuation_char,
    is_control, is_control_char, join_chars, join_with, keep_nonempty, nonempty_pieces, seq_contains,
    split_by, split_chars, split_whitespace, split_ws, string_of, lines_of, leading_count,
    occurs_at, CharSet, is_unicode_whitespace, lemma_joined_words_spacing, lemma_split_joined_words,
    lemma_split_whitespace_words,
};
use crate::unicode::{
    alphabetic, alphanumeric, char_to_lowercase, is_alphabetic, is_alphanumeric, lowercase_char,
    lowercase_str, to_lowercase,
};
use crate::views::{dview, lemma_dview_push, lemma_vec_dview};

verus! {

broadcast use crate::views::lemma_char_vec_deep_view;

/// How many characters of `s` satisfy `p`.
pub open spec fn count_where(s: Seq<char>, p: spec_fn(char) -> bool) -> nat
    decreases s.len(),
{
    if s.len() == 0 {
        0
    } else {
        count_where(s.drop_last(), p) + if p(s.last()) {
            1nat
        } else {
            0nat
        }
    }
}

/// The characters of `s` that satisfy `p`, in order.
pub open spec fn keep_where(s: Seq<char>, p: spec_fn(char) -> bool) -> Seq<char>
    decreases s.len(),
{
    if s.len() == 0 {
        s
    } else {
        let prev = keep_where(s.drop_last(), p);
        if p(s.last()) {
            prev.push(s.last())
        } else {
            prev
        }
    }
}

pub proof fn lemma_count_where_bound(s: Seq<char>, p: spec_fn(char) -> bool)
    ensures
        count_where(s, p) <= s.len(),
    decreases s.len(),
{
    if s.len() > 0 {
        lemma_count_where_bound(s.drop_last(), p);
    }
}

/// Whitespace runs collapsed to single spaces, with no space at either end.
pub open spec fn normalized_anchor(text: Seq<char>) -> Seq<char> {
    join_with(split_whitespace(text), seq![' '])
}

/// Normalizing an anchor keeps its words: the result splits at whitespace
/// into the same words as the text; it neither starts nor ends with
/// whitespace and holds no two whitespace characters in a row; and
/// normalizing it again changes nothing.
pub proof fn law_normalized_anchor_keeps_words(text: Seq<char>)
    ensures
        split_whitespace(normalized_anchor(text)) == split_whitespace(text),
        normalized_anchor(text).len() > 0 ==> !is_unicode_whitespace(normalized_anchor(text)[0])
            && !is_unicode_whitespace(normalized_anchor(text).last()),
        forall|i: int|
            0 <= i < normalized_anchor(text).len() - 1 ==> !(is_unicode_whitespace(
                #[trigger] normalized_anchor(text)[i],
            ) && is_unicode_whitespace(normalized_anchor(text)[i + 1])),
        normalized_anchor(normalized_anchor(text)) == normalized_anchor(text),
{
    lemma_split_whitespace_words(text);
    lemma_split_joined_words(split_whitespace(text));
    lemma_joined_words_spacing(split_whitespace(text));
}

pub open spec fn is_squash_kept(c: char) -> bool {
    alphanumeric(c) || is_ascii_punctuation_char(c)
}

/// Only the alphanumeric characters and the ASCII punctuation of `text`.
pub open spec fn squashed_anchor(text: Seq<char>) -> Seq<char> {
    keep_where(text, |c: char| is_squash_kept(c))
}

/// An expected snippet matches extracted text when it occurs verbatim, when it
/// occurs after whitespace is normalized on both sides, or, for snippets that
/// keep at least 8 bytes once squashed, when it occurs after both sides are
/// squashed down to alphanumerics and punctuation.
pub open spec fn anchor_matches(actual: Seq<char>, expected: Seq<char>) -> bool {
    ||| seq_contains(actual, expected)
    ||| seq_contains(normalized_anchor(actual), normalized_anchor(expected))
    ||| (vstd::utf8::encode_utf8(squashed_anchor(expected)).len() >= 8 && seq_contains(
        squashed_anchor(actual),
        squashed_anchor(expected),
    ))
}

/// The expected snippets that do not match, in their original order.
pub open spec fn unmatched_anchors(expected: Seq<Seq<char>>, actual: Seq<char>) -> Seq<
    Seq<char>,
>
    decreases expected.len(),
{
    if expected.len() == 0 {
        expected
    } else {
        let prev = unmatched_anchors(expected.drop_last(), actual);
        if anchor_matches(actual, expected.last()) {
            prev
        } else {
            prev.push(expected.last())
        }
    }
}

pub fn normalize_required_text_anchor(text: &str) -> (r: String)
    ensures
        r@ == normalized_anchor(text@),
{
    let v = chars_of(text);
    let words = split_ws(&v);
    let mut sep: Vec<char> = Vec::new();
    sep.push(' ');
    proof {
        assert(sep@ =~= seq![' ']);
    }
    let joined = join_chars(&words, &sep);
    string_of(&joined)
}

pub fn squashed_chars(v: &Vec<char>) -> (r: Vec<char>)
    ensures
        r@ == squashed_anchor(v@),
{
    let mut r: Vec<char> = Vec::new();
    let mut i: usize = 0;
    while i < v.len()
        invariant
            i <= v.len(),
            r@ == squashed_anchor(v@.take(i as int)),
        decreases v.len() - i,
    {
        proof {
            assert(v@.take(i + 1).drop_last() =~= v@.take(i as int));
        }
        let c = v[i];
        if is_alphanumeric(c) || is_ascii_punctuation(c) {
            r.push(c);
        }
        i += 1;
    }
    proof {
        assert(v@.take(v.len() as int) =~= v@);
    }
    r
}

/// How many bytes the UTF-8 encoding of a character takes.
pub open spec fn utf8_width(c: char) -> nat {
    if (c as u32) <= 0x7F {
        1
    } else if (c as u32) <= 0x7FF {
        2
    } else if (c as u32) <= 0xFFFF {
        3
    } else {
        4
    }
}

proof fn lemma_encode_scalar_len(c: char)
    ensures
        vstd::utf8::encode_scalar(c as u32).len() == utf8_width(c),
{
    vstd::utf8::char_is_scalar(c);
}

proof fn lemma_encode_utf8_step(s: Seq<char>, i: int)
    requires
        0 <= i < s.len(),
    ensures
        vstd::utf8::encode_utf8(s.skip(i)).len() == utf8_width(s[i]) + vstd::utf8::encode_utf8(
            s.skip(i + 1),
        ).len(),
{
    assert(s.skip(i)[0] == s[i]);
    assert(s.skip(i).drop_first() =~= s.skip(i + 1));
    lemma_encode_scalar_len(s[i]);
}

/// Whether the UTF-8 encoding of `s` takes at least `n` bytes (`str::len`).
pub fn utf8_len_at_least(s: &Vec<char>, n: usize) -> (r: bool)
    ensures
        r == (vstd::utf8::encode_utf8(s@).len() >= n),
{
    if n == 0 {
        return true;
    }
    let mut count: usize = 0;
    let mut i: usize = 0;
    assert(s@.skip(0) =~= s@);
    while i < s.len()
        invariant
            i <= s.len(),
            count < n,
            count + vstd::utf8::encode_utf8(s@.skip(i as int)).len() == vstd::utf8::encode_utf8(
                s@,
            ).len(),
        decreases s.len() - i,
    {
        proof {
            lemma_encode_utf8_step(s@, i as int);
        }
        let u = s[i] as u32;
        let w: usize = if u <= 0x7F {
            1
        } else if u <= 0x7FF {
            2
        } else if u <= 0xFFFF {
            3
        } else {
            4
        };
        if w >= n - count {
            return true;
        }
        count += w;
        i += 1;
    }
    assert(s@.skip(s.len() as int) =~= Seq::<char>::empty());
    false
}

pub fn squashed_required_text_anchor(text: &str) -> (r: String)
    ensures
        r@ == squashed_anchor(text@),
{
    let v = chars_of(text);
    let s = squashed_chars(&v);
    string_of(&s)
}

pub fn required_text_anchor_matches(actual: &str, expected: &str) -> (r: bool)
    ensures
        r == anchor_matches(actual@, expected@),
{
    let av = chars_of(actual);
    let ev = chars_of(expected);
    if contains_chars(&av, &ev) {
        return true;
    }
    let an = chars_of(normalize_required_text_anchor(actual).as_str());
    let en = chars_of(normalize_required_text_anchor(expected).as_str());
    if contains_chars(&an, &en) {
        return true;
    }
    let squashed_expected = squashed_required_text_anchor(expected);
    let squashed_actual = squashed_chars(&av);
    let se = chars_of(squashed_expected.as_str());
    utf8_len_at_least(&se, 8) && contains_chars(&squashed_actual, &se)
}

/// The views of some strings.
pub open spec fn texts_of(v: Seq<String>) -> Seq<Seq<char>> {
    v.map_values(|s: String| s@)
}

/// The expected snippets that `actual_text` does not match.
pub fn required_text_missing(expected: &[String], actual_text: &str) -> (missing: Vec<String>)
    ensures
        missing.deep_view() == unmatched_anchors(texts_of(expected@), actual_text@),
{
    let ghost all = texts_of(expected@);
    let mut missing: Vec<String> = Vec::new();
    let mut i: usize = 0;
    while i < expected.len()
        invariant
            i <= expected.len(),
            all == texts_of(expected@),
            missing.deep_view() == unmatched_anchors(all.take(i as int), actual_text@),
        decreases expected.len() - i,
    {
        proof {
            assert(all.take(i + 1).drop_last() =~= all.take(i as int));
            assert(all.take(i + 1).last() == expected@[i as int]@);
        }
        if !required_text_anchor_matches(actual_text, expected[i].as_str()) {
            let item = expected[i].clone();
            let ghost prev = missing@;
            missing.push(item);
            proof {
                lemma_vec_dview(missing);
                lemma_dview_push(prev, item);
            }
        }
        i += 1;
    }
    proof {
        assert(all.take(expected.len() as int) =~= all);
    }
    missing
}

/// A line is backend-neutral when it holds no control character and no `|`
/// (which table renderers insert).
pub open spec fn backend_neutral(line: Seq<char>) -> bool {
    forall|i: int| 0 <= i < line.len() ==> !is_control_char(#[trigger] line[i]) && line[i] != '|'
}

pub fn is_backend_neutral_required_text_anchor(line: &str) -> (r: bool)
    ensures
        r == backend_neutral(line@),
{
    let v = chars_of(line);
    let mut i: usize = 0;
    while i < v.len()
        invariant
            i <= v.len(),
            v@ == line@,
            forall|k: int| 0 <= k < i ==> !is_control_char(#[trigger] v@[k]) && v@[k] != '|',
        decreases v.len() - i,
    {
        if is_control(v[i]) || v[i] == '|' {
            assert(!(!is_control_char(line@[i as int]) && line@[i as int] != '|'));
            return false;
        }
        i += 1;
    }
    true
}

/// A line is substantive when it has a letter and at least four alphanumeric
/// characters.
pub open spec fn substantive(line: Seq<char>) -> bool {
    (exists|i: int| 0 <= i < line.len() && alphabetic(#[trigger] line[i])) && count_where(
        line,
        |c: char| alphanumeric(c),
    ) >= 4
}

pub fn is_substantive_required_text_anchor(line: &str) -> (r: bool)
    ensures
        r == substantive(line@),
{
    let v = chars_of(line);
    let mut has_letter = false;
    let mut alphanumeric_count: usize = 0;
    let mut i: usize = 0;
    while i < v.len()
        invariant
            i <= v.len(),
            has_letter == exists|k: int| 0 <= k < i && alphabetic(#[trigger] v@[k]),
            alphanumeric_count == count_where(v@.take(i as int), |c: char| alphanumeric(c)),
            alphanumeric_count <= i,
        decreases v.len() - i,
    {
        proof {
            assert(v@.take(i + 1).drop_last() =~= v@.take(i as int));
        }
        if is_alphabetic(v[i]) {
            has_letter = true;
        }
        if is_alphanumeric(v[i]) {
            alphanumeric_count += 1;
        }
        i += 1;
    }
    proof {
        assert(v@.take(v.len() as int) =~= v@);
    }
    has_letter && alphanumeric_count >= 4
}

/// Prose lines: at least four words, some alphanumeric character, and at least
/// seven tenths of the alphanumeric characters are letters.
pub open spec fn looks_like_prose(line: Seq<char>) -> bool {
    let alnum = count_where(line, |c: char| alphanumeric(c));
    let alpha = count_where(line, |c: char| alphabetic(c));
    split_whitespace(line).len() >= 4 && alnum > 0 && alpha * 10 >= alnum * 7
}

pub fn line_looks_like_prose_anchor(line: &str) -> (r: bool)
    ensures
        r == looks_like_prose(line@),
{
    let v = chars_of(line);
    let words = split_ws(&v);
    let mut alnum: usize = 0;
    let mut alpha: usize = 0;
    let mut i: usize = 0;
    while i < v.len()
        invariant
            i <= v.len(),
            alnum == count_where(v@.take(i as int), |c: char| alphanumeric(c)),
            alpha == count_where(v@.take(i as int), |c: char| alphabetic(c)),
            alnum <= i,
            alpha <= i,
        decreases v.len() - i,
    {
        proof {
            assert(v@.take(i + 1).drop_last() =~= v@.take(i as int));
        }
        if is_alphanumeric(v[i]) {
            alnum += 1;
        }
        if is_alphabetic(v[i]) {
            alpha += 1;
        }
        i += 1;
    }
    proof {
        assert(v@.take(v.len() as int) =~= v@);
        assert(words@.len() == words.deep_view().len());
    }
    words.len() >= 4 && alnum > 0 && (alpha as u128) * 10 >= (alnum as u128) * 7
}

/// The lower-cased alphanumeric words of `text`.
pub open spec fn normalized_words(text: Seq<char>) -> Seq<Seq<char>> {
    nonempty_pieces(split_by(text, CharSet::NotAlphanumeric)).map_values(
        |w: Seq<char>| lowercase_str(w),
    )
}

pub fn normalize_words(text: &str) -> (words: Vec<String>)
    ensures
        words.deep_view() == normalized_words(text@),
{
    let v = chars_of(text);
    let pieces = keep_nonempty(split_chars(&v, CharSet::NotAlphanumeric));
    let ghost ps = pieces.deep_view();
    let mut words: Vec<String> = Vec::new();
    let mut i: usize = 0;
    while i < pieces.len()
        invariant
            i <= pieces.len(),
            ps == pieces.deep_view(),
            words.deep_view() == ps.take(i as int).map_values(|w: Seq<char>| lowercase_str(w)),
        decreases pieces.len() - i,
    {
        let piece = string_of(&pieces[i]);
        let lower = to_lowercase(piece.as_str());
        let ghost prev = words@;
        words.push(lower);
        proof {
            lemma_vec_dview(words);
            lemma_dview_push(prev, lower);
            assert(words.deep_view() =~= ps.take(i + 1).map_values(
                |w: Seq<char>| lowercase_str(w),
            ));
        }
        i += 1;
    }
    proof {
        assert(ps.take(pieces.len() as int) =~= ps);
    }
    words
}

/// The lower-cased alphanumeric characters of `text`, each expanded to what
/// its lower-case mapping yields.
pub open spec fn normalized_chars(text: Seq<char>) -> Seq<char>
    decreases text.len(),
{
    if text.len() == 0 {
        Seq::empty()
    } else if alphanumeric(text.last()) {
        normalized_chars(text.drop_last()) + lowercase_char(text.last())
    } else {
        normalized_chars(text.drop_last())
    }
}

pub fn normalize_chars(text: &str) -> (r: Vec<char>)
    ensures
        r@ == normalized_chars(text@),
{
    let v = chars_of(text);
    let mut r: Vec<char> = Vec::new();
    let mut i: usize = 0;
    while i < v.len()
        invariant
            i <= v.len(),
            r@ == normalized_chars(v@.take(i as int)),
        decreases v.len() - i,
    {
        proof {
            assert(v@.take(i + 1).drop_last() =~= v@.take(i as int));
        }
        if is_alphanumeric(v[i]) {
            let lower = char_to_lowercase(v[i]);
            append_chars(&mut r, &lower);
        }
        i += 1;
    }
    proof {
        assert(v@.take(v.len() as int) =~= v@);
    }
    r
}

// ---------------------------------------------------------------------------
// Generating an anchor for a page
// ---------------------------------------------------------------------------

/// Whether a trimmed page line is good enough for the given tier of anchor
/// choice; `in_one_span` says whether the line lies within one text span.
/// Tier 0 asks for a prose-like neutral line of 12 to 60 characters, tier 1
/// drops the prose test, tier 2 the length, tier 3 the span, tier 4 the
/// neutrality, and the last tier takes any non-empty line.
pub open spec fn anchor_tier(line: Seq<char>, in_one_span: bool, tier: nat) -> bool {
    let neutral_candidate = substantive(line) && backend_neutral(line) && in_one_span && 12
        <= line.len() <= 60;
    if tier == 0 {
        neutral_candidate && looks_like_prose(line)
    } else if tier == 1 {
        neutral_candidate
    } else if tier == 2 {
        substantive(line) && backend_neutral(line) && in_one_span
    } else if tier == 3 {
        substantive(line) && backend_neutral(line)
    } else if tier == 4 {
        substantive(line)
    } else {
        line.len() > 0
    }
}

/// The first trimmed line that passes the tier.
pub open spec fn first_in_tier(lines: Seq<Seq<char>>, spans: Seq<bool>, tier: nat) -> Option<
    Seq<char>,
>
    decreases lines.len(),
{
    if lines.len() == 0 || spans.len() == 0 {
        None
    } else if anchor_tier(crate::text::trim(lines[0]), spans[0], tier) {
        Some(crate::text::trim(lines[0]))
    } else {
        first_in_tier(lines.drop_first(), spans.drop_first(), tier)
    }
}

/// The line of the first tier that has one.
pub open spec fn chosen_anchor(lines: Seq<Seq<char>>, spans: Seq<bool>, tier: nat) -> Option<
    Seq<char>,
>
    decreases 6 - tier,
{
    if tier >= 6 {
        None
    } else {
        match first_in_tier(lines, spans, tier) {
            Some(l) => Some(l),
            None => chosen_anchor(lines, spans, tier + 1),
        }
    }
}

/// The anchor generated for a page's text: the chosen line, cut to 160
/// characters, or nothing when the page has no non-empty line.
pub open spec fn generated_anchor(page_text: Seq<char>, spans: Seq<bool>) -> Seq<Seq<char>> {
    match chosen_anchor(lines_of(page_text), spans, 0) {
        Some(l) => seq![
            l.take(
                if l.len() <= 160 {
                    l.len() as int
                } else {
                    160int
                },
            ),
        ],
        None => Seq::empty(),
    }
}

fn passes_tier(line: &Vec<char>, in_one_span: bool, tier: u8) -> (r: bool)
    ensures
        r == anchor_tier(line@, in_one_span, tier as nat),
{
    let s = string_of(line);
    let substantive_line = is_substantive_required_text_anchor(s.as_str());
    let neutral = is_backend_neutral_required_text_anchor(s.as_str());
    let neutral_candidate = substantive_line && neutral && in_one_span && 12 <= line.len()
        && line.len() <= 60;
    if tier == 0 {
        neutral_candidate && line_looks_like_prose_anchor(s.as_str())
    } else if tier == 1 {
        neutral_candidate
    } else if tier == 2 {
        substantive_line && neutral && in_one_span
    } else if tier == 3 {
        substantive_line && neutral
    } else if tier == 4 {
        substantive_line
    } else {
        line.len() > 0
    }
}

fn first_in_tier_exec(lines: &Vec<Vec<char>>, spans: &Vec<bool>, tier: u8) -> (r: Option<Vec<char>>)
    requires
        lines.len() == spans.len(),
    ensures
        match first_in_tier(lines.deep_view(), spans@, tier as nat) {
            Some(l) => r matches Some(x) && x@ == l,
            None => r is None,
        },
{
    let ghost ls = lines.deep_view();
    proof {
        lemma_vec_dview(*lines);
    }
    let mut i: usize = 0;
    assert(ls.skip(0) =~= ls);
    assert(spans@.skip(0) =~= spans@);
    while i < lines.len()
        invariant
            i <= lines.len(),
            lines.len() == spans.len(),
            ls == lines.deep_view(),
            ls.len() == lines.len(),
            forall|j: int| 0 <= j < lines.len() ==> #[trigger] ls[j] == lines@[j]@,
            first_in_tier(ls, spans@, tier as nat) == first_in_tier(
                ls.skip(i as int),
                spans@.skip(i as int),
                tier as nat,
            ),
        decreases lines.len() - i,
    {
        let t = crate::text::trim_ws(&lines[i]);
        proof {
            assert(ls.skip(i as int)[0] == ls[i as int]);
            assert(spans@.skip(i as int)[0] == spans@[i as int]);
            assert(ls.skip(i as int).drop_first() =~= ls.skip(i + 1));
            assert(spans@.skip(i as int).drop_first() =~= spans@.skip(i + 1));
        }
        if passes_tier(&t, spans[i], tier) {
            return Some(t);
        }
        i += 1;
    }
    assert(ls.skip(lines.len() as int) =~= Seq::<Seq<char>>::empty());
    None
}

/// The text anchor to expect on a page: a line of its quality text chosen
/// by the tiers of `anchor_tier`, cut to 160 characters. `single_span` tells,
/// line by line, whether the trimmed line lies within one text span.
pub fn generated_page_required_text(page_text: &str, single_span: &Vec<bool>) -> (r: Vec<String>)
    requires
        single_span@.len() == lines_of(page_text@).len(),
    ensures
        r.deep_view() == generated_anchor(page_text@, single_span@),
{
    let v = chars_of(page_text);
    let lines = crate::text::lines_chars(&v);
    proof {
        lemma_vec_dview(lines);
    }
    let mut tier: u8 = 0;
    let mut found: Option<Vec<char>> = None;
    while tier < 6 && found.is_none()
        invariant
            tier <= 6,
            lines.len() == single_span.len(),
            lines.deep_view() == lines_of(page_text@),
            chosen_anchor(lines.deep_view(), single_span@, 0) == (match found {
                Some(l) => Some(l@),
                None => chosen_anchor(lines.deep_view(), single_span@, tier as nat),
            }),
        decreases 6 - tier,
    {
        found = first_in_tier_exec(&lines, single_span, tier);
        tier = tier + 1;
    }
    let mut out: Vec<String> = Vec::new();
    match found {
        Some(line) => {
            let n: usize = if line.len() <= 160 {
                line.len()
            } else {
                160
            };
            let cut = crate::text::subvec(&line, 0, n);
            assert(cut@ =~= line@.take(n as int));
            let s = string_of(&cut);
            out.push(s);
            proof {
                lemma_vec_dview(out);
            }
            assert(out.deep_view() =~= generated_anchor(page_text@, single_span@));
        },
        None => {
            assert(out.deep_view() =~= generated_anchor(page_text@, single_span@));
        },
    }
    out
}

/// The texts in order with later repeats dropped.
pub open spec fn first_occurrences(texts: Seq<Seq<char>>) -> Seq<Seq<char>>
    decreases texts.len(),
{
    if texts.len() == 0 {
        seq![]
    } else {
        let prev = first_occurrences(texts.drop_last());
        if prev.contains(texts.last()) {
            prev
        } else {
            prev.push(texts.last())
        }
    }
}

/// The texts of several lists, one after the other.
pub open spec fn flatten_texts(lists: Seq<Seq<Seq<char>>>) -> Seq<Seq<char>>
    decreases lists.len(),
{
    if lists.len() == 0 {
        seq![]
    } else {
        flatten_texts(lists.drop_last()) + lists.last()
    }
}

fn push_new_texts(out: &mut Vec<String>, texts: &Vec<String>)
    ensures
        final(out).deep_view() == first_occurrences_from(old(out).deep_view(), texts.deep_view()),
{
    let ghost start = out.deep_view();
    let mut i: usize = 0;
    proof {
        lemma_vec_dview(*texts);
    }
    while i < texts.len()
        invariant
            i <= texts@.len(),
            texts.deep_view().len() == texts@.len(),
            forall|k: int| 0 <= k < texts@.len() ==> #[trigger] texts.deep_view()[k] == texts@[k]@,
            out.deep_view() == first_occurrences_from(start, texts.deep_view().take(i as int)),
        decreases texts@.len() - i,
    {
        proof {
            assert(texts.deep_view().take(i + 1).drop_last() =~= texts.deep_view().take(i as int));
            lemma_vec_dview(*out);
        }
        let mut seen = false;
        let mut j: usize = 0;
        while j < out.len()
            invariant
                i < texts@.len(),
                j <= out@.len(),
                out.deep_view().len() == out@.len(),
                forall|k: int| 0 <= k < out@.len() ==> #[trigger] out.deep_view()[k] == out@[k]@,
                seen == exists|k: int| 0 <= k < j && #[trigger] out.deep_view()[k] == texts@[i as int]@,
            decreases out@.len() - j,
        {
            if str_eq(out[j].as_str(), texts[i].as_str()) {
                seen = true;
            }
            proof {
                assert(out.deep_view()[j as int] == out@[j as int]@);
            }
            j += 1;
        }
        proof {
            assert(seen == out.deep_view().contains(texts@[i as int]@));
        }
        if !seen {
            let ghost prev = out@;
            let t = texts[i].clone();
            assert(t@ == texts@[i as int]@);
            out.push(t);
            proof {
                lemma_vec_dview(*out);
                lemma_dview_push(prev, t);
                lemma_vec_dview(*old(out));
            }
        }
        i += 1;
    }
    proof {
        assert(texts.deep_view().take(texts@.len() as int) =~= texts.deep_view());
    }
}

/// `first_occurrences` continued from texts already kept.
pub open spec fn first_occurrences_from(kept: Seq<Seq<char>>, texts: Seq<Seq<char>>) -> Seq<Seq<char>>
    decreases texts.len(),
{
    if texts.len() == 0 {
        kept
    } else {
        let prev = first_occurrences_from(kept, texts.drop_last());
        if prev.contains(texts.last()) {
            prev
        } else {
            prev.push(texts.last())
        }
    }
}

/// The required texts a baseline's output is checked for: the document's,
/// then each page's, then those meant for baselines only, each text once,
/// in the order first met.
pub fn baseline_required_text_expectations(
    required_text: &Vec<String>,
    page_required_text: &Vec<Vec<String>>,
    baseline_required_text: &Vec<String>,
) -> (r: Vec<String>)
    ensures
        r.deep_view() == first_occurrences_from(
            seq![],
            required_text.deep_view() + flatten_texts(page_required_text.deep_view())
                + baseline_required_text.deep_view(),
        ),
{
    let mut out: Vec<String> = Vec::new();
    proof {
        lemma_vec_dview(out);
        assert(out.deep_view() =~= Seq::<Seq<char>>::empty());
    }
    push_new_texts(&mut out, required_text);
    let ghost after_document = required_text.deep_view();
    let mut p: usize = 0;
    while p < page_required_text.len()
        invariant
            p <= page_required_text@.len(),
            out.deep_view() == first_occurrences_from(
                seq![],
                after_document + flatten_texts(page_required_text.deep_view().take(p as int)),
            ),
        decreases page_required_text@.len() - p,
    {
        let ghost before = out.deep_view();
        push_new_texts(&mut out, &page_required_text[p]);
        proof {
            lemma_vec_dview(*page_required_text);
            let pages = page_required_text.deep_view();
            assert(pages.take(p + 1).drop_last() =~= pages.take(p as int));
            assert(pages.take(p + 1).last() == page_required_text@[p as int].deep_view());
            lemma_first_occurrences_concat(
                seq![],
                after_document + flatten_texts(pages.take(p as int)),
                page_required_text@[p as int].deep_view(),
            );
            assert(after_document + flatten_texts(pages.take(p + 1)) =~= after_document + flatten_texts(
                pages.take(p as int),
            ) + page_required_text@[p as int].deep_view());
        }
        p += 1;
    }
    proof {
        lemma_vec_dview(*page_required_text);
        assert(page_required_text.deep_view().take(page_required_text@.len() as int)
            =~= page_required_text.deep_view());
    }
    let ghost before_baseline = out.deep_view();
    push_new_texts(&mut out, baseline_required_text);
    proof {
        lemma_first_occurrences_concat(
            seq![],
            after_document + flatten_texts(page_required_text.deep_view()),
            baseline_required_text.deep_view(),
        );
    }
    out
}

/// Keeping first occurrences of two lists one after the other is keeping
/// them of the first list, then continuing with the second.
pub proof fn lemma_first_occurrences_concat(kept: Seq<Seq<char>>, a: Seq<Seq<char>>, b: Seq<Seq<char>>)
    ensures
        first_occurrences_from(kept, a + b) == first_occurrences_from(first_occurrences_from(kept, a), b),
    decreases b.len(),
{
    if b.len() == 0 {
        assert(a + b =~= a);
    } else {
        lemma_first_occurrences_concat(kept, a, b.drop_last());
        assert((a + b).drop_last() =~= a + b.drop_last());
        assert((a + b).last() == b.last());
    }
}

/// The counts behind the text-recall scores of extracted text against the
/// expected text: the expected words and characters (alphanumeric,
/// lowercased) and those the extracted text lacks, counted with
/// multiplicity. The recalls are `(expected - missing) / expected`, one
/// where nothing is expected.
pub struct TextRecallCounts {
    pub expected_words: usize,
    pub missing_words: Vec<String>,
    pub expected_chars: usize,
    pub missing_chars: usize,
}

pub fn text_recall_counts(expected: &str, actual: &str) -> (r: TextRecallCounts)
    ensures
        r.expected_words == normalized_words(expected@).len(),
        r.missing_words.deep_view().to_multiset() == normalized_words(expected@).to_multiset().sub(
            normalized_words(actual@).to_multiset(),
        ),
        crate::order::is_sorted::<String>(r.missing_words.deep_view()),
        r.expected_chars == normalized_chars(expected@).len(),
        r.missing_chars == normalized_chars(expected@).to_multiset().sub(
            normalized_chars(actual@).to_multiset(),
        ).len(),
{
    broadcast use vstd::seq_lib::group_to_multiset_ensures;

    let expected_words = normalize_words(expected);
    let actual_words = normalize_words(actual);
    let n_words = expected_words.len();
    proof {
        lemma_vec_dview(expected_words);
    }
    let missing_words = crate::order::missing_multiset_items(expected_words, actual_words);
    let expected_chars = normalize_chars(expected);
    let actual_chars = normalize_chars(actual);
    let n_chars = expected_chars.len();
    proof {
        assert(expected_chars.deep_view() =~= expected_chars@);
        assert(actual_chars.deep_view() =~= actual_chars@);
    }
    let missing_chars = crate::order::missing_multiset_items(expected_chars, actual_chars);
    proof {
        assert(missing_chars.deep_view().len() == missing_chars@.len());
    }
    TextRecallCounts {
        expected_words: n_words,
        missing_words,
        expected_chars: n_chars,
        missing_chars: missing_chars.len(),
    }
}

proof fn lemma_first_in_tier_is_line(lines: Seq<Seq<char>>, spans: Seq<bool>, tier: nat)
    ensures
        first_in_tier(lines, spans, tier) matches Some(l) ==> exists|k: int|
            0 <= k < lines.len() && l == crate::text::trim(#[trigger] lines[k]),
    decreases lines.len(),
{
    if lines.len() > 0 && spans.len() > 0 {
        if !anchor_tier(crate::text::trim(lines[0]), spans[0], tier) {
            lemma_first_in_tier_is_line(lines.drop_first(), spans.drop_first(), tier);
            match first_in_tier(lines, spans, tier) {
                Some(l) => {
                    let k = choose|k: int|
                        0 <= k < lines.drop_first().len() && l == crate::text::trim(
                            #[trigger] lines.drop_first()[k],
                        );
                    assert(lines[k + 1] == lines.drop_first()[k]);
                },
                None => {},
            }
        }
    }
}

proof fn lemma_chosen_anchor_is_line(lines: Seq<Seq<char>>, spans: Seq<bool>, tier: nat)
    ensures
        chosen_anchor(lines, spans, tier) matches Some(l) ==> exists|k: int|
            0 <= k < lines.len() && l == crate::text::trim(#[trigger] lines[k]),
    decreases 6 - tier,
{
    if tier < 6 {
        lemma_first_in_tier_is_line(lines, spans, tier);
        lemma_chosen_anchor_is_line(lines, spans, tier + 1);
    }
}

/// The anchor generated for a page's text occurs in that text, so the text
/// it was generated from matches it.
pub proof fn lemma_generated_anchor_matches(page_text: Seq<char>, spans: Seq<bool>)
    ensures
        unmatched_anchors(generated_anchor(page_text, spans), page_text).len() == 0,
{
    let lines = lines_of(page_text);
    lemma_chosen_anchor_is_line(lines, spans, 0);
    let g = generated_anchor(page_text, spans);
    match chosen_anchor(lines, spans, 0) {
        Some(l) => {
            let k = choose|k: int| 0 <= k < lines.len() && l == crate::text::trim(#[trigger] lines[k]);
            crate::text::lemma_lines_in_text(page_text, k);
            let i = choose|i: int| occurs_at(page_text, lines[k], i);
            crate::text::lemma_trim_in_text(lines[k]);
            let lead = leading_count(lines[k], CharSet::Whitespace) as int;
            crate::text::lemma_occurs_trans(page_text, lines[k], l, i, lead);
            let n = if l.len() <= 160 {
                l.len() as int
            } else {
                160int
            };
            crate::text::lemma_take_in_text(l, n);
            crate::text::lemma_occurs_trans(page_text, l, l.take(n), i + lead, 0);
            assert(g == seq![l.take(n)]);
            assert(anchor_matches(page_text, l.take(n)));
            assert(g.drop_last() =~= Seq::<Seq<char>>::empty());
            assert(unmatched_anchors(g.drop_last(), page_text).len() == 0);
        },
        None => {
            assert(g == Seq::<Seq<char>>::empty());
        },
    }
}

} // verus!
