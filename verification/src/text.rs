//! Character classes and the string primitives the rest of the library is
//! built from: trimming, splitting, line breaking, joining and searching.
//!
//! Every operation works on the character sequence (`Seq<char>`) that a
//! `str`/`String` views as, and each executable function is proved to compute
//! exactly the spec function of the same shape.
use vstd::prelude::*;

use crate::views::{dview, lemma_dview_push, lemma_vec_dview};

verus! {

broadcast use crate::views::lemma_char_vec_deep_view;

/// The Unicode `White_Space` property, which is what `char::is_whitespace`
/// tests.
pub open spec fn is_unicode_whitespace(c: char) -> bool {
    ||| ('\t' <= c && c <= '\r')
    ||| c == ' '
    ||| c == '\u{85}'
    ||| c == '\u{A0}'
    ||| c == '\u{1680}'
    ||| ('\u{2000}' <= c && c <= '\u{200A}')
    ||| c == '\u{2028}'
    ||| c == '\u{2029}'
    ||| c == '\u{202F}'
    ||| c == '\u{205F}'
    ||| c == '\u{3000}'
}

/// ASCII whitespace as `char::is_ascii_whitespace` defines it (no vertical tab).
pub open spec fn is_ascii_whitespace_char(c: char) -> bool {
    c == ' ' || c == '\t' || c == '\n' || c == '\x0C' || c == '\r'
}

pub open spec fn is_ascii_digit_char(c: char) -> bool {
    '0' <= c && c <= '9'
}

pub open spec fn is_ascii_upper_char(c: char) -> bool {
    'A' <= c && c <= 'Z'
}

pub open spec fn is_ascii_lower_char(c: char) -> bool {
    'a' <= c && c <= 'z'
}

pub open spec fn is_ascii_alphanumeric_char(c: char) -> bool {
    is_ascii_digit_char(c) || is_ascii_upper_char(c) || is_ascii_lower_char(c)
}

/// ASCII punctuation: the four printable ranges `!`..`/`, `:`..`@`, `[`..`` ` ``
/// and `{`..`~`.
pub open spec fn is_ascii_punctuation_char(c: char) -> bool {
    ||| ('!' <= c && c <= '/')
    ||| (':' <= c && c <= '@')
    ||| ('[' <= c && c <= '`')
    ||| ('{' <= c && c <= '~')
}

/// The general category `Cc`, which is what `char::is_control` tests.
pub open spec fn is_control_char(c: char) -> bool {
    c <= '\u{1F}' || ('\u{7F}' <= c && c <= '\u{9F}')
}

/// Lower-cases ASCII letters and leaves every other character alone.
pub open spec fn ascii_lower(c: char) -> char {
    if is_ascii_upper_char(c) {
        ((c as u32) + 32) as char
    } else {
        c
    }
}

pub fn is_whitespace(c: char) -> (b: bool)
    ensures
        b == is_unicode_whitespace(c),
{
    ('\t' <= c && c <= '\r') || c == ' ' || c == '\u{85}' || c == '\u{A0}' || c == '\u{1680}'
        || ('\u{2000}' <= c && c <= '\u{200A}') || c == '\u{2028}' || c == '\u{2029}' || c
        == '\u{202F}' || c == '\u{205F}' || c == '\u{3000}'
}

pub fn is_ascii_digit(c: char) -> (b: bool)
    ensures
        b == is_ascii_digit_char(c),
{
    '0' <= c && c <= '9'
}

pub fn is_ascii_alphanumeric(c: char) -> (b: bool)
    ensures
        b == is_ascii_alphanumeric_char(c),
{
    ('0' <= c && c <= '9') || ('A' <= c && c <= 'Z') || ('a' <= c && c <= 'z')
}

pub fn is_ascii_punctuation(c: char) -> (b: bool)
    ensures
        b == is_ascii_punctuation_char(c),
{
    ('!' <= c && c <= '/') || (':' <= c && c <= '@') || ('[' <= c && c <= '`') || ('{' <= c
        && c <= '~')
}

pub fn is_control(c: char) -> (b: bool)
    ensures
        b == is_control_char(c),
{
    c <= '\u{1F}' || ('\u{7F}' <= c && c <= '\u{9F}')
}

/// A set of characters that a trim or a split works with.
#[derive(Clone, Copy)]
pub enum CharSet {
    /// Unicode whitespace (`char::is_whitespace`).
    Whitespace,
    /// ASCII whitespace other than the given character.
    AsciiWhitespaceExcept(char),
    /// Exactly this character.
    Only(char),
    /// Every character that `char::is_alphanumeric` rejects.
    NotAlphanumeric,
}

pub open spec fn in_set(set: CharSet, c: char) -> bool {
    match set {
        CharSet::Whitespace => is_unicode_whitespace(c),
        CharSet::AsciiWhitespaceExcept(d) => is_ascii_whitespace_char(c) && c != d,
        CharSet::Only(d) => c == d,
        CharSet::NotAlphanumeric => !crate::unicode::alphanumeric(c),
    }
}

pub fn set_contains(set: CharSet, c: char) -> (b: bool)
    ensures
        b == in_set(set, c),
{
    match set {
        CharSet::Whitespace => is_whitespace(c),
        CharSet::AsciiWhitespaceExcept(d) => (c == ' ' || c == '\t' || c == '\n' || c == '\x0C'
            || c == '\r') && c != d,
        CharSet::Only(d) => c == d,
        CharSet::NotAlphanumeric => !crate::unicode::is_alphanumeric(c),
    }
}

// ---------------------------------------------------------------------------
// Conversions between `str`/`String` and character vectors.
// ---------------------------------------------------------------------------

/// Appends one character to a string (`String::push`).
#[verifier::external_body]
pub(crate) fn push_char(s: &mut String, c: char)
    ensures
        final(s)@ == old(s)@.push(c),
{
    s.push(c);
}

/// The characters of a string slice, in order.
pub fn chars_of(s: &str) -> (v: Vec<char>)
    ensures
        v@ == s@,
{
    let mut v: Vec<char> = Vec::new();
    for c in it: s.chars()
        invariant
            v@ == it.seq().take(it.index() as int),
            it.seq() == s@,
    {
        v.push(c);
    }
    v
}

/// The string made of the given characters.
pub fn string_of(v: &Vec<char>) -> (s: String)
    ensures
        s@ == v@,
{
    let mut s = String::new();
    let mut i: usize = 0;
    while i < v.len()
        invariant
            i <= v.len(),
            s@ == v@.take(i as int),
        decreases v.len() - i,
    {
        push_char(&mut s, v[i]);
        i += 1;
        assert(v@.take(i as int) == v@.take((i - 1) as int).push(v@[i - 1]));
    }
    assert(v@.take(v.len() as int) == v@);
    s
}

/// Copies a string.
pub fn copy_string(s: &String) -> (r: String)
    ensures
        r@ == s@,
{
    s.clone()
}

/// Turns character pieces into strings.
pub fn strings_of(pieces: &Vec<Vec<char>>) -> (out: Vec<String>)
    ensures
        out.deep_view() == pieces.deep_view(),
{
    let mut out: Vec<String> = Vec::new();
    let mut i: usize = 0;
    while i < pieces.len()
        invariant
            i <= pieces.len(),
            out.deep_view() == pieces.deep_view().take(i as int),
        decreases pieces.len() - i,
    {
        let s = string_of(&pieces[i]);
        let ghost prev = out@;
        out.push(s);
        proof {
            lemma_vec_dview(out);
            lemma_dview_push(prev, s);
        }
        i += 1;
        assert(out.deep_view() =~= pieces.deep_view().take(i as int));
    }
    assert(pieces.deep_view().take(pieces.len() as int) =~= pieces.deep_view());
    out
}

pub fn chars_eq(a: &Vec<char>, b: &Vec<char>) -> (r: bool)
    ensures
        r == (a@ == b@),
{
    if a.len() != b.len() {
        return false;
    }
    let mut i: usize = 0;
    while i < a.len()
        invariant
            i <= a.len(),
            a.len() == b.len(),
            forall|j: int| 0 <= j < i ==> a@[j] == b@[j],
        decreases a.len() - i,
    {
        if a[i] != b[i] {
            return false;
        }
        i += 1;
    }
    assert(a@ =~= b@);
    true
}

pub fn str_eq(a: &str, b: &str) -> (r: bool)
    ensures
        r == (a@ == b@),
{
    let av = chars_of(a);
    let bv = chars_of(b);
    chars_eq(&av, &bv)
}

// ---------------------------------------------------------------------------
// Trimming
// ---------------------------------------------------------------------------

/// How many characters at the front of `s` belong to `set`.
pub open spec fn leading_count(s: Seq<char>, set: CharSet) -> nat
    decreases s.len(),
{
    if s.len() > 0 && in_set(set, s[0]) {
        1 + leading_count(s.drop_first(), set)
    } else {
        0
    }
}

/// How many characters at the back of `s` belong to `set`.
pub open spec fn trailing_count(s: Seq<char>, set: CharSet) -> nat
    decreases s.len(),
{
    if s.len() > 0 && in_set(set, s.last()) {
        1 + trailing_count(s.drop_last(), set)
    } else {
        0
    }
}

/// `s` without its leading characters from `set` (`str::trim_start_matches`).
pub open spec fn trim_start_set(s: Seq<char>, set: CharSet) -> Seq<char> {
    s.subrange(leading_count(s, set) as int, s.len() as int)
}

/// `s` without its trailing characters from `set` (`str::trim_end_matches`).
pub open spec fn trim_end_set(s: Seq<char>, set: CharSet) -> Seq<char> {
    s.subrange(0, s.len() - trailing_count(s, set))
}

/// `s` without leading and trailing characters from `set` (`str::trim_matches`).
pub open spec fn trim_set(s: Seq<char>, set: CharSet) -> Seq<char> {
    trim_end_set(trim_start_set(s, set), set)
}

/// `str::trim`.
pub open spec fn trim(s: Seq<char>) -> Seq<char> {
    trim_set(s, CharSet::Whitespace)
}

pub proof fn lemma_leading_count_bound(s: Seq<char>, set: CharSet)
    ensures
        leading_count(s, set) <= s.len(),
        forall|i: int| 0 <= i < leading_count(s, set) ==> in_set(set, #[trigger] s[i]),
        leading_count(s, set) < s.len() ==> !in_set(set, s[leading_count(s, set) as int]),
    decreases s.len(),
{
    if s.len() > 0 && in_set(set, s[0]) {
        lemma_leading_count_bound(s.drop_first(), set);
        assert forall|i: int| 0 <= i < leading_count(s, set) implies in_set(
            set,
            #[trigger] s[i],
        ) by {
            if i > 0 {
                assert(s[i] == s.drop_first()[i - 1]);
            }
        }
    }
}

pub proof fn lemma_trailing_count_bound(s: Seq<char>, set: CharSet)
    ensures
        trailing_count(s, set) <= s.len(),
        forall|i: int|
            s.len() - trailing_count(s, set) <= i < s.len() ==> in_set(set, #[trigger] s[i]),
        trailing_count(s, set) < s.len() ==> !in_set(
            set,
            s[s.len() - trailing_count(s, set) - 1],
        ),
    decreases s.len(),
{
    if s.len() > 0 && in_set(set, s.last()) {
        lemma_trailing_count_bound(s.drop_last(), set);
        assert forall|i: int| s.len() - trailing_count(s, set) <= i < s.len() implies in_set(
            set,
            #[trigger] s[i],
        ) by {
            if i < s.len() - 1 {
                assert(s[i] == s.drop_last()[i]);
            }
        }
    }
}

/// Characterizes the leading count by the first position outside the set.
pub proof fn lemma_leading_count_unique(s: Seq<char>, set: CharSet, k: int)
    requires
        0 <= k <= s.len(),
        forall|i: int| 0 <= i < k ==> in_set(set, #[trigger] s[i]),
        k < s.len() ==> !in_set(set, s[k]),
    ensures
        leading_count(s, set) == k,
    decreases s.len(),
{
    if k > 0 {
        assert(in_set(set, s[0]));
        assert forall|i: int| 0 <= i < k - 1 implies in_set(set, #[trigger] s.drop_first()[i]) by {
            assert(s.drop_first()[i] == s[i + 1]);
        }
        if k - 1 < s.drop_first().len() {
            assert(s.drop_first()[k - 1] == s[k]);
        }
        lemma_leading_count_unique(s.drop_first(), set, k - 1);
    }
}

/// Characterizes the trailing count by the last position outside the set.
pub proof fn lemma_trailing_count_unique(s: Seq<char>, set: CharSet, k: int)
    requires
        0 <= k <= s.len(),
        forall|i: int| s.len() - k <= i < s.len() ==> in_set(set, #[trigger] s[i]),
        k < s.len() ==> !in_set(set, s[s.len() - k - 1]),
    ensures
        trailing_count(s, set) == k,
    decreases s.len(),
{
    if k > 0 {
        assert(in_set(set, s[s.len() - 1]));
        assert forall|i: int|
            s.drop_last().len() - (k - 1) <= i < s.drop_last().len() implies in_set(
            set,
            #[trigger] s.drop_last()[i],
        ) by {
            assert(s.drop_last()[i] == s[i]);
        }
        if k - 1 < s.drop_last().len() {
            assert(s.drop_last()[s.drop_last().len() - (k - 1) - 1] == s[s.len() - k - 1]);
        }
        lemma_trailing_count_unique(s.drop_last(), set, k - 1);
    }
}

/// Trimming what is already trimmed changes nothing.
pub proof fn lemma_trim_set_idempotent(s: Seq<char>, set: CharSet)
    ensures
        trim_set(trim_set(s, set), set) == trim_set(s, set),
{
    let a = trim_start_set(s, set);
    let t = trim_set(s, set);
    lemma_leading_count_bound(s, set);
    lemma_trailing_count_bound(a, set);
    if t.len() > 0 {
        assert(t[0] == a[0]);
        assert(a[0] == s[leading_count(s, set) as int]);
        lemma_leading_count_unique(t, set, 0);
        assert(trim_start_set(t, set) =~= t);
        assert(t[t.len() - 1] == a[a.len() - trailing_count(a, set) - 1]);
        lemma_trailing_count_unique(t, set, 0);
        assert(trim_end_set(t, set) =~= t);
    } else {
        assert(trim_set(t, set) =~= t);
    }
}

/// The bounds `[start, end)` that trimming keeps.
pub fn trim_bounds(s: &Vec<char>, set: CharSet) -> (r: (usize, usize))
    ensures
        r.0 <= r.1 <= s.len(),
        s@.subrange(r.0 as int, r.1 as int) == trim_set(s@, set),
{
    let mut start: usize = 0;
    while start < s.len() && set_contains(set, s[start])
        invariant
            start <= s.len(),
            forall|i: int| 0 <= i < start ==> in_set(set, #[trigger] s@[i]),
        decreases s.len() - start,
    {
        start += 1;
    }
    proof {
        lemma_leading_count_unique(s@, set, start as int);
    }
    let ghost t = s@.subrange(start as int, s@.len() as int);
    let mut end: usize = s.len();
    while end > start && set_contains(set, s[end - 1])
        invariant
            start <= end <= s.len(),
            t == s@.subrange(start as int, s@.len() as int),
            forall|i: int| end <= i < s.len() ==> in_set(set, #[trigger] s@[i]),
        decreases end - start,
    {
        end -= 1;
    }
    proof {
        let k = (s.len() - end) as int;
        assert forall|i: int| t.len() - k <= i < t.len() implies in_set(set, #[trigger] t[i]) by {
            assert(t[i] == s@[i + start]);
        }
        if k < t.len() {
            assert(t[t.len() - k - 1] == s@[end - 1]);
        }
        lemma_trailing_count_unique(t, set, k);
        assert(s@.subrange(start as int, end as int) =~= t.subrange(0, t.len() - k));
    }
    (start, end)
}

pub fn subvec(s: &Vec<char>, start: usize, end: usize) -> (r: Vec<char>)
    requires
        start <= end <= s.len(),
    ensures
        r@ == s@.subrange(start as int, end as int),
{
    let mut r: Vec<char> = Vec::new();
    let mut i: usize = start;
    while i < end
        invariant
            start <= i <= end <= s.len(),
            r@ == s@.subrange(start as int, i as int),
        decreases end - i,
    {
        r.push(s[i]);
        i += 1;
        assert(r@ =~= s@.subrange(start as int, i as int));
    }
    r
}

/// Trims the characters of `set` from both ends.
pub fn trim_chars(s: &Vec<char>, set: CharSet) -> (r: Vec<char>)
    ensures
        r@ == trim_set(s@, set),
{
    let (a, b) = trim_bounds(s, set);
    subvec(s, a, b)
}

/// `str::trim` on an owned character vector.
pub fn trim_ws(s: &Vec<char>) -> (r: Vec<char>)
    ensures
        r@ == trim(s@),
{
    trim_chars(s, CharSet::Whitespace)
}

/// `str::trim`, returning an owned string.
pub fn trim_str(s: &str) -> (r: String)
    ensures
        r@ == trim(s@),
{
    let v = chars_of(s);
    let t = trim_ws(&v);
    string_of(&t)
}

// ---------------------------------------------------------------------------
// Splitting
// ---------------------------------------------------------------------------

/// The pieces between the characters of `set` (`str::split` with a character
/// pattern). There is always one more piece than there are separators.
pub open spec fn split_by(s: Seq<char>, set: CharSet) -> Seq<Seq<char>>
    decreases s.len(),
{
    if s.len() == 0 {
        seq![Seq::<char>::empty()]
    } else {
        let prev = split_by(s.drop_last(), set);
        if in_set(set, s.last()) {
            prev.push(Seq::<char>::empty())
        } else {
            prev.update(prev.len() - 1, prev.last().push(s.last()))
        }
    }
}

pub proof fn lemma_split_by_nonempty(s: Seq<char>, set: CharSet)
    ensures
        split_by(s, set).len() >= 1,
    decreases s.len(),
{
    if s.len() > 0 {
        lemma_split_by_nonempty(s.drop_last(), set);
    }
}

/// Appending text without separators extends the last piece.
pub proof fn lemma_split_by_append_plain(s: Seq<char>, t: Seq<char>, set: CharSet)
    requires
        forall|i: int| 0 <= i < t.len() ==> !in_set(set, #[trigger] t[i]),
    ensures
        split_by(s + t, set) == split_by(s, set).update(
            split_by(s, set).len() - 1,
            split_by(s, set).last() + t,
        ),
    decreases t.len(),
{
    lemma_split_by_nonempty(s, set);
    let p = split_by(s, set);
    if t.len() == 0 {
        assert(s + t =~= s);
        assert(p.last() + t =~= p.last());
        assert(p.update(p.len() - 1, p.last() + t) =~= p);
    } else {
        let tp = t.drop_last();
        assert forall|i: int| 0 <= i < tp.len() implies !in_set(set, #[trigger] tp[i]) by {
            assert(tp[i] == t[i]);
        }
        lemma_split_by_append_plain(s, tp, set);
        assert((s + t).drop_last() =~= s + tp);
        assert((s + t).last() == t.last());
        assert(!in_set(set, t[t.len() - 1]));
        assert((p.last() + tp).push(t.last()) =~= p.last() + t);
        assert(split_by(s + t, set) =~= p.update(p.len() - 1, p.last() + t));
    }
}

/// A separator followed by text without separators starts one more piece.
pub proof fn lemma_split_by_sep_then_plain(x: Seq<char>, sep: char, r: Seq<char>, set: CharSet)
    requires
        in_set(set, sep),
        forall|i: int| 0 <= i < r.len() ==> !in_set(set, #[trigger] r[i]),
    ensures
        split_by(x.push(sep) + r, set) == split_by(x, set).push(r),
{
    lemma_split_by_append_plain(x.push(sep), r, set);
    assert(x.push(sep).drop_last() =~= x);
    assert(x.push(sep).last() == sep);
    let p = split_by(x, set);
    assert(split_by(x.push(sep), set) == p.push(Seq::<char>::empty()));
    assert(Seq::<char>::empty() + r =~= r);
    assert(p.push(Seq::<char>::empty()).update(p.len() as int, r) =~= p.push(r));
}

/// The pieces of `ps` that are not empty, in order.
pub open spec fn nonempty_pieces(ps: Seq<Seq<char>>) -> Seq<Seq<char>>
    decreases ps.len(),
{
    if ps.len() == 0 {
        ps
    } else {
        let prev = nonempty_pieces(ps.drop_last());
        if ps.last().len() > 0 {
            prev.push(ps.last())
        } else {
            prev
        }
    }
}

/// `str::split_whitespace`.
pub open spec fn split_whitespace(s: Seq<char>) -> Seq<Seq<char>> {
    nonempty_pieces(split_by(s, CharSet::Whitespace))
}

/// A word: at least one character, none of them whitespace.
pub open spec fn is_word(w: Seq<char>) -> bool {
    w.len() > 0 && forall|i: int| 0 <= i < w.len() ==> !is_unicode_whitespace(#[trigger] w[i])
}

/// Whether every item is a word.
pub open spec fn all_words(ws: Seq<Seq<char>>) -> bool {
    forall|k: int| 0 <= k < ws.len() ==> is_word(#[trigger] ws[k])
}

/// No piece between separators holds a separator.
pub proof fn lemma_split_by_plain(s: Seq<char>, set: CharSet)
    ensures
        forall|k: int, i: int|
            0 <= k < split_by(s, set).len() && 0 <= i < split_by(s, set)[k].len() ==> !in_set(
                set,
                #[trigger] split_by(s, set)[k][i],
            ),
    decreases s.len(),
{
    if s.len() > 0 {
        lemma_split_by_plain(s.drop_last(), set);
        lemma_split_by_nonempty(s.drop_last(), set);
        let prev = split_by(s.drop_last(), set);
        let cur = split_by(s, set);
        assert forall|k: int, i: int| 0 <= k < cur.len() && 0 <= i < cur[k].len() implies !in_set(
            set,
            #[trigger] cur[k][i],
        ) by {
            if !in_set(set, s.last()) && k == prev.len() - 1 {
                assert(cur[k] == prev.last().push(s.last()));
                if i < prev.last().len() {
                    assert(cur[k][i] == prev[k][i]);
                }
            } else if k < prev.len() {
                assert(cur[k] == prev[k]);
            }
        }
    }
}

/// The non-empty pieces of pieces without whitespace are words.
pub proof fn lemma_nonempty_pieces_words(ps: Seq<Seq<char>>)
    requires
        forall|k: int, i: int| 0 <= k < ps.len() && 0 <= i < ps[k].len() ==> !is_unicode_whitespace(#[trigger] ps[k][i]),
    ensures
        all_words(nonempty_pieces(ps)),
    decreases ps.len(),
{
    if ps.len() > 0 {
        let p = ps.drop_last();
        assert forall|k: int, i: int| 0 <= k < p.len() && 0 <= i < p[k].len() implies !is_unicode_whitespace(
            #[trigger] p[k][i],
        ) by {
            assert(p[k] == ps[k]);
        }
        lemma_nonempty_pieces_words(p);
        assert(ps.last() == ps[ps.len() - 1]);
    }
}

/// What `split_whitespace` gives are words.
pub proof fn lemma_split_whitespace_words(s: Seq<char>)
    ensures
        all_words(split_whitespace(s)),
{
    lemma_split_by_plain(s, CharSet::Whitespace);
    lemma_nonempty_pieces_words(split_by(s, CharSet::Whitespace));
}

/// Words joined with single spaces split back into the same words.
pub proof fn lemma_split_joined_words(ws: Seq<Seq<char>>)
    requires
        all_words(ws),
    ensures
        split_whitespace(join_with(ws, seq![' '])) == ws,
    decreases ws.len(),
{
    let empty = Seq::<char>::empty();
    if ws.len() == 0 {
        assert(split_by(empty, CharSet::Whitespace) == seq![empty]);
        assert(seq![empty].drop_last() =~= Seq::<Seq<char>>::empty());
        assert(nonempty_pieces(Seq::<Seq<char>>::empty()) == Seq::<Seq<char>>::empty());
        assert(nonempty_pieces(seq![empty]) =~= ws);
    } else if ws.len() == 1 {
        let w = ws[0];
        assert(is_word(w));
        assert forall|i: int| 0 <= i < w.len() implies !in_set(CharSet::Whitespace, #[trigger] w[i]) by {}
        lemma_split_by_append_plain(empty, w, CharSet::Whitespace);
        assert(empty + w =~= w);
        assert(seq![empty].update(0, empty + w) =~= seq![w]);
        assert(seq![w].drop_last() =~= Seq::<Seq<char>>::empty());
        assert(nonempty_pieces(Seq::<Seq<char>>::empty()) == Seq::<Seq<char>>::empty());
        assert(Seq::<Seq<char>>::empty().push(w) =~= ws);
        assert(nonempty_pieces(seq![w]) =~= ws);
    } else {
        let front = ws.drop_last();
        let w = ws.last();
        assert(is_word(ws[ws.len() - 1]));
        assert forall|k: int| 0 <= k < front.len() implies is_word(#[trigger] front[k]) by {
            assert(front[k] == ws[k]);
        }
        lemma_split_joined_words(front);
        let x = join_with(front, seq![' ']);
        assert forall|i: int| 0 <= i < w.len() implies !in_set(CharSet::Whitespace, #[trigger] w[i]) by {}
        lemma_split_by_sep_then_plain(x, ' ', w, CharSet::Whitespace);
        assert(x + seq![' '] + w =~= x.push(' ') + w);
        let p = split_by(x, CharSet::Whitespace);
        assert(p.push(w).drop_last() =~= p);
        assert(front.push(w) =~= ws);
    }
}

/// Words joined with single spaces neither start nor end with whitespace,
/// and hold no two whitespace characters in a row.
pub proof fn lemma_joined_words_spacing(ws: Seq<Seq<char>>)
    requires
        all_words(ws),
    ensures
        ws.len() > 0 ==> join_with(ws, seq![' ']).len() > 0,
        join_with(ws, seq![' ']).len() > 0 ==> !is_unicode_whitespace(join_with(ws, seq![' '])[0])
            && !is_unicode_whitespace(join_with(ws, seq![' ']).last()),
        forall|i: int|
            0 <= i < join_with(ws, seq![' ']).len() - 1 ==> !(is_unicode_whitespace(
                #[trigger] join_with(ws, seq![' '])[i],
            ) && is_unicode_whitespace(join_with(ws, seq![' '])[i + 1])),
    decreases ws.len(),
{
    let n = join_with(ws, seq![' ']);
    if ws.len() == 1 {
        assert(is_word(ws[0]));
    } else if ws.len() > 1 {
        let front = ws.drop_last();
        let w = ws.last();
        assert(is_word(ws[ws.len() - 1]));
        assert forall|k: int| 0 <= k < front.len() implies is_word(#[trigger] front[k]) by {
            assert(front[k] == ws[k]);
        }
        lemma_joined_words_spacing(front);
        let x = join_with(front, seq![' ']);
        assert(n == x + seq![' '] + w);
        let xl = x.len() as int;
        assert(n[0] == x[0]);
        assert(n.last() == w[w.len() - 1]);
        assert forall|i: int| 0 <= i < n.len() - 1 implies !(is_unicode_whitespace(#[trigger] n[i])
            && is_unicode_whitespace(n[i + 1])) by {
            if i < xl - 1 {
                assert(n[i] == x[i]);
                assert(n[i + 1] == x[i + 1]);
            } else if i == xl - 1 {
                assert(n[i] == x[xl - 1]);
            } else if i == xl {
                assert(n[i + 1] == w[0]);
            } else {
                assert(n[i] == w[i - xl - 1]);
            }
        }
    }
}

/// Splits at every character of `set`.
pub fn split_chars(s: &Vec<char>, set: CharSet) -> (pieces: Vec<Vec<char>>)
    ensures
        pieces.deep_view() == split_by(s@, set),
{
    let mut pieces: Vec<Vec<char>> = Vec::new();
    let mut cur: Vec<char> = Vec::new();
    let mut i: usize = 0;
    proof {
        assert(s@.take(0) =~= Seq::<char>::empty());
    }
    while i < s.len()
        invariant
            i <= s.len(),
            pieces.deep_view().push(cur@) == split_by(s@.take(i as int), set),
        decreases s.len() - i,
    {
        let c = s[i];
        let ghost prev = split_by(s@.take(i as int), set);
        proof {
            assert(s@.take(i + 1).drop_last() =~= s@.take(i as int));
            assert(s@.take(i + 1).last() == c);
            lemma_split_by_nonempty(s@.take(i as int), set);
        }
        let ghost before = pieces@;
        if set_contains(set, c) {
            let done = cur;
            pieces.push(done);
            proof {
                lemma_vec_dview(pieces);
                lemma_dview_push(before, done);
            }
            cur = Vec::new();
            proof {
                assert(pieces.deep_view().push(cur@) =~= prev.push(Seq::<char>::empty()));
            }
        } else {
            cur.push(c);
            proof {
                assert(pieces.deep_view().push(cur@) =~= prev.update(
                    prev.len() - 1,
                    prev.last().push(c),
                ));
            }
        }
        i += 1;
    }
    proof {
        assert(s@.take(s.len() as int) =~= s@);
    }
    let ghost before = pieces@;
    pieces.push(cur);
    proof {
        lemma_vec_dview(pieces);
        lemma_dview_push(before, cur);
    }
    pieces
}

/// Drops the empty pieces.
pub fn keep_nonempty(ps: Vec<Vec<char>>) -> (out: Vec<Vec<char>>)
    ensures
        out.deep_view() == nonempty_pieces(ps.deep_view()),
{
    let mut out: Vec<Vec<char>> = Vec::new();
    let mut i: usize = 0;
    let ghost all = ps.deep_view();
    let mut ps = ps;
    while i < ps.len()
        invariant
            i <= ps.len(),
            ps.deep_view() == all,
            out.deep_view() == nonempty_pieces(all.take(i as int)),
        decreases ps.len() - i,
    {
        proof {
            assert(all.take(i + 1).drop_last() =~= all.take(i as int));
        }
        if ps[i].len() > 0 {
            let piece = subvec(&ps[i], 0, ps[i].len());
            proof {
                assert(piece@ =~= ps[i as int]@);
            }
            let ghost before = out@;
            out.push(piece);
            proof {
                lemma_vec_dview(out);
                lemma_dview_push(before, piece);
                assert(out.deep_view() =~= nonempty_pieces(all.take(i as int)).push(all[i as int]));
            }
        }
        i += 1;
    }
    proof {
        assert(all.take(ps.len() as int) =~= all);
    }
    out
}

/// `str::split_whitespace` on a character vector.
pub fn split_ws(s: &Vec<char>) -> (words: Vec<Vec<char>>)
    ensures
        words.deep_view() == split_whitespace(s@),
{
    let pieces = split_chars(s, CharSet::Whitespace);
    keep_nonempty(pieces)
}

// ---------------------------------------------------------------------------
// Lines
// ---------------------------------------------------------------------------

/// A line piece without the carriage return that ends it, if any.
pub open spec fn strip_cr(piece: Seq<char>) -> Seq<char> {
    if piece.len() > 0 && piece.last() == '\r' {
        piece.drop_last()
    } else {
        piece
    }
}

/// `str::lines`: the text split at `\n`, each line that a `\n` ended losing one
/// trailing `\r`, and no final empty line when the text is empty or ends with
/// `\n`.
pub open spec fn lines_of(s: Seq<char>) -> Seq<Seq<char>> {
    let ps = split_by(s, CharSet::Only('\n'));
    let n = ps.len();
    if s.len() == 0 || s.last() == '\n' {
        Seq::new((n - 1) as nat, |i: int| strip_cr(ps[i]))
    } else {
        Seq::new(n, |i: int| if i < n - 1 { strip_cr(ps[i]) } else { ps[i] })
    }
}

/// The lines of a character vector.
pub fn lines_chars(s: &Vec<char>) -> (lines: Vec<Vec<char>>)
    ensures
        lines.deep_view() == lines_of(s@),
{
    let pieces = split_chars(s, CharSet::Only('\n'));
    let ghost ps = pieces.deep_view();
    proof {
        lemma_split_by_nonempty(s@, CharSet::Only('\n'));
    }
    let n = pieces.len();
    let ends_with_newline = s.len() == 0 || s[s.len() - 1] == '\n';
    let keep = if ends_with_newline {
        n - 1
    } else {
        n
    };
    let mut lines: Vec<Vec<char>> = Vec::new();
    let mut i: usize = 0;
    while i < keep
        invariant
            i <= keep <= n,
            n == pieces.len(),
            ps == pieces.deep_view(),
            ends_with_newline == (s@.len() == 0 || s@.last() == '\n'),
            keep == (if ends_with_newline {
                n - 1
            } else {
                n as int
            }),
            lines.deep_view().len() == i,
            forall|j: int|
                0 <= j < i ==> #[trigger] lines.deep_view()[j] == (if j < n - 1 {
                    strip_cr(ps[j])
                } else {
                    ps[j]
                }),
        decreases keep - i,
    {
        let piece = &pieces[i];
        let line = if i < n - 1 && piece.len() > 0 && piece[piece.len() - 1] == '\r' {
            subvec(piece, 0, piece.len() - 1)
        } else {
            subvec(piece, 0, piece.len())
        };
        proof {
            assert(ps[i as int] == piece@);
            if i < n - 1 && piece@.len() > 0 && piece@.last() == '\r' {
                assert(line@ =~= piece@.drop_last());
            } else {
                assert(line@ =~= piece@);
            }
        }
        let ghost before = lines@;
        lines.push(line);
        proof {
            lemma_vec_dview(lines);
            lemma_dview_push(before, line);
            assert(lines.deep_view()[i as int] == line@);
            assert forall|j: int| 0 <= j < i + 1 implies #[trigger] lines.deep_view()[j] == (if j
                < n - 1 {
                strip_cr(ps[j])
            } else {
                ps[j]
            }) by {
                if j < i {
                    assert(lines.deep_view()[j] == lines@[j]@);
                }
            }
        }
        i += 1;
    }
    proof {
        assert(lines.deep_view() =~= lines_of(s@));
    }
    lines
}

// ---------------------------------------------------------------------------
// Joining
// ---------------------------------------------------------------------------

/// `parts` concatenated with `sep` between neighbours (`[T]::join`).
pub open spec fn join_with(parts: Seq<Seq<char>>, sep: Seq<char>) -> Seq<char>
    decreases parts.len(),
{
    if parts.len() == 0 {
        Seq::empty()
    } else if parts.len() == 1 {
        parts[0]
    } else {
        join_with(parts.drop_last(), sep) + sep + parts.last()
    }
}

pub fn append_chars(out: &mut Vec<char>, more: &Vec<char>)
    ensures
        final(out)@ == old(out)@ + more@,
{
    let ghost start = out@;
    let mut i: usize = 0;
    while i < more.len()
        invariant
            i <= more.len(),
            out@ == start + more@.take(i as int),
        decreases more.len() - i,
    {
        out.push(more[i]);
        i += 1;
        assert(out@ =~= start + more@.take(i as int));
    }
    assert(more@.take(more.len() as int) =~= more@);
}

/// Joins character pieces with a separator.
pub fn join_chars(parts: &Vec<Vec<char>>, sep: &Vec<char>) -> (r: Vec<char>)
    ensures
        r@ == join_with(parts.deep_view(), sep@),
{
    let mut out: Vec<char> = Vec::new();
    let mut i: usize = 0;
    let ghost all = parts.deep_view();
    while i < parts.len()
        invariant
            i <= parts.len(),
            all == parts.deep_view(),
            out@ == join_with(all.take(i as int), sep@),
        decreases parts.len() - i,
    {
        proof {
            assert(all.take(i + 1).drop_last() =~= all.take(i as int));
            assert(all.take(i + 1).last() == parts@[i as int]@);
        }
        if i > 0 {
            append_chars(&mut out, sep);
        }
        append_chars(&mut out, &parts[i]);
        proof {
            if i == 0 {
                assert(out@ =~= all.take(1)[0]);
            }
        }
        i += 1;
    }
    proof {
        assert(all.take(parts.len() as int) =~= all);
    }
    out
}

/// Joins strings with a separator (`[String]::join`).
pub fn join_strings(parts: &Vec<String>, sep: &str) -> (r: String)
    ensures
        r@ == join_with(parts.deep_view(), sep@),
{
    let mut pieces: Vec<Vec<char>> = Vec::new();
    let mut i: usize = 0;
    while i < parts.len()
        invariant
            i <= parts.len(),
            pieces.deep_view() == parts.deep_view().take(i as int),
        decreases parts.len() - i,
    {
        let p = chars_of(parts[i].as_str());
        let ghost prev = pieces@;
        pieces.push(p);
        proof {
            lemma_vec_dview(pieces);
            lemma_dview_push(prev, p);
        }
        i += 1;
        assert(pieces.deep_view() =~= parts.deep_view().take(i as int));
    }
    assert(parts.deep_view().take(parts.len() as int) =~= parts.deep_view());
    let sepv = chars_of(sep);
    let joined = join_chars(&pieces, &sepv);
    string_of(&joined)
}

// ---------------------------------------------------------------------------
// Searching
// ---------------------------------------------------------------------------

/// `needle` occurs in `hay` at position `i`.
pub open spec fn occurs_at(hay: Seq<char>, needle: Seq<char>, i: int) -> bool {
    0 <= i && i + needle.len() <= hay.len() && hay.subrange(i, i + needle.len()) == needle
}

/// `str::contains` with a string pattern.
pub open spec fn seq_contains(hay: Seq<char>, needle: Seq<char>) -> bool {
    exists|i: int| occurs_at(hay, needle, i)
}

/// `str::starts_with`.
pub open spec fn starts_with(s: Seq<char>, prefix: Seq<char>) -> bool {
    occurs_at(s, prefix, 0)
}

/// `str::ends_with`.
pub open spec fn ends_with(s: Seq<char>, suffix: Seq<char>) -> bool {
    occurs_at(s, suffix, s.len() - suffix.len())
}

pub fn occurs_at_exec(hay: &Vec<char>, needle: &Vec<char>, i: usize) -> (r: bool)
    ensures
        r == occurs_at(hay@, needle@, i as int),
{
    if needle.len() > hay.len() || i > hay.len() - needle.len() {
        return false;
    }
    let mut j: usize = 0;
    while j < needle.len()
        invariant
            j <= needle.len(),
            i + needle.len() <= hay.len(),
            forall|k: int| 0 <= k < j ==> hay@[i + k] == needle@[k],
        decreases needle.len() - j,
    {
        if hay[i + j] != needle[j] {
            assert(hay@.subrange(i as int, i + needle.len())[j as int] != needle@[j as int]);
            return false;
        }
        j += 1;
    }
    assert(hay@.subrange(i as int, i + needle.len()) =~= needle@);
    true
}

/// The first position where `needle` occurs, if any.
pub fn find_chars(hay: &Vec<char>, needle: &Vec<char>) -> (r: Option<usize>)
    ensures
        r matches Some(i) ==> occurs_at(hay@, needle@, i as int) && forall|k: int|
            0 <= k < i ==> !occurs_at(hay@, needle@, k),
        r is None ==> !seq_contains(hay@, needle@),
{
    if needle.len() > hay.len() {
        return None;
    }
    let last = hay.len() - needle.len();
    let mut i: usize = 0;
    while i <= last
        invariant
            last == hay.len() - needle.len(),
            i <= last + 1,
            forall|k: int| 0 <= k < i ==> !occurs_at(hay@, needle@, k),
        decreases last + 1 - i,
    {
        if occurs_at_exec(hay, needle, i) {
            return Some(i);
        }
        if i == last {
            return None;
        }
        i += 1;
    }
    None
}

pub fn contains_chars(hay: &Vec<char>, needle: &Vec<char>) -> (r: bool)
    ensures
        r == seq_contains(hay@, needle@),
{
    match find_chars(hay, needle) {
        Some(_) => true,
        None => false,
    }
}

pub fn contains_char(hay: &Vec<char>, c: char) -> (r: bool)
    ensures
        r == hay@.contains(c),
{
    let mut i: usize = 0;
    while i < hay.len()
        invariant
            i <= hay.len(),
            forall|k: int| 0 <= k < i ==> hay@[k] != c,
        decreases hay.len() - i,
    {
        if hay[i] == c {
            return true;
        }
        i += 1;
    }
    false
}

/// A substring of a substring is a substring.
pub proof fn lemma_occurs_trans(a: Seq<char>, b: Seq<char>, c: Seq<char>, i: int, j: int)
    requires
        occurs_at(a, b, i),
        occurs_at(b, c, j),
    ensures
        occurs_at(a, c, i + j),
{
    assert(a.subrange(i + j, i + j + c.len()) =~= b.subrange(j, j + c.len()));
}

/// Each piece of a split is a substring of the text, and the last piece
/// ends it.
pub proof fn lemma_split_by_pieces(s: Seq<char>, set: CharSet)
    ensures
        split_by(s, set).len() >= 1,
        occurs_at(s, split_by(s, set).last(), s.len() - split_by(s, set).last().len()),
        forall|k: int| 0 <= k < split_by(s, set).len() ==> seq_contains(s, #[trigger] split_by(s, set)[k]),
    decreases s.len(),
{
    if s.len() == 0 {
        assert(s.subrange(0, 0) =~= Seq::<char>::empty());
        assert(occurs_at(s, Seq::<char>::empty(), 0));
    } else {
        let d = s.drop_last();
        lemma_split_by_pieces(d, set);
        let prev = split_by(d, set);
        assert(occurs_at(s, d, 0)) by {
            assert(s.subrange(0, d.len() as int) =~= d);
        }
        assert forall|k: int| 0 <= k < prev.len() implies seq_contains(s, #[trigger] prev[k]) by {
            assert(seq_contains(d, prev[k]));
            let j = choose|j: int| occurs_at(d, prev[k], j);
            lemma_occurs_trans(s, d, prev[k], 0, j);
        }
        if in_set(set, s.last()) {
            let now = split_by(s, set);
            assert(now == prev.push(Seq::<char>::empty()));
            assert(s.subrange(s.len() as int, s.len() as int) =~= Seq::<char>::empty());
            assert(occurs_at(s, Seq::<char>::empty(), s.len() as int));
            assert forall|k: int| 0 <= k < now.len() implies seq_contains(s, #[trigger] now[k]) by {
                if k < prev.len() {
                    assert(now[k] == prev[k]);
                }
            }
        } else {
            let now = split_by(s, set);
            let last = prev.last().push(s.last());
            assert(now == prev.update(prev.len() - 1, last));
            let p = d.len() - prev.last().len();
            assert(s.subrange(p, s.len() as int) =~= d.subrange(p, d.len() as int).push(s.last()));
            assert(occurs_at(s, last, p));
            assert forall|k: int| 0 <= k < now.len() implies seq_contains(s, #[trigger] now[k]) by {
                if k < prev.len() - 1 {
                    assert(now[k] == prev[k]);
                } else {
                    assert(now[k] == last);
                }
            }
        }
    }
}

/// Each line of a text is a substring of it.
pub proof fn lemma_lines_in_text(s: Seq<char>, k: int)
    requires
        0 <= k < lines_of(s).len(),
    ensures
        seq_contains(s, lines_of(s)[k]),
{
    let ps = split_by(s, CharSet::Only('\n'));
    lemma_split_by_pieces(s, CharSet::Only('\n'));
    assert(seq_contains(s, ps[k]));
    let j = choose|j: int| occurs_at(s, ps[k], j);
    let line = lines_of(s)[k];
    assert(line == ps[k] || line == strip_cr(ps[k]));
    assert(occurs_at(ps[k], strip_cr(ps[k]), 0)) by {
        assert(ps[k].subrange(0, strip_cr(ps[k]).len() as int) =~= strip_cr(ps[k]));
    }
    assert(occurs_at(ps[k], ps[k], 0)) by {
        assert(ps[k].subrange(0, ps[k].len() as int) =~= ps[k]);
    }
    if line == ps[k] {
        lemma_occurs_trans(s, ps[k], line, j, 0);
    } else {
        lemma_occurs_trans(s, ps[k], line, j, 0);
    }
}

/// A trimmed text is a substring of it.
pub proof fn lemma_trim_in_text(s: Seq<char>)
    ensures
        occurs_at(s, trim(s), leading_count(s, CharSet::Whitespace) as int),
{
    let lead = leading_count(s, CharSet::Whitespace);
    lemma_leading_count_bound(s, CharSet::Whitespace);
    let rest = trim_start_set(s, CharSet::Whitespace);
    lemma_trailing_count_bound(rest, CharSet::Whitespace);
    assert(s.subrange(lead as int, (lead + trim(s).len()) as int) =~= trim(s));
}

/// A prefix of a text is a substring of it.
pub proof fn lemma_take_in_text(s: Seq<char>, n: int)
    requires
        0 <= n <= s.len(),
    ensures
        occurs_at(s, s.take(n), 0),
{
    assert(s.subrange(0, n) =~= s.take(n));
}

pub fn starts_with_chars(s: &Vec<char>, prefix: &Vec<char>) -> (r: bool)
    ensures
        r == starts_with(s@, prefix@),
{
    occurs_at_exec(s, prefix, 0)
}

pub fn ends_with_chars(s: &Vec<char>, suffix: &Vec<char>) -> (r: bool)
    ensures
        r == ends_with(s@, suffix@),
{
    if suffix.len() > s.len() {
        return false;
    }
    occurs_at_exec(s, suffix, s.len() - suffix.len())
}

/// `str::split_once` with a character: the text before the first `c` and the
/// text after it.
pub open spec fn split_once(s: Seq<char>, c: char) -> Option<(Seq<char>, Seq<char>)> {
    match s.index_of_first(c) {
        Some(i) => Some((s.take(i), s.skip(i + 1))),
        None => None,
    }
}

pub fn split_once_char(s: &Vec<char>, c: char) -> (r: Option<(Vec<char>, Vec<char>)>)
    ensures
        match split_once(s@, c) {
            Some((a, b)) => r matches Some((x, y)) && x@ == a && y@ == b,
            None => r is None,
        },
{
    let mut i: usize = 0;
    while i < s.len() && s[i] != c
        invariant
            i <= s.len(),
            forall|j: int| 0 <= j < i ==> s@[j] != c,
        decreases s.len() - i,
    {
        i += 1;
    }
    proof {
        s@.index_of_first_ensures(c);
    }
    if i == s.len() {
        assert(!s@.contains(c));
        return None;
    }
    let ghost k = s@.index_of_first(c).unwrap();
    assert(s@.contains(c));
    assert(k == i) by {
        if k < i {
            assert(s@[k] == c);
        }
        if i < k {
            assert(s@[i as int] == c);
        }
    }
    let before = subvec(s, 0, i);
    let after = subvec(s, i + 1, s.len());
    assert(before@ =~= s@.take(i as int));
    assert(after@ =~= s@.skip(i + 1));
    Some((before, after))
}

/// `str::rsplit_once` with a character: the text before the last `c` and the
/// text after it.
pub open spec fn rsplit_once(s: Seq<char>, c: char) -> Option<(Seq<char>, Seq<char>)> {
    match s.index_of_last(c) {
        Some(i) => Some((s.take(i), s.skip(i + 1))),
        None => None,
    }
}

pub fn rsplit_once_char(s: &Vec<char>, c: char) -> (r: Option<(Vec<char>, Vec<char>)>)
    ensures
        match rsplit_once(s@, c) {
            Some((a, b)) => r matches Some((x, y)) && x@ == a && y@ == b,
            None => r is None,
        },
{
    let mut i: usize = s.len();
    while i > 0 && s[i - 1] != c
        invariant
            i <= s.len(),
            forall|j: int| i <= j < s.len() ==> s@[j] != c,
        decreases i,
    {
        i -= 1;
    }
    proof {
        s@.index_of_last_ensures(c);
    }
    if i == 0 {
        assert(!s@.contains(c));
        return None;
    }
    let k = i - 1;
    let ghost m = s@.index_of_last(c).unwrap();
    assert(s@.contains(c)) by {
        assert(s@[k as int] == c);
    }
    assert(m == k) by {
        if m < k {
            assert(s@[k as int] == c);
        }
        if k < m {
            assert(s@[m] == c);
        }
    }
    let before = subvec(s, 0, k);
    let after = subvec(s, k + 1, s.len());
    assert(before@ =~= s@.take(k as int));
    assert(after@ =~= s@.skip(k + 1));
    Some((before, after))
}

/// Literal character vectors.
pub fn lit(s: &str) -> (v: Vec<char>)
    ensures
        v@ == s@,
{
    chars_of(s)
}

} // verus!
