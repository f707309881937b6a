//! Paths as text: their components, file names and extensions as `std::path`
//! documents them for Unix paths (`/` separates, a leading `/` is the root),
//! and the file names the tool derives from them.
use vstd::prelude::*;

use crate::categories::{normalize_manifest_category, normalized_category, string_opt_view};
use crate::numbers::{decimal, zero_padded, zero_padded_chars};
use crate::text::{
    append_chars, chars_eq, chars_of, ends_with, ends_with_chars, is_ascii_alphanumeric_char,
    is_ascii_digit_char, join_with, lit, split_by, split_chars, starts_with, starts_with_chars,
    string_of, subvec, CharSet,
};

verus! {

broadcast use crate::views::lemma_char_vec_deep_view;

// ---------------------------------------------------------------------------
// Components
// ---------------------------------------------------------------------------

/// The pieces between separators that name something: neither empty nor `.`.
pub open spec fn kept_pieces(pieces: Seq<Seq<char>>) -> Seq<Seq<char>>
    decreases pieces.len(),
{
    if pieces.len() == 0 {
        Seq::empty()
    } else {
        let prev = kept_pieces(pieces.drop_last());
        let p = pieces.last();
        if p.len() == 0 || p == "."@ {
            prev
        } else {
            prev.push(p)
        }
    }
}

pub open spec fn is_rooted(p: Seq<char>) -> bool {
    p.len() > 0 && p[0] == '/'
}

/// `Path::components` on Unix, each component written as text: the root as
/// `/`, a leading current directory as `.`, a parent directory as `..`, and
/// the other components as they stand. Repeated separators and inner `.`
/// components leave no trace.
pub open spec fn path_components(p: Seq<char>) -> Seq<Seq<char>> {
    let pieces = split_by(p, CharSet::Only('/'));
    let head: Seq<Seq<char>> = if is_rooted(p) {
        seq!["/"@]
    } else if pieces[0] == "."@ {
        seq!["."@]
    } else {
        Seq::empty()
    };
    head + kept_pieces(pieces)
}

/// A component that names a file or directory (`Component::Normal`).
pub open spec fn is_normal_component(c: Seq<char>) -> bool {
    c != "/"@ && c != "."@ && c != ".."@
}

/// The normal components, in order.
pub open spec fn normal_components(cs: Seq<Seq<char>>) -> Seq<Seq<char>>
    decreases cs.len(),
{
    if cs.len() == 0 {
        Seq::empty()
    } else {
        let prev = normal_components(cs.drop_last());
        if is_normal_component(cs.last()) {
            prev.push(cs.last())
        } else {
            prev
        }
    }
}

fn is_dot(v: &Vec<char>) -> (r: bool)
    ensures
        r == (v@ == "."@),
{
    proof {
        reveal_strlit(".");
    }
    if v.len() == 1 && v[0] == '.' {
        assert(v@ =~= "."@);
        true
    } else {
        false
    }
}

fn is_normal_chars(v: &Vec<char>) -> (r: bool)
    ensures
        r == is_normal_component(v@),
{
    proof {
        reveal_strlit("/");
        reveal_strlit(".");
        reveal_strlit("..");
    }
    if v.len() == 1 {
        if v[0] == '/' {
            assert(v@ =~= "/"@);
            return false;
        }
        if v[0] == '.' {
            assert(v@ =~= "."@);
            return false;
        }
        assert(v@ != "/"@ && v@ != "."@ && v@ != ".."@);
        true
    } else if v.len() == 2 {
        if v[0] == '.' && v[1] == '.' {
            assert(v@ =~= ".."@);
            return false;
        }
        assert(v@ != ".."@);
        true
    } else {
        true
    }
}

/// The components of a path, as `Path::components` gives them.
pub fn path_components_exec(p: &Vec<char>) -> (r: Vec<Vec<char>>)
    ensures
        r.deep_view() == path_components(p@),
{
    let pieces = split_chars(p, CharSet::Only('/'));
    proof {
        crate::text::lemma_split_by_nonempty(p@, CharSet::Only('/'));
        crate::views::lemma_vec_dview(pieces);
    }
    let ghost ps = pieces.deep_view();
    let mut out: Vec<Vec<char>> = Vec::new();
    if p.len() > 0 && p[0] == '/' {
        let root = lit("/");
        out.push(root);
        proof {
            crate::views::lemma_vec_dview(out);
        }
    } else if is_dot(&pieces[0]) {
        let cur = lit(".");
        out.push(cur);
        proof {
            crate::views::lemma_vec_dview(out);
        }
    }
    let ghost head = out.deep_view();
    assert(head == (if is_rooted(p@) {
        seq!["/"@]
    } else if ps[0] == "."@ {
        seq!["."@]
    } else {
        Seq::<Seq<char>>::empty()
    }));
    let mut i: usize = 0;
    while i < pieces.len()
        invariant
            i <= pieces.len(),
            ps == pieces.deep_view(),
            ps.len() == pieces.len(),
            forall|j: int| 0 <= j < pieces.len() ==> #[trigger] ps[j] == pieces@[j]@,
            out.deep_view() == head + kept_pieces(ps.take(i as int)),
        decreases pieces.len() - i,
    {
        proof {
            assert(ps.take(i + 1).drop_last() =~= ps.take(i as int));
        }
        if pieces[i].len() != 0 && !is_dot(&pieces[i]) {
            let ghost prev = out@;
            let piece = subvec(&pieces[i], 0, pieces[i].len());
            assert(piece@ =~= pieces[i as int]@);
            out.push(piece);
            proof {
                crate::views::lemma_vec_dview(out);
                crate::views::lemma_dview_push(prev, piece);
                assert(ps[i as int] == piece@);
            }
            assert(out.deep_view() =~= head + kept_pieces(ps.take(i + 1)));
        } else {
            assert(ps[i as int].len() == 0 || ps[i as int] == "."@);
        }
        i += 1;
    }
    assert(ps.take(pieces.len() as int) =~= ps);
    out
}

// ---------------------------------------------------------------------------
// Labels and categories
// ---------------------------------------------------------------------------

/// The normal components of a path joined with `/`: the label a document is
/// reported under.
pub open spec fn path_label_spec(p: Seq<char>) -> Seq<char> {
    join_with(normal_components(path_components(p)), "/"@)
}

fn normal_components_exec(comps: &Vec<Vec<char>>) -> (r: Vec<String>)
    ensures
        r.deep_view() == normal_components(comps.deep_view()),
{
    let ghost cs = comps.deep_view();
    proof {
        crate::views::lemma_vec_dview(*comps);
    }
    let mut normal: Vec<String> = Vec::new();
    let mut i: usize = 0;
    while i < comps.len()
        invariant
            i <= comps.len(),
            cs == comps.deep_view(),
            cs.len() == comps.len(),
            forall|j: int| 0 <= j < comps.len() ==> #[trigger] cs[j] == comps@[j]@,
            normal.deep_view() == normal_components(cs.take(i as int)),
        decreases comps.len() - i,
    {
        proof {
            assert(cs.take(i + 1).drop_last() =~= cs.take(i as int));
        }
        if is_normal_chars(&comps[i]) {
            let ghost prev = normal@;
            let s = string_of(&comps[i]);
            normal.push(s);
            proof {
                crate::views::lemma_vec_dview(normal);
                crate::views::lemma_dview_push(prev, s);
            }
        }
        i += 1;
    }
    assert(cs.take(comps.len() as int) =~= cs);
    normal
}

pub fn path_label(path: &str) -> (r: String)
    ensures
        r@ == path_label_spec(path@),
{
    let p = chars_of(path);
    let comps = path_components_exec(&p);
    let normal = normal_components_exec(&comps);
    crate::text::join_strings(&normal, "/")
}

/// The category of a document found below a corpus directory: its first
/// directory, when the path has at least two components and the first names
/// a directory.
pub open spec fn category_from_relative_path_spec(p: Seq<char>) -> Option<Seq<char>> {
    let cs = path_components(p);
    if cs.len() >= 2 && is_normal_component(cs[0]) {
        normalized_category(cs[0])
    } else {
        None
    }
}

pub fn category_from_relative_pdf_path(path: &str) -> (r: Option<String>)
    ensures
        string_opt_view(r) == category_from_relative_path_spec(path@),
{
    let p = chars_of(path);
    let comps = path_components_exec(&p);
    proof {
        crate::views::lemma_vec_dview(comps);
    }
    if comps.len() < 2 || !is_normal_chars(&comps[0]) {
        return None;
    }
    let first = string_of(&comps[0]);
    normalize_manifest_category(Some(first.as_str()))
}

// ---------------------------------------------------------------------------
// File names, stems and extensions
// ---------------------------------------------------------------------------

/// `Path::file_name`: the last component when it names a file.
pub open spec fn file_name(p: Seq<char>) -> Option<Seq<char>> {
    let cs = path_components(p);
    if cs.len() > 0 && is_normal_component(cs.last()) {
        Some(cs.last())
    } else {
        None
    }
}

/// Where the last `.` of a name stands, if any.
pub open spec fn last_dot(name: Seq<char>) -> Option<int>
    decreases name.len(),
{
    if name.len() == 0 {
        None
    } else if name.last() == '.' {
        Some(name.len() - 1)
    } else {
        last_dot(name.drop_last())
    }
}

/// `Path::file_stem`: the whole name when it has no `.` past its first
/// character, else what comes before the last `.`.
pub open spec fn file_stem(p: Seq<char>) -> Option<Seq<char>> {
    match file_name(p) {
        None => None,
        Some(name) => match last_dot(name) {
            Some(i) => if i == 0 {
                Some(name)
            } else {
                Some(name.take(i))
            },
            None => Some(name),
        },
    }
}

/// `Path::extension`: what follows the last `.` of the name, when that `.`
/// is not its first character.
pub open spec fn extension(p: Seq<char>) -> Option<Seq<char>> {
    match file_name(p) {
        None => None,
        Some(name) => match last_dot(name) {
            Some(i) => if i == 0 {
                None
            } else {
                Some(name.skip(i + 1))
            },
            None => None,
        },
    }
}

fn last_dot_exec(name: &Vec<char>) -> (r: Option<usize>)
    ensures
        r matches Some(u) ==> last_dot(name@) == Some(u as int) && u < name.len(),
        r is None ==> last_dot(name@) is None,
{
    let mut i: usize = name.len();
    assert(name@.take(i as int) =~= name@);
    while i > 0 && name[i - 1] != '.'
        invariant
            i <= name.len(),
            last_dot(name@) == last_dot(name@.take(i as int)),
        decreases i,
    {
        proof {
            assert(name@.take(i as int).drop_last() =~= name@.take(i - 1));
        }
        i -= 1;
    }
    if i == 0 {
        assert(name@.take(0) =~= Seq::<char>::empty());
        None
    } else {
        Some(i - 1)
    }
}

fn file_name_exec(p: &Vec<char>) -> (r: Option<Vec<char>>)
    ensures
        match file_name(p@) {
            Some(n) => r matches Some(x) && x@ == n,
            None => r is None,
        },
{
    let comps = path_components_exec(p);
    proof {
        crate::views::lemma_vec_dview(comps);
    }
    let n = comps.len();
    if n == 0 {
        return None;
    }
    if !is_normal_chars(&comps[n - 1]) {
        return None;
    }
    let last = subvec(&comps[n - 1], 0, comps[n - 1].len());
    assert(last@ =~= comps@[n - 1]@);
    Some(last)
}

pub fn file_stem_exec(p: &Vec<char>) -> (r: Option<Vec<char>>)
    ensures
        match file_stem(p@) {
            Some(n) => r matches Some(x) && x@ == n,
            None => r is None,
        },
{
    match file_name_exec(p) {
        None => None,
        Some(name) => match last_dot_exec(&name) {
            Some(i) => {
                if i == 0 {
                    Some(name)
                } else {
                    let stem = subvec(&name, 0, i);
                    assert(stem@ =~= name@.take(i as int));
                    Some(stem)
                }
            },
            None => Some(name),
        },
    }
}

pub fn extension_exec(p: &Vec<char>) -> (r: Option<Vec<char>>)
    ensures
        match extension(p@) {
            Some(n) => r matches Some(x) && x@ == n,
            None => r is None,
        },
{
    match file_name_exec(p) {
        None => None,
        Some(name) => match last_dot_exec(&name) {
            Some(i) => {
                if i == 0 {
                    None
                } else {
                    let ext = subvec(&name, i + 1, name.len());
                    assert(ext@ =~= name@.skip(i + 1));
                    Some(ext)
                }
            },
            None => None,
        },
    }
}

/// Whether the text is `pdf` in any mix of cases.
pub open spec fn is_pdf_word(e: Seq<char>) -> bool {
    e.len() == 3 && crate::text::ascii_lower(e[0]) == 'p' && crate::text::ascii_lower(e[1]) == 'd'
        && crate::text::ascii_lower(e[2]) == 'f'
}

/// Whether the path's extension is `pdf`, ignoring ASCII case.
pub fn path_has_pdf_extension(path: &str) -> (r: bool)
    ensures
        r == (match extension(path@) {
            Some(e) => is_pdf_word(e),
            None => false,
        }),
{
    let p = chars_of(path);
    match extension_exec(&p) {
        None => false,
        Some(e) => {
            e.len() == 3 && (e[0] == 'p' || e[0] == 'P') && (e[1] == 'd' || e[1] == 'D') && (e[2]
                == 'f' || e[2] == 'F')
        },
    }
}

// ---------------------------------------------------------------------------
// Joining
// ---------------------------------------------------------------------------

/// `Path::join`: an absolute path replaces the base; otherwise the two are
/// put together with one separator between them.
pub open spec fn join_path(base: Seq<char>, p: Seq<char>) -> Seq<char> {
    if is_rooted(p) {
        p
    } else if base.len() == 0 || base.last() == '/' {
        base + p
    } else {
        base + "/"@ + p
    }
}

fn join_path_exec(base: &Vec<char>, p: &Vec<char>) -> (r: Vec<char>)
    ensures
        r@ == join_path(base@, p@),
{
    proof {
        reveal_strlit("/");
    }
    if p.len() > 0 && p[0] == '/' {
        return subvec(p, 0, p.len());
    }
    let mut out = subvec(base, 0, base.len());
    if !(base.len() == 0 || base[base.len() - 1] == '/') {
        out.push('/');
    }
    append_chars(&mut out, p);
    assert(out@ =~= join_path(base@, p@));
    out
}

/// A path of the manifest, taken relative to the manifest's directory
/// unless it is absolute.
pub fn resolve_manifest_path(manifest_dir: &str, path: &str) -> (r: String)
    ensures
        r@ == join_path(manifest_dir@, path@),
{
    let d = chars_of(manifest_dir);
    let p = chars_of(path);
    string_of(&join_path_exec(&d, &p))
}

/// Where the cached artifact for a key is stored: `<key>.json` in the cache
/// directory.
pub fn cache_path(cache_dir: &str, cache_key: &str) -> (r: String)
    ensures
        r@ == join_path(cache_dir@, cache_key@ + ".json"@),
{
    let d = chars_of(cache_dir);
    let mut name = chars_of(cache_key);
    let ext = lit(".json");
    append_chars(&mut name, &ext);
    string_of(&join_path_exec(&d, &name))
}

// ---------------------------------------------------------------------------
// OCR sidecar files
// ---------------------------------------------------------------------------

/// The stem that sidecar names start with; `document` when the path has none.
pub open spec fn sidecar_stem(source: Seq<char>) -> Seq<char> {
    match file_stem(source) {
        Some(s) => s,
        None => "document"@,
    }
}

/// `<stem>.p<page, six digits at least>.txt`.
pub open spec fn sidecar_name(source: Seq<char>, page: nat) -> Seq<char> {
    sidecar_stem(source) + ".p"@ + zero_padded(decimal(page), 6) + ".txt"@
}

fn sidecar_stem_exec(source: &Vec<char>) -> (r: Vec<char>)
    ensures
        r@ == sidecar_stem(source@),
{
    match file_stem_exec(source) {
        Some(s) => s,
        None => lit("document"),
    }
}

/// The name of the OCR text file for a page of a document.
pub fn sidecar_file_name(source_path: &str, page_index: u32) -> (r: String)
    ensures
        r@ == sidecar_name(source_path@, page_index as nat),
{
    let src = chars_of(source_path);
    let mut out = sidecar_stem_exec(&src);
    let p = lit(".p");
    append_chars(&mut out, &p);
    let digits = zero_padded_chars(page_index as u64, 6);
    append_chars(&mut out, &digits);
    let t = lit(".txt");
    append_chars(&mut out, &t);
    string_of(&out)
}

/// Six ASCII digits.
pub open spec fn is_page_number_text(s: Seq<char>) -> bool {
    s.len() == 6 && forall|i: int| 0 <= i < s.len() ==> is_ascii_digit_char(#[trigger] s[i])
}

/// Whether a file name is the sidecar of some page of the document:
/// `<stem>.p`, six digits, `.txt`.
pub open spec fn is_sidecar_of(source: Seq<char>, name: Seq<char>) -> bool {
    let prefix = sidecar_stem(source) + ".p"@;
    let rest = name.skip(prefix.len() as int);
    &&& starts_with(name, prefix)
    &&& ends_with(rest, ".txt"@)
    &&& is_page_number_text(rest.take(rest.len() - 4))
}

pub fn is_document_sidecar_file(source_path: &str, file_name: &str) -> (r: bool)
    ensures
        r == is_sidecar_of(source_path@, file_name@),
{
    proof {
        reveal_strlit(".txt");
    }
    let src = chars_of(source_path);
    let name = chars_of(file_name);
    let mut prefix = sidecar_stem_exec(&src);
    let p = lit(".p");
    append_chars(&mut prefix, &p);
    if !starts_with_chars(&name, &prefix) {
        return false;
    }
    let rest = subvec(&name, prefix.len(), name.len());
    assert(rest@ =~= name@.skip(prefix.len() as int));
    let t = lit(".txt");
    if !ends_with_chars(&rest, &t) {
        return false;
    }
    let digits = subvec(&rest, 0, rest.len() - 4);
    assert(digits@ =~= rest@.take(rest.len() - 4));
    digits.len() == 6 && all_ascii_digits(&digits)
}

fn all_ascii_digits(v: &Vec<char>) -> (r: bool)
    ensures
        r == (forall|i: int| 0 <= i < v@.len() ==> is_ascii_digit_char(#[trigger] v@[i])),
{
    let mut i: usize = 0;
    while i < v.len()
        invariant
            i <= v.len(),
            forall|j: int| 0 <= j < i ==> is_ascii_digit_char(#[trigger] v@[j]),
        decreases v.len() - i,
    {
        if !('0' <= v[i] && v[i] <= '9') {
            assert(!is_ascii_digit_char(v@[i as int]));
            return false;
        }
        i += 1;
    }
    true
}

// ---------------------------------------------------------------------------
// Temporary file stems and report paths
// ---------------------------------------------------------------------------

pub open spec fn is_temp_stem_char(c: char) -> bool {
    is_ascii_alphanumeric_char(c) || c == '-' || c == '_'
}

/// Every character that is not an ASCII letter, digit, `-` or `_` becomes `_`.
pub open spec fn sanitized_stem(s: Seq<char>) -> Seq<char> {
    Seq::new(
        s.len(),
        |i: int|
            if is_temp_stem_char(s[i]) {
                s[i]
            } else {
                '_'
            },
    )
}

pub fn sanitize_temp_stem(stem: &str) -> (r: String)
    ensures
        r@ == sanitized_stem(stem@),
{
    let s = chars_of(stem);
    let mut out: Vec<char> = Vec::new();
    let mut i: usize = 0;
    while i < s.len()
        invariant
            i <= s.len(),
            out@ == sanitized_stem(s@).take(i as int),
        decreases s.len() - i,
    {
        let c = s[i];
        if crate::text::is_ascii_alphanumeric(c) || c == '-' || c == '_' {
            out.push(c);
        } else {
            out.push('_');
        }
        i += 1;
        assert(out@ =~= sanitized_stem(s@).take(i as int));
    }
    assert(sanitized_stem(s@).take(s.len() as int) =~= sanitized_stem(s@));
    string_of(&out)
}

/// Whether a quality report's path and a benchmark's document path name the
/// same document: equal, or one ends with `/` and the other.
pub open spec fn paths_match(quality: Seq<char>, document: Seq<char>) -> bool {
    quality == document || ends_with(quality, "/"@ + document) || ends_with(document, "/"@ + quality)
}

pub fn feature_parity_paths_match(quality_path: Option<&str>, document_path: &str) -> (r: bool)
    ensures
        r == (match quality_path {
            Some(q) => paths_match(q@, document_path@),
            None => false,
        }),
{
    match quality_path {
        None => false,
        Some(q) => {
            let qv = chars_of(q);
            let dv = chars_of(document_path);
            if chars_eq(&qv, &dv) {
                return true;
            }
            let mut slash_d = lit("/");
            append_chars(&mut slash_d, &dv);
            if ends_with_chars(&qv, &slash_d) {
                return true;
            }
            let mut slash_q = lit("/");
            append_chars(&mut slash_q, &qv);
            ends_with_chars(&dv, &slash_q)
        },
    }
}

// ---------------------------------------------------------------------------
// Laws
// ---------------------------------------------------------------------------

pub open spec fn pow10(k: nat) -> nat
    decreases k,
{
    if k == 0 {
        1
    } else {
        10 * pow10((k - 1) as nat)
    }
}

proof fn lemma_decimal_shape(n: nat, k: nat)
    requires
        k >= 1,
        n < pow10(k),
    ensures
        decimal(n).len() <= k,
        decimal(n).len() >= 1,
        forall|i: int| 0 <= i < decimal(n).len() ==> is_ascii_digit_char(#[trigger] decimal(n)[i]),
    decreases n,
{
    let d = decimal(n);
    if n < 10 {
        assert(is_ascii_digit_char(crate::numbers::digit_char(n)));
    } else {
        assert(k >= 2) by {
            if k == 1 {
                reveal_with_fuel(pow10, 2);
            }
        }
        let p = pow10((k - 1) as nat);
        assert(pow10(k) == 10 * p);
        assert(n / 10 < p) by (nonlinear_arith)
            requires
                n < 10 * p,
        ;
        lemma_decimal_shape(n / 10, (k - 1) as nat);
        assert(is_ascii_digit_char(crate::numbers::digit_char(n % 10)));
        let prev = decimal(n / 10);
        assert forall|i: int| 0 <= i < d.len() implies is_ascii_digit_char(#[trigger] d[i]) by {
            if i < prev.len() {
                assert(d[i] == prev[i]);
            }
        }
    }
}

/// The sidecar file name of a page is recognised as a sidecar of its
/// document, for every page number of at most six digits.
pub proof fn lemma_sidecar_name_recognized(source: Seq<char>, page: nat)
    requires
        page < 1000000,
    ensures
        is_sidecar_of(source, sidecar_name(source, page)),
{
    reveal_strlit(".txt");
    reveal_strlit(".p");
    assert(pow10(6) == 1000000) by {
        reveal_with_fuel(pow10, 7);
    }
    lemma_decimal_shape(page, 6);
    let digits = decimal(page);
    let z = zero_padded(digits, 6);
    assert(z.len() == 6);
    assert forall|i: int| 0 <= i < z.len() implies is_ascii_digit_char(#[trigger] z[i]) by {
        if digits.len() < 6 {
            let pad = Seq::new((6 - digits.len()) as nat, |j: int| '0');
            if i >= pad.len() {
                assert(z[i] == digits[i - pad.len()]);
            }
        }
    }
    let prefix = sidecar_stem(source) + ".p"@;
    let name = sidecar_name(source, page);
    assert(name =~= prefix + (z + ".txt"@));
    assert(name.subrange(0, prefix.len() as int) =~= prefix);
    let rest = name.skip(prefix.len() as int);
    assert(rest =~= z + ".txt"@);
    assert(rest.subrange(rest.len() - 4, rest.len() as int) =~= ".txt"@);
    assert(rest.take(rest.len() - 4) =~= z);
}

/// A sanitised stem holds only ASCII letters, digits, `-` and `_`, and
/// sanitising it again changes nothing.
pub proof fn lemma_sanitized_stem_idempotent(s: Seq<char>)
    ensures
        forall|i: int|
            0 <= i < sanitized_stem(s).len() ==> is_temp_stem_char(#[trigger] sanitized_stem(s)[i]),
        sanitized_stem(sanitized_stem(s)) == sanitized_stem(s),
        sanitized_stem(s).len() == s.len(),
{
    assert(sanitized_stem(sanitized_stem(s)) =~= sanitized_stem(s));
}

/// Whether two paths name the same document does not depend on which of
/// them came from the quality report.
pub proof fn lemma_paths_match_symmetric(a: Seq<char>, b: Seq<char>)
    ensures
        paths_match(a, b) == paths_match(b, a),
{
}

} // verus!
