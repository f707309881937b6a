//! The checks a manifest's page expectation asks of an extracted page: its
//! identity, route, text, images, layout, and the texts, quality flags and
//! route reasons it must carry. A page that is not there fails every check
//! but those of required texts, which are looked for in no text.
use vstd::prelude::*;

use crate::anchors::{
    generated_anchor, generated_page_required_text, required_text_missing, texts_of,
    unmatched_anchors,
};
use crate::metrics::{layout_matches, layout_summary_matches_expectation, DebugLayoutSummary};
use crate::numbers::{decimal, zero_padded, zero_padded_chars};
use crate::quality_flags::{flags_not_in, unexpected_flags, PageQuality};
use crate::text::{append_chars, copy_string, lines_of, lit, str_eq, string_of};

verus! {

/// How a page was routed through extraction.
#[derive(Clone, Copy, PartialEq, Eq, Structural, Debug)]
pub enum PageRoute {
    NativeFastPath,
    NeedsFallback,
    OcrFallback,
    Unsupported,
}

/// What a manifest expects of one page.
pub struct PageExpectation {
    pub index: u32,
    pub artifact_id: Option<String>,
    pub page_fingerprint: Option<String>,
    pub route: Option<PageRoute>,
    pub empty_text_output: Option<bool>,
    pub image_artifact_count: Option<u32>,
    pub layout_block_counts: Option<DebugLayoutSummary>,
    pub required_text: Vec<String>,
    pub required_flags: Vec<PageQuality>,
    pub required_reasons: Vec<String>,
}

/// What extraction gave for a page: its identity, route and reasons, whether
/// its plain text is empty, its image count, layout summary, quality text
/// and quality flags.
pub struct ObservedPage {
    pub artifact_id: String,
    pub fingerprint: String,
    pub route: PageRoute,
    pub reasons: Vec<String>,
    pub text_empty: bool,
    pub image_artifact_count: u32,
    pub layout: DebugLayoutSummary,
    pub quality_text: String,
    pub flags: Vec<PageQuality>,
}

/// The kinds of page checks, in the order they are made.
#[derive(Clone, Copy, PartialEq, Eq, Structural, Debug)]
pub enum PageCheckKind {
    ArtifactId,
    PageFingerprint,
    Route,
    EmptyTextOutput,
    ImageArtifactCount,
    LayoutBlockCounts,
    RequiredText,
    RequiredFlags,
    RequiredReasons,
}

/// The outcome of one page check, and what was missing for the checks of
/// required texts, flags and reasons (nothing for the others).
pub struct PageCheck {
    pub name: String,
    pub kind: PageCheckKind,
    pub passed: bool,
    pub missing_text: Vec<String>,
    pub missing_flags: Vec<PageQuality>,
    pub missing_reasons: Vec<String>,
}

/// The last part of a check's name.
pub open spec fn kind_suffix(kind: PageCheckKind) -> Seq<char> {
    match kind {
        PageCheckKind::ArtifactId => "artifact_id"@,
        PageCheckKind::PageFingerprint => "page_fingerprint"@,
        PageCheckKind::Route => "route"@,
        PageCheckKind::EmptyTextOutput => "empty_text_output"@,
        PageCheckKind::ImageArtifactCount => "image_artifact_count"@,
        PageCheckKind::LayoutBlockCounts => "layout_block_counts"@,
        PageCheckKind::RequiredText => "required_text"@,
        PageCheckKind::RequiredFlags => "required_flags"@,
        PageCheckKind::RequiredReasons => "required_reasons"@,
    }
}

fn kind_suffix_exec(kind: PageCheckKind) -> (r: &'static str)
    ensures
        r@ == kind_suffix(kind),
{
    match kind {
        PageCheckKind::ArtifactId => "artifact_id",
        PageCheckKind::PageFingerprint => "page_fingerprint",
        PageCheckKind::Route => "route",
        PageCheckKind::EmptyTextOutput => "empty_text_output",
        PageCheckKind::ImageArtifactCount => "image_artifact_count",
        PageCheckKind::LayoutBlockCounts => "layout_block_counts",
        PageCheckKind::RequiredText => "required_text",
        PageCheckKind::RequiredFlags => "required_flags",
        PageCheckKind::RequiredReasons => "required_reasons",
    }
}

/// A page check's name: `page_`, the page index in six digits or more, a
/// dot, and the kind.
pub open spec fn page_check_name(index: u32, kind: PageCheckKind) -> Seq<char> {
    "page_"@ + zero_padded(decimal(index as nat), 6) + "."@ + kind_suffix(kind)
}

pub fn page_check_name_exec(index: u32, kind: PageCheckKind) -> (r: String)
    ensures
        r@ == page_check_name(index, kind),
{
    let mut v = lit("page_");
    let digits = zero_padded_chars(index as u64, 6);
    append_chars(&mut v, &digits);
    let dot = lit(".");
    append_chars(&mut v, &dot);
    let suffix = lit(kind_suffix_exec(kind));
    append_chars(&mut v, &suffix);
    string_of(&v)
}

/// The checks an expectation asks for, in order: one for each value it
/// gives, and one for each non-empty list of required items.
pub open spec fn expected_kinds(e: PageExpectation) -> Seq<PageCheckKind> {
    kind_if(e.artifact_id is Some, PageCheckKind::ArtifactId) + kind_if(
        e.page_fingerprint is Some,
        PageCheckKind::PageFingerprint,
    ) + kind_if(e.route is Some, PageCheckKind::Route) + kind_if(
        e.empty_text_output is Some,
        PageCheckKind::EmptyTextOutput,
    ) + kind_if(e.image_artifact_count is Some, PageCheckKind::ImageArtifactCount) + kind_if(
        e.layout_block_counts is Some,
        PageCheckKind::LayoutBlockCounts,
    ) + kind_if(e.required_text@.len() > 0, PageCheckKind::RequiredText) + kind_if(
        e.required_flags@.len() > 0,
        PageCheckKind::RequiredFlags,
    ) + kind_if(e.required_reasons@.len() > 0, PageCheckKind::RequiredReasons)
}

/// The texts of `a` that `b` does not hold, in order.
pub open spec fn strings_not_in(a: Seq<Seq<char>>, b: Seq<Seq<char>>) -> Seq<Seq<char>>
    decreases a.len(),
{
    if a.len() == 0 {
        seq![]
    } else {
        let prev = strings_not_in(a.drop_last(), b);
        if b.contains(a.last()) {
            prev
        } else {
            prev.push(a.last())
        }
    }
}


/// The required texts that the page's quality text (no text when the page
/// is not there) does not match.
pub open spec fn missing_text(e: PageExpectation, page: Option<ObservedPage>) -> Seq<Seq<char>> {
    unmatched_anchors(
        texts_of(e.required_text@),
        match page {
            Some(p) => p.quality_text@,
            None => Seq::<char>::empty(),
        },
    )
}

/// The required flags the page does not carry (all when it is not there).
pub open spec fn missing_flags(e: PageExpectation, page: Option<ObservedPage>) -> Seq<PageQuality> {
    match page {
        Some(p) => unexpected_flags(e.required_flags@, p.flags@),
        None => e.required_flags@,
    }
}

/// The required route reasons the page does not give (all when it is not
/// there).
pub open spec fn missing_reasons(e: PageExpectation, page: Option<ObservedPage>) -> Seq<Seq<char>> {
    match page {
        Some(p) => strings_not_in(texts_of(e.required_reasons@), texts_of(p.reasons@)),
        None => texts_of(e.required_reasons@),
    }
}

/// Whether a check of the given kind passes.
pub open spec fn check_passes(e: PageExpectation, page: Option<ObservedPage>, kind: PageCheckKind) -> bool {
    match kind {
        PageCheckKind::ArtifactId => page matches Some(p) && e.artifact_id matches Some(a) && p.artifact_id@
            == a@,
        PageCheckKind::PageFingerprint => page matches Some(p) && e.page_fingerprint matches Some(f)
            && p.fingerprint@ == f@,
        PageCheckKind::Route => page matches Some(p) && e.route == Some(p.route),
        PageCheckKind::EmptyTextOutput => page matches Some(p) && e.empty_text_output == Some(
            p.text_empty,
        ),
        PageCheckKind::ImageArtifactCount => page matches Some(p) && e.image_artifact_count == Some(
            p.image_artifact_count,
        ),
        PageCheckKind::LayoutBlockCounts => page matches Some(p) && e.layout_block_counts matches Some(l)
            && layout_matches(l, p.layout),
        PageCheckKind::RequiredText => missing_text(e, page).len() == 0,
        PageCheckKind::RequiredFlags => missing_flags(e, page).len() == 0,
        PageCheckKind::RequiredReasons => missing_reasons(e, page).len() == 0,
    }
}

/// What a check's result holds for the given kind.
pub open spec fn is_page_check(e: PageExpectation, page: Option<ObservedPage>, kind: PageCheckKind, c: PageCheck) -> bool {
    &&& c.kind == kind
    &&& c.name@ == page_check_name(e.index, kind)
    &&& c.passed == check_passes(e, page, kind)
    &&& texts_of(c.missing_text@) == (if kind == PageCheckKind::RequiredText {
        missing_text(e, page)
    } else {
        seq![]
    })
    &&& c.missing_flags@ == (if kind == PageCheckKind::RequiredFlags {
        missing_flags(e, page)
    } else {
        seq![]
    })
    &&& texts_of(c.missing_reasons@) == (if kind == PageCheckKind::RequiredReasons {
        missing_reasons(e, page)
    } else {
        seq![]
    })
}

fn contains_string(v: &Vec<String>, s: &String) -> (r: bool)
    ensures
        r == texts_of(v@).contains(s@),
{
    let mut i: usize = 0;
    while i < v.len()
        invariant
            i <= v@.len(),
            forall|k: int| 0 <= k < i ==> v@[k]@ != s@,
        decreases v@.len() - i,
    {
        if str_eq(v[i].as_str(), s.as_str()) {
            assert(texts_of(v@)[i as int] == s@);
            return true;
        }
        i += 1;
    }
    proof {
        if texts_of(v@).contains(s@) {
            let k = choose|k: int| 0 <= k < texts_of(v@).len() && texts_of(v@)[k] == s@;
            assert(v@[k]@ == s@);
        }
    }
    false
}

/// The texts of `a` that `b` does not hold, in order.
pub fn strings_not_in_exec(a: &Vec<String>, b: &Vec<String>) -> (r: Vec<String>)
    ensures
        texts_of(r@) == strings_not_in(texts_of(a@), texts_of(b@)),
{
    let mut out: Vec<String> = Vec::new();
    let mut i: usize = 0;
    while i < a.len()
        invariant
            i <= a@.len(),
            texts_of(out@) == strings_not_in(texts_of(a@).take(i as int), texts_of(b@)),
        decreases a@.len() - i,
    {
        proof {
            assert(texts_of(a@).take(i + 1).drop_last() =~= texts_of(a@).take(i as int));
            assert(texts_of(a@).take(i + 1).last() == a@[i as int]@);
        }
        if !contains_string(b, &a[i]) {
            let ghost prev = out@;
            let t = copy_string(&a[i]);
            out.push(t);
            proof {
                assert(texts_of(out@) =~= texts_of(prev).push(a@[i as int]@));
            }
        }
        i += 1;
    }
    proof {
        assert(texts_of(a@).take(a@.len() as int) =~= texts_of(a@));
    }
    out
}

fn copy_texts(v: &Vec<String>) -> (r: Vec<String>)
    ensures
        texts_of(r@) == texts_of(v@),
{
    let mut out: Vec<String> = Vec::new();
    let mut i: usize = 0;
    while i < v.len()
        invariant
            i <= v@.len(),
            texts_of(out@) == texts_of(v@).take(i as int),
        decreases v@.len() - i,
    {
        let ghost prev = out@;
        let t = copy_string(&v[i]);
        out.push(t);
        proof {
            assert(out@ == prev.push(t));
            assert(texts_of(v@).take(i + 1) =~= texts_of(v@).take(i as int).push(v@[i as int]@));
            assert(texts_of(out@) =~= texts_of(prev).push(t@));
        }
        i += 1;
    }
    proof {
        assert(texts_of(v@).take(v@.len() as int) =~= texts_of(v@));
    }
    out
}

fn copy_flags(v: &Vec<PageQuality>) -> (r: Vec<PageQuality>)
    ensures
        r@ == v@,
{
    let mut out: Vec<PageQuality> = Vec::new();
    let mut i: usize = 0;
    while i < v.len()
        invariant
            i <= v@.len(),
            out@ == v@.take(i as int),
        decreases v@.len() - i,
    {
        out.push(v[i]);
        i += 1;
        assert(out@ =~= v@.take(i as int));
    }
    assert(v@.take(v@.len() as int) =~= v@);
    out
}

/// One kind, when a condition holds.
pub open spec fn kind_if(b: bool, kind: PageCheckKind) -> Seq<PageCheckKind> {
    if b {
        seq![kind]
    } else {
        seq![]
    }
}

fn push_kind_if(out: &mut Vec<PageCheckKind>, b: bool, kind: PageCheckKind)
    ensures
        final(out)@ == old(out)@ + kind_if(b, kind),
{
    if b {
        out.push(kind);
    }
    assert(out@ =~= old(out)@ + kind_if(b, kind));
}

fn expected_kinds_exec(e: &PageExpectation) -> (r: Vec<PageCheckKind>)
    ensures
        r@ == expected_kinds(*e),
{
    let mut out: Vec<PageCheckKind> = Vec::new();
    push_kind_if(&mut out, e.artifact_id.is_some(), PageCheckKind::ArtifactId);
    push_kind_if(&mut out, e.page_fingerprint.is_some(), PageCheckKind::PageFingerprint);
    push_kind_if(&mut out, e.route.is_some(), PageCheckKind::Route);
    push_kind_if(&mut out, e.empty_text_output.is_some(), PageCheckKind::EmptyTextOutput);
    push_kind_if(&mut out, e.image_artifact_count.is_some(), PageCheckKind::ImageArtifactCount);
    push_kind_if(&mut out, e.layout_block_counts.is_some(), PageCheckKind::LayoutBlockCounts);
    push_kind_if(&mut out, e.required_text.len() > 0, PageCheckKind::RequiredText);
    push_kind_if(&mut out, e.required_flags.len() > 0, PageCheckKind::RequiredFlags);
    push_kind_if(&mut out, e.required_reasons.len() > 0, PageCheckKind::RequiredReasons);
    assert(out@ =~= expected_kinds(*e));
    out
}

/// The page a reference points at, if any.
pub open spec fn page_ref_view(page: Option<&ObservedPage>) -> Option<ObservedPage> {
    match page {
        Some(p) => Some(*p),
        None => None,
    }
}

fn check_passes_exec(e: &PageExpectation, page: Option<&ObservedPage>, kind: PageCheckKind) -> (r: bool)
    requires
        kind != PageCheckKind::RequiredText,
        kind != PageCheckKind::RequiredFlags,
        kind != PageCheckKind::RequiredReasons,
    ensures
        r == check_passes(*e, page_ref_view(page), kind),
{
    match page {
        None => false,
        Some(p) => match kind {
            PageCheckKind::ArtifactId => match &e.artifact_id {
                Some(a) => str_eq(p.artifact_id.as_str(), a.as_str()),
                None => false,
            },
            PageCheckKind::PageFingerprint => match &e.page_fingerprint {
                Some(f) => str_eq(p.fingerprint.as_str(), f.as_str()),
                None => false,
            },
            PageCheckKind::Route => match e.route {
                Some(r) => r == p.route,
                None => false,
            },
            PageCheckKind::EmptyTextOutput => match e.empty_text_output {
                Some(b) => b == p.text_empty,
                None => false,
            },
            PageCheckKind::ImageArtifactCount => match e.image_artifact_count {
                Some(n) => n == p.image_artifact_count,
                None => false,
            },
            _ => match e.layout_block_counts {
                Some(l) => layout_summary_matches_expectation(l, p.layout),
                None => false,
            },
        },
    }
}

/// Makes one check of a page expectation against the page extraction gave,
/// `None` when it gave no page of that index.
pub fn page_check(e: &PageExpectation, page: Option<&ObservedPage>, kind: PageCheckKind) -> (c: PageCheck)
    ensures
        is_page_check(*e, page_ref_view(page), kind, c),
{
    let name = page_check_name_exec(e.index, kind);
    let mut mtext: Vec<String> = Vec::new();
    let mut mflags: Vec<PageQuality> = Vec::new();
    let mut mreasons: Vec<String> = Vec::new();
    let passed = match kind {
        PageCheckKind::RequiredText => {
            let required = e.required_text.as_slice();
            assert(required@ == e.required_text@);
            mtext = match page {
                Some(p) => {
                    let m = required_text_missing(required, p.quality_text.as_str());
                    assert(m.deep_view() == missing_text(*e, page_ref_view(page)));
                    m
                },
                None => {
                    proof {
                        reveal_strlit("");
                    }
                    let m = required_text_missing(required, "");
                    assert(""@ == Seq::<char>::empty());
                    assert(m.deep_view() == missing_text(*e, page_ref_view(page)));
                    m
                },
            };
            proof {
                assert(mtext.deep_view() =~= texts_of(mtext@));
            }
            mtext.len() == 0
        },
        PageCheckKind::RequiredFlags => {
            mflags = match page {
                Some(p) => flags_not_in(&e.required_flags, &p.flags),
                None => copy_flags(&e.required_flags),
            };
            mflags.len() == 0
        },
        PageCheckKind::RequiredReasons => {
            mreasons = match page {
                Some(p) => strings_not_in_exec(&e.required_reasons, &p.reasons),
                None => copy_texts(&e.required_reasons),
            };
            mreasons.len() == 0
        },
        _ => check_passes_exec(e, page, kind),
    };
    let c = PageCheck { name, kind, passed, missing_text: mtext, missing_flags: mflags, missing_reasons: mreasons };
    proof {
        if kind != PageCheckKind::RequiredText {
            assert(texts_of(c.missing_text@) =~= Seq::<Seq<char>>::empty());
        }
        if kind != PageCheckKind::RequiredFlags {
            assert(c.missing_flags@ =~= Seq::<PageQuality>::empty());
        }
        if kind != PageCheckKind::RequiredReasons {
            assert(texts_of(c.missing_reasons@) =~= Seq::<Seq<char>>::empty());
        }
    }
    c
}

/// Makes the checks of a page expectation against the page extraction gave,
/// `None` when it gave no page of that index, in the order of
/// `expected_kinds`.
pub fn page_expectation_checks(e: &PageExpectation, page: Option<&ObservedPage>) -> (r: Vec<PageCheck>)
    ensures
        r@.len() == expected_kinds(*e).len(),
        forall|k: int| 0 <= k < r@.len() ==> is_page_check(*e, page_ref_view(page), expected_kinds(*e)[k], #[trigger] r@[k]),
{
    let kinds = expected_kinds_exec(e);
    let mut out: Vec<PageCheck> = Vec::new();
    let mut i: usize = 0;
    while i < kinds.len()
        invariant
            i <= kinds@.len(),
            kinds@ == expected_kinds(*e),
            out@.len() == i,
            forall|k: int| 0 <= k < i ==> is_page_check(*e, page_ref_view(page), kinds@[k], #[trigger] out@[k]),
        decreases kinds@.len() - i,
    {
        let c = page_check(e, page, kinds[i]);
        out.push(c);
        i += 1;
    }
    out
}

/// How many times a page occurs.
pub open spec fn page_count_in(pages: Seq<u32>, page: u32) -> nat
    decreases pages.len(),
{
    if pages.len() == 0 {
        0
    } else {
        page_count_in(pages.drop_last(), page) + if pages.last() == page {
            1nat
        } else {
            0nat
        }
    }
}

fn page_count_exec(pages: &Vec<u32>, end: usize, page: u32) -> (n: usize)
    requires
        end <= pages@.len(),
    ensures
        n == page_count_in(pages@.take(end as int), page),
{
    let mut n: usize = 0;
    let mut i: usize = 0;
    while i < end
        invariant
            i <= end <= pages@.len(),
            n == page_count_in(pages@.take(i as int), page),
            n <= i,
        decreases end - i,
    {
        proof {
            assert(pages@.take(i + 1).drop_last() =~= pages@.take(i as int));
        }
        if pages[i] == page {
            n = n + 1;
        }
        i += 1;
    }
    n
}

/// The index of each table expectation among those of its page, given
/// only where its page has more than one; the pages of the expectations
/// in order.
pub fn table_expectation_indices(pages: &Vec<u32>) -> (r: Vec<Option<usize>>)
    ensures
        r@.len() == pages@.len(),
        forall|k: int| 0 <= k < pages@.len() ==> #[trigger] r@[k] == (if page_count_in(pages@, pages@[k]) > 1 {
            Some(page_count_in(pages@.take(k), pages@[k]) as usize)
        } else {
            None
        }),
{
    let mut out: Vec<Option<usize>> = Vec::new();
    let mut k: usize = 0;
    while k < pages.len()
        invariant
            k <= pages@.len(),
            out@.len() == k,
            forall|m: int| 0 <= m < k ==> #[trigger] out@[m] == (if page_count_in(pages@, pages@[m]) > 1 {
                Some(page_count_in(pages@.take(m), pages@[m]) as usize)
            } else {
                None
            }),
        decreases pages@.len() - k,
    {
        let page = pages[k];
        let total = page_count_exec(pages, pages.len(), page);
        proof {
            assert(pages@.take(pages@.len() as int) =~= pages@);
        }
        if total > 1 {
            let seen = page_count_exec(pages, k, page);
            out.push(Some(seen));
        } else {
            out.push(None);
        }
        k += 1;
    }
    out
}

/// What a manifest bootstrapped from an extraction expects of a page:
/// exactly what extraction gave for it, and the anchor generated from its
/// quality text.
pub open spec fn generated_from(e: PageExpectation, index: u32, p: ObservedPage, single_span: Seq<bool>) -> bool {
    &&& e.index == index
    &&& e.artifact_id matches Some(a) && a@ == p.artifact_id@
    &&& e.page_fingerprint matches Some(f) && f@ == p.fingerprint@
    &&& e.route == Some(p.route)
    &&& e.empty_text_output == Some(p.text_empty)
    &&& e.image_artifact_count == Some(p.image_artifact_count)
    &&& e.layout_block_counts == Some(p.layout)
    &&& texts_of(e.required_text@) == generated_anchor(p.quality_text@, single_span)
    &&& e.required_flags@ == p.flags@
    &&& texts_of(e.required_reasons@) == texts_of(p.reasons@)
}

/// The expectation a bootstrapped manifest holds for an extracted page of
/// the given index; `single_span` tells, line by line of its quality text,
/// whether the trimmed line lies within one text span.
pub fn generated_page_expectation(index: u32, p: &ObservedPage, single_span: &Vec<bool>) -> (e: PageExpectation)
    requires
        single_span@.len() == lines_of(p.quality_text@).len(),
    ensures
        generated_from(e, index, *p, single_span@),
{
    let required_text = generated_page_required_text(p.quality_text.as_str(), single_span);
    proof {
        assert(required_text.deep_view() =~= texts_of(required_text@));
    }
    PageExpectation {
        index,
        artifact_id: Some(copy_string(&p.artifact_id)),
        page_fingerprint: Some(copy_string(&p.fingerprint)),
        route: Some(p.route),
        empty_text_output: Some(p.text_empty),
        image_artifact_count: Some(p.image_artifact_count),
        layout_block_counts: Some(p.layout),
        required_text,
        required_flags: copy_flags(&p.flags),
        required_reasons: copy_texts(&p.reasons),
    }
}

proof fn lemma_no_strings_missing(a: Seq<Seq<char>>, b: Seq<Seq<char>>)
    requires
        forall|i: int| 0 <= i < a.len() ==> b.contains(#[trigger] a[i]),
    ensures
        strings_not_in(a, b).len() == 0,
    decreases a.len(),
{
    if a.len() > 0 {
        assert(b.contains(a[a.len() - 1]));
        assert forall|i: int| 0 <= i < a.drop_last().len() implies b.contains(#[trigger] a.drop_last()[i]) by {
            assert(a.drop_last()[i] == a[i]);
        }
        lemma_no_strings_missing(a.drop_last(), b);
    }
}

/// An expectation bootstrapped from an extracted page passes every check
/// against that page.
pub proof fn lemma_generated_expectation_passes(
    e: PageExpectation,
    index: u32,
    p: ObservedPage,
    single_span: Seq<bool>,
    kind: PageCheckKind,
)
    requires
        generated_from(e, index, p, single_span),
    ensures
        check_passes(e, Some(p), kind),
{
    match kind {
        PageCheckKind::LayoutBlockCounts => {
            crate::metrics::lemma_layout_matches_itself(p.layout);
        },
        PageCheckKind::RequiredText => {
            crate::anchors::lemma_generated_anchor_matches(p.quality_text@, single_span);
        },
        PageCheckKind::RequiredFlags => {
            assert forall|i: int| 0 <= i < p.flags@.len() implies p.flags@.contains(#[trigger] p.flags@[i]) by {}
            crate::quality_flags::lemma_no_flags_missing(p.flags@, p.flags@);
        },
        PageCheckKind::RequiredReasons => {
            let r = texts_of(p.reasons@);
            assert forall|i: int| 0 <= i < r.len() implies r.contains(#[trigger] r[i]) by {}
            lemma_no_strings_missing(r, r);
        },
        _ => {},
    }
}

} // verus!
