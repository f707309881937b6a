//! The evaluation of one document of a manifest: which checks its
//! expectations ask for, under which names, whether each passes against what
//! extraction gave, and whether the document passes (every check does).
//! Checks are kept by name, a later check of the same name replacing an
//! earlier one. The scored checks (text recall, reading order, page
//! classifications, table structure, span boxes) compare floating-point
//! ratios with floating-point minimums; their verdicts come in with the
//! expectations, and the counts behind them are computed by
//! `text_recall_counts`, `reading_order_outcome`, `classify_pages`,
//! `table_structure_diff` and their kind.
use vstd::prelude::*;

use crate::anchors::{required_text_missing, texts_of, unmatched_anchors};
use crate::categories::{normalize_manifest_category, normalized_category, string_opt_view};
use crate::countmap::CountMap;
use crate::eval_summary::{ArtifactCacheOutcome, EvalDocumentSummary};
use crate::metrics::{QualityFlagCounts, RouteCounts};
use crate::numbers::{decimal, zero_padded, zero_padded_chars};
use crate::page_checks::{
    check_passes, expected_kinds, page_check_name, page_count_in, page_expectation_checks,
    page_ref_view, strings_not_in, strings_not_in_exec, table_expectation_indices, ObservedPage,
    PageExpectation,
};
use crate::quality_flags::{
    contains_flag, flags_not_in, flags_on, flags_on_exec, on_page, page_quality_name, push_on_page,
    push_with_flag, quality_name, unexpected_flags, with_flag, PageQuality,
};
use crate::text::{append_chars, copy_string, join_strings, join_with, lit, str_eq, string_of};

verus! {

/// A page of an extracted document, with its index.
pub struct DocumentPage {
    pub index: u32,
    pub page: ObservedPage,
}

/// What extraction gave for a document.
pub struct ObservedDocument {
    /// The backend that extracted it.
    pub backend: String,
    pub fingerprint: String,
    pub source_size_bytes: u64,
    pub source_modified_unix_ms: u64,
    pub pages: Vec<DocumentPage>,
    pub cache: ArtifactCacheOutcome,
    pub fallback_pages: u32,
    pub ocr_required_pages: u32,
    pub ocr_applied_pages: u32,
    pub image_artifact_count: u32,
    pub image_artifact_pages: u32,
    pub warnings: Vec<String>,
    pub route_counts: RouteCounts,
    pub route_reason_counts: CountMap<u32>,
    pub quality_flag_counts: QualityFlagCounts,
}

/// A scored page classification: the pages expected to carry a flag, and the
/// verdict of its precision and recall minimums.
pub struct ScoredFlagPages {
    pub flag: PageQuality,
    pub expected_pages: Vec<u32>,
    pub passed: bool,
}

/// A table-structure expectation: its page, and the verdict of its
/// precision, recall and F1 minimums.
pub struct ScoredTable {
    pub page: u32,
    pub passed: bool,
}

/// What a manifest expects of a document, for the backend that extracted
/// it. Each value that is given, and each non-empty list, asks for a check.
pub struct DocumentExpectation {
    pub path: String,
    pub category: Option<String>,
    pub document_fingerprint: Option<String>,
    pub source_size_bytes: Option<u64>,
    pub source_modified_unix_ms: Option<u64>,
    pub page_count: Option<usize>,
    pub fallback_pages: Option<u32>,
    pub ocr_required_pages: Option<u32>,
    pub ocr_applied_pages: Option<u32>,
    pub image_artifact_count: Option<u32>,
    pub warnings_count: Option<usize>,
    pub route_counts: Option<RouteCounts>,
    pub quality_flag_counts: Option<QualityFlagCounts>,
    pub route_reason_counts: CountMap<u32>,
    pub required_text: Vec<String>,
    pub required_warnings: Vec<String>,
    /// The verdict of the text-recall check, when one is expected.
    pub text_recall_passed: Option<bool>,
    /// The verdict of the reading-order check, when one is expected.
    pub reading_order_passed: Option<bool>,
    /// The pages expected to need OCR, when classified, and the verdict.
    pub ocr_required_classification: Option<ScoredFlagPages>,
    /// The most silent failures allowed (none when not given), when checked.
    pub silent_failures_max_count: Option<Option<usize>>,
    pub quality_flag_classification: Vec<ScoredFlagPages>,
    pub table_structure: Vec<ScoredTable>,
    /// The verdict of each span-box expectation, in order.
    pub span_bbox_passed: Vec<bool>,
    pub pages: Vec<PageExpectation>,
}

/// Checks by name and outcome, in the order they are made.
pub open spec fn checks_view(v: Seq<(String, bool)>) -> Seq<(Seq<char>, bool)> {
    v.map_values(|c: (String, bool)| (c.0@, c.1))
}

/// One check, when a condition holds.
pub open spec fn check_if(b: bool, name: Seq<char>, passed: bool) -> Seq<(Seq<char>, bool)> {
    if b {
        seq![(name, passed)]
    } else {
        seq![]
    }
}

/// The document's text for quality checks: its pages' texts, one per line.
pub open spec fn document_text_of(d: ObservedDocument) -> Seq<char> {
    join_with(d.pages@.map_values(|p: DocumentPage| p.page.quality_text@), seq!['\n'])
}

/// The checks of the document's identity and page count.
pub open spec fn identity_checks(e: DocumentExpectation, d: ObservedDocument) -> Seq<(Seq<char>, bool)> {
    check_if(
        e.document_fingerprint is Some,
        "document_fingerprint"@,
        e.document_fingerprint matches Some(f) && f@ == d.fingerprint@,
    ) + check_if(
        e.source_size_bytes is Some,
        "source_size_bytes"@,
        e.source_size_bytes == Some(d.source_size_bytes),
    ) + check_if(
        e.source_modified_unix_ms is Some,
        "source_modified_unix_ms"@,
        e.source_modified_unix_ms == Some(d.source_modified_unix_ms),
    ) + check_if(e.page_count is Some, "page_count"@, e.page_count == Some(d.pages@.len() as usize))
}

/// The checks of the document's page and warning counts.
pub open spec fn number_checks(e: DocumentExpectation, d: ObservedDocument) -> Seq<(Seq<char>, bool)> {
    check_if(e.fallback_pages is Some, "fallback_pages"@, e.fallback_pages == Some(d.fallback_pages))
        + check_if(
        e.ocr_required_pages is Some,
        "ocr_required_pages"@,
        e.ocr_required_pages == Some(d.ocr_required_pages),
    ) + check_if(
        e.ocr_applied_pages is Some,
        "ocr_applied_pages"@,
        e.ocr_applied_pages == Some(d.ocr_applied_pages),
    ) + check_if(
        e.image_artifact_count is Some,
        "image_artifact_count"@,
        e.image_artifact_count == Some(d.image_artifact_count),
    ) + check_if(
        e.warnings_count is Some,
        "warnings_count"@,
        e.warnings_count == Some(d.warnings@.len() as usize),
    )
}

/// The checks of the document's routes, flags, texts and warnings.
pub open spec fn content_checks(e: DocumentExpectation, d: ObservedDocument) -> Seq<(Seq<char>, bool)> {
    check_if(e.route_counts is Some, "route_counts"@, e.route_counts == Some(d.route_counts))
        + check_if(
        e.quality_flag_counts is Some,
        "quality_flag_counts"@,
        e.quality_flag_counts == Some(d.quality_flag_counts),
    ) + check_if(
        e.route_reason_counts.keys_view().len() > 0,
        "route_reason_counts"@,
        e.route_reason_counts.as_map() == d.route_reason_counts.as_map(),
    ) + check_if(
        e.required_text@.len() > 0,
        "required_text"@,
        unmatched_anchors(texts_of(e.required_text@), document_text_of(d)).len() == 0,
    ) + check_if(
        e.required_warnings@.len() > 0,
        "required_warnings"@,
        strings_not_in(texts_of(e.required_warnings@), texts_of(d.warnings@)).len() == 0,
    )
}

/// The checks of the document's own counts and identity.
pub open spec fn count_checks(e: DocumentExpectation, d: ObservedDocument) -> Seq<(Seq<char>, bool)> {
    identity_checks(e, d) + number_checks(e, d)
}

// ---------------------------------------------------------------------------
// Silent failures
// ---------------------------------------------------------------------------

pub open spec fn page_insertions(pes: Seq<PageExpectation>) -> Seq<(u32, PageQuality)>
    decreases pes.len(),
{
    if pes.len() == 0 {
        seq![]
    } else {
        page_insertions(pes.drop_last()) + on_page(pes.last().index, pes.last().required_flags@)
    }
}

pub open spec fn classification_insertions(cs: Seq<ScoredFlagPages>) -> Seq<(u32, PageQuality)>
    decreases cs.len(),
{
    if cs.len() == 0 {
        seq![]
    } else {
        classification_insertions(cs.drop_last()) + with_flag(cs.last().expected_pages@, cs.last().flag)
    }
}

pub open spec fn table_insertions(ts: Seq<ScoredTable>) -> Seq<(u32, PageQuality)> {
    ts.map_values(|t: ScoredTable| (t.page, PageQuality::TableUncertain))
}

/// Every (page, flag) the expectations announce, in order: the pages' own
/// flags, the pages needing OCR, the flag classifications, and the pages
/// whose tables are checked (their tables are uncertain).
pub open spec fn announced_flags(e: DocumentExpectation) -> Seq<(u32, PageQuality)> {
    page_insertions(e.pages@) + match e.ocr_required_classification {
        Some(c) => with_flag(c.expected_pages@, PageQuality::RequiresOcr),
        None => seq![],
    } + classification_insertions(e.quality_flag_classification@) + table_insertions(
        e.table_structure@,
    )
}

/// Whether a page's expectation says it comes out without text.
pub open spec fn expects_empty(pes: Seq<PageExpectation>, index: u32) -> bool {
    exists|i: int| 0 <= i < pes.len() && #[trigger] pes[i].index == index && pes[i].empty_text_output
        == Some(true)
}

/// A page fails silently when it carries a flag nothing announced, or has
/// no text where neither its expectation nor an announced need for OCR said
/// so.
pub open spec fn fails_silently(e: DocumentExpectation, p: DocumentPage) -> bool {
    let expected = flags_on(announced_flags(e), p.index);
    unexpected_flags(p.page.flags@, expected).len() > 0 || (p.page.text_empty && !expects_empty(
        e.pages@,
        p.index,
    ) && !expected.contains(PageQuality::RequiresOcr))
}

/// How many pages fail silently.
pub open spec fn silent_count(e: DocumentExpectation, pages: Seq<DocumentPage>) -> nat
    decreases pages.len(),
{
    if pages.len() == 0 {
        0
    } else {
        silent_count(e, pages.drop_last()) + if fails_silently(e, pages.last()) {
            1nat
        } else {
            0nat
        }
    }
}

/// The verdict of the OCR classification, when one is expected.
pub open spec fn ocr_verdict(e: DocumentExpectation) -> bool {
    e.ocr_required_classification matches Some(c) && c.passed
}

pub open spec fn max_or_zero(m: Option<usize>) -> nat {
    match m {
        Some(n) => n as nat,
        None => 0,
    }
}

/// The checks of the scored expectations and of silent failures.
pub open spec fn scored_checks(e: DocumentExpectation, d: ObservedDocument) -> Seq<(Seq<char>, bool)> {
    check_if(e.text_recall_passed is Some, "text_recall"@, e.text_recall_passed == Some(true))
        + check_if(
        e.reading_order_passed is Some,
        "reading_order"@,
        e.reading_order_passed == Some(true),
    ) + check_if(
        e.ocr_required_classification is Some,
        "ocr_required_classification"@,
        ocr_verdict(e),
    ) + check_if(
        e.silent_failures_max_count is Some,
        "silent_failures"@,
        e.silent_failures_max_count matches Some(m) && silent_count(e, d.pages@) <= max_or_zero(m),
    )
}

// ---------------------------------------------------------------------------
// Named lists of checks
// ---------------------------------------------------------------------------

pub open spec fn classification_checks(cs: Seq<ScoredFlagPages>) -> Seq<(Seq<char>, bool)> {
    cs.map_values(|c: ScoredFlagPages| ("quality_flag_classification."@ + quality_name(c.flag), c.passed))
}

pub open spec fn table_pages(ts: Seq<ScoredTable>) -> Seq<u32> {
    ts.map_values(|t: ScoredTable| t.page)
}

/// A table-structure check's name: by page, and by its number among the
/// page's expectations where the page has several.
pub open spec fn table_check_name(pages: Seq<u32>, k: int) -> Seq<char> {
    let base = "table_structure.page_"@ + zero_padded(decimal(pages[k] as nat), 6);
    if page_count_in(pages, pages[k]) > 1 {
        base + ".expectation_"@ + zero_padded(decimal(page_count_in(pages.take(k), pages[k])), 6)
    } else {
        base
    }
}

pub open spec fn table_checks(ts: Seq<ScoredTable>) -> Seq<(Seq<char>, bool)> {
    Seq::new(ts.len(), |k: int| (table_check_name(table_pages(ts), k), ts[k].passed))
}

pub open spec fn span_checks(v: Seq<bool>) -> Seq<(Seq<char>, bool)> {
    Seq::new(v.len(), |k: int| ("span_bbox."@ + zero_padded(decimal(k as nat), 6), v[k]))
}

/// The first page of an index.
pub open spec fn find_page(pages: Seq<DocumentPage>, index: u32) -> Option<ObservedPage>
    decreases pages.len(),
{
    if pages.len() == 0 {
        None
    } else {
        match find_page(pages.drop_last(), index) {
            Some(p) => Some(p),
            None => if pages.last().index == index {
                Some(pages.last().page)
            } else {
                None
            },
        }
    }
}

/// The checks of one page expectation.
pub open spec fn page_part(pe: PageExpectation, page: Option<ObservedPage>) -> Seq<(Seq<char>, bool)> {
    expected_kinds(pe).map_values(
        |k: crate::page_checks::PageCheckKind| (page_check_name(pe.index, k), check_passes(pe, page, k)),
    )
}

pub open spec fn pages_checks(pes: Seq<PageExpectation>, pages: Seq<DocumentPage>) -> Seq<(Seq<char>, bool)>
    decreases pes.len(),
{
    if pes.len() == 0 {
        seq![]
    } else {
        pages_checks(pes.drop_last(), pages) + page_part(pes.last(), find_page(pages, pes.last().index))
    }
}

/// Every check of the document, in the order they are made.
pub open spec fn document_checks(e: DocumentExpectation, d: ObservedDocument) -> Seq<(Seq<char>, bool)> {
    count_checks(e, d) + content_checks(e, d) + scored_checks(e, d) + classification_checks(
        e.quality_flag_classification@,
    ) + table_checks(e.table_structure@) + span_checks(e.span_bbox_passed@) + pages_checks(
        e.pages@,
        d.pages@,
    )
}

/// The checks by name, a later one replacing an earlier one of the same name.
pub open spec fn check_map(cs: Seq<(Seq<char>, bool)>) -> Map<Seq<char>, bool>
    decreases cs.len(),
{
    if cs.len() == 0 {
        Map::empty()
    } else {
        check_map(cs.drop_last()).insert(cs.last().0, cs.last().1)
    }
}

/// The names, in the given order, of the checks that failed.
pub open spec fn failed_names(keys: Seq<Seq<char>>, m: Map<Seq<char>, bool>) -> Seq<Seq<char>>
    decreases keys.len(),
{
    if keys.len() == 0 {
        seq![]
    } else {
        let prev = failed_names(keys.drop_last(), m);
        if m[keys.last()] {
            prev
        } else {
            prev.push(keys.last())
        }
    }
}

// ---------------------------------------------------------------------------
// Building the checks
// ---------------------------------------------------------------------------

fn push_check_if(out: &mut Vec<(String, bool)>, b: bool, name: &str, passed: bool)
    ensures
        checks_view(final(out)@) == checks_view(old(out)@) + check_if(b, name@, passed),
{
    let ghost before = out@;
    if b {
        out.push((name.to_string(), passed));
    }
    assert(checks_view(out@) =~= checks_view(before) + check_if(b, name@, passed));
}

fn opt_eq_u32(e: Option<u32>, a: u32) -> (r: bool)
    ensures
        r == (e == Some(a)),
{
    match e {
        Some(v) => v == a,
        None => false,
    }
}

fn opt_eq_usize(e: Option<usize>, a: usize) -> (r: bool)
    ensures
        r == (e == Some(a)),
{
    match e {
        Some(v) => v == a,
        None => false,
    }
}

fn opt_eq_u64(e: Option<u64>, a: u64) -> (r: bool)
    ensures
        r == (e == Some(a)),
{
    match e {
        Some(v) => v == a,
        None => false,
    }
}

fn push_identity_checks(out: &mut Vec<(String, bool)>, e: &DocumentExpectation, d: &ObservedDocument)
    ensures
        checks_view(final(out)@) == checks_view(old(out)@) + identity_checks(*e, *d),
{
    let ghost start = checks_view(out@);
    let fingerprint_ok = match &e.document_fingerprint {
        Some(f) => str_eq(f.as_str(), d.fingerprint.as_str()),
        None => false,
    };
    push_check_if(out, e.document_fingerprint.is_some(), "document_fingerprint", fingerprint_ok);
    let ghost s1 = checks_view(out@);
    push_check_if(
        out,
        e.source_size_bytes.is_some(),
        "source_size_bytes",
        opt_eq_u64(e.source_size_bytes, d.source_size_bytes),
    );
    let ghost s2 = checks_view(out@);
    push_check_if(
        out,
        e.source_modified_unix_ms.is_some(),
        "source_modified_unix_ms",
        opt_eq_u64(e.source_modified_unix_ms, d.source_modified_unix_ms),
    );
    let ghost s3 = checks_view(out@);
    push_check_if(out, e.page_count.is_some(), "page_count", opt_eq_usize(e.page_count, d.pages.len()));
    assert(checks_view(out@) =~= start + identity_checks(*e, *d));
}

/// `(s + a) + b` and `s + (a + b)` are the same sequence.
proof fn lemma_concat_assoc(s: Seq<(Seq<char>, bool)>, a: Seq<(Seq<char>, bool)>, b: Seq<(Seq<char>, bool)>)
    ensures
        (s + a) + b == s + (a + b),
{
    assert((s + a) + b =~= s + (a + b));
}

fn push_number_checks(out: &mut Vec<(String, bool)>, e: &DocumentExpectation, d: &ObservedDocument)
    ensures
        checks_view(final(out)@) == checks_view(old(out)@) + number_checks(*e, *d),
{
    let ghost start = checks_view(out@);
    let ghost c1 = check_if(e.fallback_pages is Some, "fallback_pages"@, e.fallback_pages == Some(d.fallback_pages));
    let ghost c2 = check_if(e.ocr_required_pages is Some, "ocr_required_pages"@, e.ocr_required_pages == Some(d.ocr_required_pages));
    let ghost c3 = check_if(e.ocr_applied_pages is Some, "ocr_applied_pages"@, e.ocr_applied_pages == Some(d.ocr_applied_pages));
    let ghost c4 = check_if(e.image_artifact_count is Some, "image_artifact_count"@, e.image_artifact_count == Some(d.image_artifact_count));
    let ghost c5 = check_if(e.warnings_count is Some, "warnings_count"@, e.warnings_count == Some(d.warnings@.len() as usize));
    push_check_if(
        out,
        e.fallback_pages.is_some(),
        "fallback_pages",
        opt_eq_u32(e.fallback_pages, d.fallback_pages),
    );
    push_check_if(
        out,
        e.ocr_required_pages.is_some(),
        "ocr_required_pages",
        opt_eq_u32(e.ocr_required_pages, d.ocr_required_pages),
    );
    proof {
        lemma_concat_assoc(start, c1, c2);
    }
    push_check_if(
        out,
        e.ocr_applied_pages.is_some(),
        "ocr_applied_pages",
        opt_eq_u32(e.ocr_applied_pages, d.ocr_applied_pages),
    );
    proof {
        lemma_concat_assoc(start, c1 + c2, c3);
    }
    push_check_if(
        out,
        e.image_artifact_count.is_some(),
        "image_artifact_count",
        opt_eq_u32(e.image_artifact_count, d.image_artifact_count),
    );
    proof {
        lemma_concat_assoc(start, c1 + c2 + c3, c4);
    }
    push_check_if(
        out,
        e.warnings_count.is_some(),
        "warnings_count",
        opt_eq_usize(e.warnings_count, d.warnings.len()),
    );
    proof {
        lemma_concat_assoc(start, c1 + c2 + c3 + c4, c5);
        assert(number_checks(*e, *d) == c1 + c2 + c3 + c4 + c5);
    }
}

fn push_count_checks(out: &mut Vec<(String, bool)>, e: &DocumentExpectation, d: &ObservedDocument)
    ensures
        checks_view(final(out)@) == checks_view(old(out)@) + count_checks(*e, *d),
{
    let ghost start = checks_view(out@);
    push_identity_checks(out, e, d);
    push_number_checks(out, e, d);
    proof {
        lemma_concat_assoc(start, identity_checks(*e, *d), number_checks(*e, *d));
    }
}

/// Whether two route-reason tallies hold the same counts.
fn count_maps_equal(a: &CountMap<u32>, b: &CountMap<u32>) -> (r: bool)
    requires
        a.wf(),
        b.wf(),
    ensures
        r == (a.as_map() == b.as_map()),
{
    proof {
        if a.as_map() == b.as_map() {
            a.lemma_same_contents(b);
        }
    }
    let n = a.len();
    if n != b.len() {
        return false;
    }
    let mut i: usize = 0;
    while i < n
        invariant
            a.wf(),
            b.wf(),
            n == a.keys_view().len(),
            n == b.keys_view().len(),
            i <= n,
            a.as_map() == b.as_map() ==> a.keys_view() == b.keys_view() && a.values_view()
                == b.values_view(),
            forall|j: int| 0 <= j < i ==> a.keys_view()[j] == b.keys_view()[j] && a.values_view()[j]
                == b.values_view()[j],
        decreases n - i,
    {
        if !str_eq(a.key(i).as_str(), b.key(i).as_str()) || a.value(i) != b.value(i) {
            return false;
        }
        i += 1;
    }
    proof {
        assert(a.keys_view() =~= b.keys_view());
        assert(a.values_view() =~= b.values_view());
    }
    true
}

/// The document's text for quality checks.
fn document_text_exec(d: &ObservedDocument) -> (r: String)
    ensures
        r@ == document_text_of(*d),
{
    let ghost all = d.pages@.map_values(|p: DocumentPage| p.page.quality_text@);
    let mut texts: Vec<String> = Vec::new();
    let mut i: usize = 0;
    while i < d.pages.len()
        invariant
            i <= d.pages@.len(),
            all == d.pages@.map_values(|p: DocumentPage| p.page.quality_text@),
            texts.deep_view() == all.take(i as int),
        decreases d.pages@.len() - i,
    {
        let t = copy_string(&d.pages[i].page.quality_text);
        let ghost prev = texts@;
        texts.push(t);
        proof {
            crate::views::lemma_vec_dview(texts);
            crate::views::lemma_dview_push(prev, t);
            crate::views::lemma_vec_dview(texts);
            assert(texts.deep_view() =~= all.take(i + 1));
        }
        i += 1;
    }
    proof {
        assert(all.take(d.pages@.len() as int) =~= all);
    }
    let newline = "\n";
    proof {
        reveal_strlit("\n");
    }
    assert(newline@ =~= seq!['\n']);
    join_strings(&texts, newline)
}

fn push_content_checks(out: &mut Vec<(String, bool)>, e: &DocumentExpectation, d: &ObservedDocument)
    requires
        e.route_reason_counts.wf(),
        d.route_reason_counts.wf(),
    ensures
        checks_view(final(out)@) == checks_view(old(out)@) + content_checks(*e, *d),
{
    let ghost start = checks_view(out@);
    let ghost c1 = check_if(e.route_counts is Some, "route_counts"@, e.route_counts == Some(d.route_counts));
    let ghost c2 = check_if(e.quality_flag_counts is Some, "quality_flag_counts"@, e.quality_flag_counts == Some(d.quality_flag_counts));
    let ghost c3 = check_if(
        e.route_reason_counts.keys_view().len() > 0,
        "route_reason_counts"@,
        e.route_reason_counts.as_map() == d.route_reason_counts.as_map(),
    );
    let ghost c4 = check_if(
        e.required_text@.len() > 0,
        "required_text"@,
        unmatched_anchors(texts_of(e.required_text@), document_text_of(*d)).len() == 0,
    );
    let ghost c5 = check_if(
        e.required_warnings@.len() > 0,
        "required_warnings"@,
        strings_not_in(texts_of(e.required_warnings@), texts_of(d.warnings@)).len() == 0,
    );
    let routes_ok = match e.route_counts {
        Some(rc) => rc == d.route_counts,
        None => false,
    };
    push_check_if(out, e.route_counts.is_some(), "route_counts", routes_ok);
    let flags_ok = match e.quality_flag_counts {
        Some(q) => q == d.quality_flag_counts,
        None => false,
    };
    push_check_if(out, e.quality_flag_counts.is_some(), "quality_flag_counts", flags_ok);
    proof {
        lemma_concat_assoc(start, c1, c2);
    }
    let reasons_ok = count_maps_equal(&e.route_reason_counts, &d.route_reason_counts);
    let has_reasons = e.route_reason_counts.len() > 0;
    push_check_if(out, has_reasons, "route_reason_counts", reasons_ok);
    proof {
        lemma_concat_assoc(start, c1 + c2, c3);
    }
    let text = document_text_exec(d);
    let missing_text = required_text_missing(e.required_text.as_slice(), text.as_str());
    proof {
        crate::views::lemma_vec_dview(missing_text);
    }
    push_check_if(out, e.required_text.len() > 0, "required_text", missing_text.len() == 0);
    proof {
        lemma_concat_assoc(start, c1 + c2 + c3, c4);
    }
    let missing_warnings = strings_not_in_exec(&e.required_warnings, &d.warnings);
    push_check_if(out, e.required_warnings.len() > 0, "required_warnings", missing_warnings.len() == 0);
    proof {
        lemma_concat_assoc(start, c1 + c2 + c3 + c4, c5);
        assert(content_checks(*e, *d) == c1 + c2 + c3 + c4 + c5);
    }
}

fn announced_flags_exec(e: &DocumentExpectation) -> (r: Vec<(u32, PageQuality)>)
    ensures
        r@ == announced_flags(*e),
{
    let mut out: Vec<(u32, PageQuality)> = Vec::new();
    let mut i: usize = 0;
    while i < e.pages.len()
        invariant
            i <= e.pages@.len(),
            out@ == page_insertions(e.pages@.take(i as int)),
        decreases e.pages@.len() - i,
    {
        proof {
            assert(e.pages@.take(i + 1).drop_last() =~= e.pages@.take(i as int));
        }
        push_on_page(&mut out, e.pages[i].index, &e.pages[i].required_flags);
        i += 1;
    }
    proof {
        assert(e.pages@.take(e.pages@.len() as int) =~= e.pages@);
    }
    let ghost after_pages = out@;
    match &e.ocr_required_classification {
        Some(c) => push_with_flag(&mut out, &c.expected_pages, PageQuality::RequiresOcr),
        None => {
            assert(out@ =~= after_pages + seq![]);
        },
    }
    let ghost after_ocr = out@;
    let mut k: usize = 0;
    while k < e.quality_flag_classification.len()
        invariant
            k <= e.quality_flag_classification@.len(),
            out@ == after_ocr + classification_insertions(e.quality_flag_classification@.take(k as int)),
        decreases e.quality_flag_classification@.len() - k,
    {
        proof {
            assert(e.quality_flag_classification@.take(k + 1).drop_last()
                =~= e.quality_flag_classification@.take(k as int));
        }
        let ghost before = out@;
        push_with_flag(
            &mut out,
            &e.quality_flag_classification[k].expected_pages,
            e.quality_flag_classification[k].flag,
        );
        proof {
            let cs = e.quality_flag_classification@.take(k + 1);
            assert(cs.last() == e.quality_flag_classification@[k as int]);
            assert(out@ =~= after_ocr + classification_insertions(cs));
        }
        k += 1;
    }
    proof {
        assert(e.quality_flag_classification@.take(e.quality_flag_classification@.len() as int)
            =~= e.quality_flag_classification@);
    }
    let ghost after_cls = out@;
    let mut t: usize = 0;
    while t < e.table_structure.len()
        invariant
            t <= e.table_structure@.len(),
            out@ == after_cls + table_insertions(e.table_structure@.take(t as int)),
        decreases e.table_structure@.len() - t,
    {
        out.push((e.table_structure[t].page, PageQuality::TableUncertain));
        t += 1;
        assert(out@ =~= after_cls + table_insertions(e.table_structure@.take(t as int)));
    }
    proof {
        assert(e.table_structure@.take(e.table_structure@.len() as int) =~= e.table_structure@);
        assert(out@ =~= announced_flags(*e));
    }
    out
}

fn expects_empty_exec(pes: &Vec<PageExpectation>, index: u32) -> (r: bool)
    ensures
        r == expects_empty(pes@, index),
{
    let mut i: usize = 0;
    while i < pes.len()
        invariant
            i <= pes@.len(),
            forall|k: int| 0 <= k < i ==> !(#[trigger] pes@[k].index == index && pes@[k].empty_text_output
                == Some(true)),
        decreases pes@.len() - i,
    {
        if pes[i].index == index {
            if let Some(true) = pes[i].empty_text_output {
                assert(pes@[i as int].index == index);
                return true;
            }
        }
        i += 1;
    }
    false
}

proof fn lemma_silent_count_bound(e: DocumentExpectation, pages: Seq<DocumentPage>)
    ensures
        silent_count(e, pages) <= pages.len(),
    decreases pages.len(),
{
    if pages.len() > 0 {
        lemma_silent_count_bound(e, pages.drop_last());
    }
}

/// Counts the pages that fail silently.
fn silent_count_exec(e: &DocumentExpectation, d: &ObservedDocument) -> (n: usize)
    ensures
        n == silent_count(*e, d.pages@),
{
    let ins = announced_flags_exec(e);
    let mut n: usize = 0;
    let mut i: usize = 0;
    while i < d.pages.len()
        invariant
            i <= d.pages@.len(),
            ins@ == announced_flags(*e),
            n == silent_count(*e, d.pages@.take(i as int)),
        decreases d.pages@.len() - i,
    {
        proof {
            assert(d.pages@.take(i + 1).drop_last() =~= d.pages@.take(i as int));
            assert(d.pages@.take(i + 1).last() == d.pages@[i as int]);
            lemma_silent_count_bound(*e, d.pages@.take(i as int));
        }
        let p = &d.pages[i];
        let expected = flags_on_exec(&ins, p.index);
        let unexpected = flags_not_in(&p.page.flags, &expected);
        let silent = unexpected.len() > 0 || (p.page.text_empty && !expects_empty_exec(&e.pages, p.index)
            && !contains_flag(&expected, PageQuality::RequiresOcr));
        if silent {
            n = n + 1;
        }
        i += 1;
    }
    proof {
        assert(d.pages@.take(d.pages@.len() as int) =~= d.pages@);
    }
    n
}

fn push_scored_checks(out: &mut Vec<(String, bool)>, e: &DocumentExpectation, d: &ObservedDocument)
    ensures
        checks_view(final(out)@) == checks_view(old(out)@) + scored_checks(*e, *d),
{
    let ghost start = checks_view(out@);
    let ghost c1 = check_if(e.text_recall_passed is Some, "text_recall"@, e.text_recall_passed == Some(true));
    let ghost c2 = check_if(e.reading_order_passed is Some, "reading_order"@, e.reading_order_passed == Some(true));
    let ghost c3 = check_if(
        e.ocr_required_classification is Some,
        "ocr_required_classification"@,
        ocr_verdict(*e),
    );
    let ghost c4 = check_if(
        e.silent_failures_max_count is Some,
        "silent_failures"@,
        e.silent_failures_max_count matches Some(m) && silent_count(*e, d.pages@) <= max_or_zero(m),
    );
    push_check_if(out, e.text_recall_passed.is_some(), "text_recall", e.text_recall_passed == Some(true));
    push_check_if(out, e.reading_order_passed.is_some(), "reading_order", e.reading_order_passed == Some(true));
    proof {
        lemma_concat_assoc(start, c1, c2);
    }
    let ocr_ok = match &e.ocr_required_classification {
        Some(c) => c.passed,
        None => false,
    };
    push_check_if(out, e.ocr_required_classification.is_some(), "ocr_required_classification", ocr_ok);
    proof {
        lemma_concat_assoc(start, c1 + c2, c3);
    }
    let silent_ok = match e.silent_failures_max_count {
        Some(m) => {
            let limit: usize = match m {
                Some(x) => x,
                None => 0,
            };
            silent_count_exec(e, d) <= limit
        },
        None => false,
    };
    push_check_if(out, e.silent_failures_max_count.is_some(), "silent_failures", silent_ok);
    proof {
        lemma_concat_assoc(start, c1 + c2 + c3, c4);
        assert(scored_checks(*e, *d) == c1 + c2 + c3 + c4);
    }
}

fn push_classification_checks(out: &mut Vec<(String, bool)>, cs: &Vec<ScoredFlagPages>)
    ensures
        checks_view(final(out)@) == checks_view(old(out)@) + classification_checks(cs@),
{
    let ghost start = checks_view(out@);
    let mut i: usize = 0;
    while i < cs.len()
        invariant
            i <= cs@.len(),
            checks_view(out@) == start + classification_checks(cs@.take(i as int)),
        decreases cs@.len() - i,
    {
        let mut v = lit("quality_flag_classification.");
        let flag = lit(page_quality_name(cs[i].flag));
        append_chars(&mut v, &flag);
        let name = string_of(&v);
        let ghost prev = out@;
        out.push((name, cs[i].passed));
        proof {
            assert(checks_view(out@) =~= checks_view(prev).push((name@, cs@[i as int].passed)));
            assert(classification_checks(cs@.take(i + 1)) =~= classification_checks(cs@.take(i as int)).push(
                ("quality_flag_classification."@ + quality_name(cs@[i as int].flag), cs@[i as int].passed),
            ));
        }
        i += 1;
    }
    proof {
        assert(cs@.take(cs@.len() as int) =~= cs@);
    }
}

proof fn lemma_page_count_bound(pages: Seq<u32>, page: u32)
    ensures
        page_count_in(pages, page) <= pages.len(),
    decreases pages.len(),
{
    if pages.len() > 0 {
        lemma_page_count_bound(pages.drop_last(), page);
    }
}

fn push_table_checks(out: &mut Vec<(String, bool)>, ts: &Vec<ScoredTable>)
    ensures
        checks_view(final(out)@) == checks_view(old(out)@) + table_checks(ts@),
{
    let ghost start = checks_view(out@);
    let mut pages: Vec<u32> = Vec::new();
    let mut p: usize = 0;
    while p < ts.len()
        invariant
            p <= ts@.len(),
            pages@ == table_pages(ts@.take(p as int)),
        decreases ts@.len() - p,
    {
        pages.push(ts[p].page);
        p += 1;
        assert(pages@ =~= table_pages(ts@.take(p as int)));
    }
    assert(ts@.take(ts@.len() as int) =~= ts@);
    let indices = table_expectation_indices(&pages);
    let mut i: usize = 0;
    while i < ts.len()
        invariant
            i <= ts@.len(),
            pages@ == table_pages(ts@),
            indices@.len() == pages@.len(),
            forall|k: int| 0 <= k < pages@.len() ==> #[trigger] indices@[k] == (if page_count_in(pages@, pages@[k]) > 1 {
                Some(page_count_in(pages@.take(k), pages@[k]) as usize)
            } else {
                None
            }),
            checks_view(out@) == start + table_checks(ts@).take(i as int),
        decreases ts@.len() - i,
    {
        let mut v = lit("table_structure.page_");
        let digits = zero_padded_chars(ts[i].page as u64, 6);
        append_chars(&mut v, &digits);
        match indices[i] {
            Some(n) => {
                let mid = lit(".expectation_");
                append_chars(&mut v, &mid);
                let nd = zero_padded_chars(n as u64, 6);
                append_chars(&mut v, &nd);
                proof {
                    lemma_page_count_bound(pages@.take(i as int), pages@[i as int]);
                }
            },
            None => {},
        }
        let name = string_of(&v);
        proof {
            assert(pages@[i as int] == ts@[i as int].page);
            assert(name@ == table_check_name(table_pages(ts@), i as int));
        }
        let ghost prev = out@;
        out.push((name, ts[i].passed));
        proof {
            assert(checks_view(out@) =~= checks_view(prev).push((name@, ts@[i as int].passed)));
            assert(table_checks(ts@).take(i + 1) =~= table_checks(ts@).take(i as int).push(
                table_checks(ts@)[i as int],
            ));
        }
        i += 1;
    }
    proof {
        assert(table_checks(ts@).take(ts@.len() as int) =~= table_checks(ts@));
    }
}

fn push_span_checks(out: &mut Vec<(String, bool)>, v: &Vec<bool>)
    ensures
        checks_view(final(out)@) == checks_view(old(out)@) + span_checks(v@),
{
    let ghost start = checks_view(out@);
    let mut i: usize = 0;
    while i < v.len()
        invariant
            i <= v@.len(),
            checks_view(out@) == start + span_checks(v@).take(i as int),
        decreases v@.len() - i,
    {
        let mut n = lit("span_bbox.");
        let digits = zero_padded_chars(i as u64, 6);
        append_chars(&mut n, &digits);
        let name = string_of(&n);
        let ghost prev = out@;
        out.push((name, v[i]));
        proof {
            assert(checks_view(out@) =~= checks_view(prev).push((name@, v@[i as int])));
            assert(span_checks(v@).take(i + 1) =~= span_checks(v@).take(i as int).push(span_checks(v@)[i as int]));
        }
        i += 1;
    }
    proof {
        assert(span_checks(v@).take(v@.len() as int) =~= span_checks(v@));
    }
}

fn find_page_exec(pages: &Vec<DocumentPage>, index: u32) -> (r: Option<usize>)
    ensures
        match r {
            Some(i) => i < pages@.len() && find_page(pages@, index) == Some(pages@[i as int].page),
            None => find_page(pages@, index) is None,
        },
{
    let mut i: usize = 0;
    while i < pages.len()
        invariant
            i <= pages@.len(),
            find_page(pages@.take(i as int), index) is None,
        decreases pages@.len() - i,
    {
        proof {
            assert(pages@.take(i + 1).drop_last() =~= pages@.take(i as int));
            assert(pages@.take(i + 1).last() == pages@[i as int]);
        }
        if pages[i].index == index {
            proof {
                lemma_find_page_extend(pages@, index, i + 1);
            }
            return Some(i);
        }
        i += 1;
    }
    proof {
        assert(pages@.take(pages@.len() as int) =~= pages@);
    }
    None
}

/// Once the first page of an index is found, later pages change nothing.
proof fn lemma_find_page_extend(pages: Seq<DocumentPage>, index: u32, n: int)
    requires
        0 < n <= pages.len(),
        find_page(pages.take(n), index) is Some,
    ensures
        find_page(pages, index) == find_page(pages.take(n), index),
    decreases pages.len() - n,
{
    if n < pages.len() {
        assert(pages.take(n + 1).drop_last() =~= pages.take(n));
        lemma_find_page_extend(pages, index, n + 1);
    } else {
        assert(pages.take(n) =~= pages);
    }
}

fn push_pages_checks(out: &mut Vec<(String, bool)>, pes: &Vec<PageExpectation>, pages: &Vec<DocumentPage>)
    ensures
        checks_view(final(out)@) == checks_view(old(out)@) + pages_checks(pes@, pages@),
{
    let ghost start = checks_view(out@);
    let mut i: usize = 0;
    while i < pes.len()
        invariant
            i <= pes@.len(),
            checks_view(out@) == start + pages_checks(pes@.take(i as int), pages@),
        decreases pes@.len() - i,
    {
        proof {
            assert(pes@.take(i + 1).drop_last() =~= pes@.take(i as int));
            assert(pes@.take(i + 1).last() == pes@[i as int]);
        }
        let pe = &pes[i];
        let found = find_page_exec(pages, pe.index);
        let page: Option<&ObservedPage> = match found {
            Some(j) => Some(&pages[j].page),
            None => None,
        };
        let ghost pv = find_page(pages@, pe.index);
        assert(page_ref_view(page) == pv);
        let checks = page_expectation_checks(pe, page);
        let ghost mid = checks_view(out@);
        let ghost part = page_part(*pe, pv);
        let mut k: usize = 0;
        while k < checks.len()
            invariant
                k <= checks@.len(),
                checks@.len() == expected_kinds(*pe).len(),
                part == page_part(*pe, pv),
                page_ref_view(page) == pv,
                forall|m: int| 0 <= m < checks@.len() ==> crate::page_checks::is_page_check(*pe, page_ref_view(page), expected_kinds(*pe)[m], #[trigger] checks@[m]),
                checks_view(out@) == mid + part.take(k as int),
            decreases checks@.len() - k,
        {
            let name = copy_string(&checks[k].name);
            let passed = checks[k].passed;
            let ghost prev = out@;
            out.push((name, passed));
            proof {
                assert(crate::page_checks::is_page_check(*pe, pv, expected_kinds(*pe)[k as int], checks@[k as int]));
                assert(checks_view(out@) =~= checks_view(prev).push((name@, passed)));
                assert(part.take(k + 1) =~= part.take(k as int).push(part[k as int]));
            }
            k += 1;
        }
        proof {
            assert(part.take(checks@.len() as int) =~= part);
            lemma_concat_assoc(start, pages_checks(pes@.take(i as int), pages@), part);
        }
        i += 1;
    }
    proof {
        assert(pes@.take(pes@.len() as int) =~= pes@);
    }
}

/// How many pages have no plain text.
pub open spec fn empty_pages(pages: Seq<DocumentPage>) -> nat
    decreases pages.len(),
{
    if pages.len() == 0 {
        0
    } else {
        empty_pages(pages.drop_last()) + if pages.last().page.text_empty {
            1nat
        } else {
            0nat
        }
    }
}

fn empty_pages_exec(pages: &Vec<DocumentPage>) -> (n: usize)
    ensures
        n == empty_pages(pages@),
{
    let mut n: usize = 0;
    let mut i: usize = 0;
    while i < pages.len()
        invariant
            i <= pages@.len(),
            n == empty_pages(pages@.take(i as int)),
            n <= i,
        decreases pages@.len() - i,
    {
        proof {
            assert(pages@.take(i + 1).drop_last() =~= pages@.take(i as int));
            assert(pages@.take(i + 1).last() == pages@[i as int]);
        }
        if pages[i].page.text_empty {
            n = n + 1;
        }
        i += 1;
    }
    proof {
        assert(pages@.take(pages@.len() as int) =~= pages@);
    }
    n
}

proof fn lemma_failed_names_empty(keys: Seq<Seq<char>>, m: Map<Seq<char>, bool>)
    ensures
        failed_names(keys, m).len() == 0 <==> forall|i: int| 0 <= i < keys.len() ==> m[#[trigger] keys[i]],
    decreases keys.len(),
{
    if keys.len() > 0 {
        lemma_failed_names_empty(keys.drop_last(), m);
        assert forall|i: int| 0 <= i < keys.drop_last().len() implies keys.drop_last()[i] == keys[i] by {}
        if failed_names(keys, m).len() == 0 {
            assert forall|i: int| 0 <= i < keys.len() implies m[#[trigger] keys[i]] by {
                if i < keys.len() - 1 {
                    assert(keys.drop_last()[i] == keys[i]);
                }
            }
        }
        if forall|i: int| 0 <= i < keys.len() ==> m[#[trigger] keys[i]] {
            assert(m[keys[keys.len() - 1]]);
            assert forall|i: int| 0 <= i < keys.drop_last().len() implies m[#[trigger] keys.drop_last()[i]] by {
                assert(keys.drop_last()[i] == keys[i]);
            }
        }
    }
}

/// The evaluation of a document: its checks by name and its summary.
pub struct DocumentEval {
    pub checks: CountMap<bool>,
    pub summary: EvalDocumentSummary,
}

/// Whether every check of a map passed.
pub open spec fn all_passed(m: Map<Seq<char>, bool>) -> bool {
    forall|k: Seq<char>| #[trigger] m.dom().contains(k) ==> m[k]
}

/// What the evaluation of a document against its expectations gives: its
/// checks by name (a later check replacing an earlier one of the same name),
/// its failed checks in name order, whether it passed (every check did), and
/// its summary.
pub open spec fn document_evaluated(e: DocumentExpectation, d: ObservedDocument, r: DocumentEval) -> bool {
    &&& r.checks.wf()
    &&& r.checks.as_map() == check_map(document_checks(e, d))
    &&& r.summary.failed_checks.deep_view() == failed_names(r.checks.keys_view(), r.checks.as_map())
    &&& r.summary.passed == (r.summary.failed_checks@.len() == 0)
    &&& r.summary.passed == all_passed(r.checks.as_map())
    &&& r.summary.path@ == e.path@
    &&& string_opt_view(r.summary.category) == (match e.category {
        Some(c) => normalized_category(c@),
        None => None,
    })
    &&& r.summary.page_count == d.pages@.len()
    &&& r.summary.cache == d.cache
    &&& r.summary.fallback_pages == d.fallback_pages
    &&& r.summary.ocr_required_pages == d.ocr_required_pages
    &&& r.summary.ocr_applied_pages == d.ocr_applied_pages
    &&& r.summary.image_artifact_count == d.image_artifact_count
    &&& r.summary.image_artifact_pages == d.image_artifact_pages
    &&& r.summary.empty_text_output_pages == empty_pages(d.pages@)
    &&& r.summary.warnings_count == d.warnings@.len()
}

/// Evaluates an extracted document against what the manifest expects of
/// it: makes each check the expectations ask for, keeps them by name, and
/// sums the document up; it passes when every check passed, and its failed
/// checks are listed in name order.
pub fn document_eval(e: &DocumentExpectation, d: &ObservedDocument) -> (r: DocumentEval)
    requires
        e.route_reason_counts.wf(),
        d.route_reason_counts.wf(),
    ensures
        document_evaluated(*e, *d, r),

{
    let mut list: Vec<(String, bool)> = Vec::new();
    let ghost c0 = checks_view(list@);
    push_count_checks(&mut list, e, d);
    push_content_checks(&mut list, e, d);
    proof {
        lemma_concat_assoc(c0, count_checks(*e, *d), content_checks(*e, *d));
    }
    push_scored_checks(&mut list, e, d);
    proof {
        lemma_concat_assoc(c0, count_checks(*e, *d) + content_checks(*e, *d), scored_checks(*e, *d));
    }
    push_classification_checks(&mut list, &e.quality_flag_classification);
    proof {
        lemma_concat_assoc(
            c0,
            count_checks(*e, *d) + content_checks(*e, *d) + scored_checks(*e, *d),
            classification_checks(e.quality_flag_classification@),
        );
    }
    push_table_checks(&mut list, &e.table_structure);
    proof {
        lemma_concat_assoc(
            c0,
            count_checks(*e, *d) + content_checks(*e, *d) + scored_checks(*e, *d) + classification_checks(
                e.quality_flag_classification@,
            ),
            table_checks(e.table_structure@),
        );
    }
    push_span_checks(&mut list, &e.span_bbox_passed);
    proof {
        lemma_concat_assoc(
            c0,
            count_checks(*e, *d) + content_checks(*e, *d) + scored_checks(*e, *d) + classification_checks(
                e.quality_flag_classification@,
            ) + table_checks(e.table_structure@),
            span_checks(e.span_bbox_passed@),
        );
    }
    push_pages_checks(&mut list, &e.pages, &d.pages);
    proof {
        lemma_concat_assoc(
            c0,
            count_checks(*e, *d) + content_checks(*e, *d) + scored_checks(*e, *d) + classification_checks(
                e.quality_flag_classification@,
            ) + table_checks(e.table_structure@) + span_checks(e.span_bbox_passed@),
            pages_checks(e.pages@, d.pages@),
        );
        assert(c0 =~= Seq::<(Seq<char>, bool)>::empty());
        assert(checks_view(list@) =~= document_checks(*e, *d));
    }
    let ghost all = checks_view(list@);
    let mut checks: CountMap<bool> = CountMap::new();
    proof {
        assert(checks.as_map() =~= check_map(all.take(0)));
    }
    let mut i: usize = 0;
    while i < list.len()
        invariant
            i <= list@.len(),
            all == checks_view(list@),
            checks.wf(),
            checks.as_map() == check_map(all.take(i as int)),
        decreases list@.len() - i,
    {
        proof {
            assert(all.take(i + 1).drop_last() =~= all.take(i as int));
            assert(all.take(i + 1).last() == (list@[i as int].0@, list@[i as int].1));
        }
        let name = copy_string(&list[i].0);
        checks.set(name, list[i].1);
        i += 1;
    }
    proof {
        assert(all.take(list@.len() as int) =~= all);
        checks.lemma_contents();
    }
    let mut failed: Vec<String> = Vec::new();
    let n = checks.len();
    let mut k: usize = 0;
    while k < n
        invariant
            checks.wf(),
            n == checks.keys_view().len(),
            k <= n,
            forall|j: int| 0 <= j < checks.keys_view().len() ==> checks.as_map()[#[trigger] checks.keys_view()[j]]
                == checks.values_view()[j],
            failed.deep_view() == failed_names(checks.keys_view().take(k as int), checks.as_map()),
        decreases n - k,
    {
        proof {
            assert(checks.keys_view().take(k + 1).drop_last() =~= checks.keys_view().take(k as int));
            assert(checks.keys_view().take(k + 1).last() == checks.keys_view()[k as int]);
        }
        if !checks.value(k) {
            let key = copy_string(checks.key(k));
            let ghost prev = failed@;
            failed.push(key);
            proof {
                crate::views::lemma_vec_dview(failed);
                crate::views::lemma_dview_push(prev, key);
                crate::views::lemma_vec_dview(failed);
            }
        }
        k += 1;
    }
    proof {
        assert(checks.keys_view().take(n as int) =~= checks.keys_view());
        crate::views::lemma_vec_dview(failed);
        lemma_failed_names_empty(checks.keys_view(), checks.as_map());
        checks.lemma_contents();
        if forall|j: int| 0 <= j < checks.keys_view().len() ==> checks.as_map()[#[trigger] checks.keys_view()[j]] {
            assert forall|key: Seq<char>| #[trigger] checks.as_map().dom().contains(key) implies checks.as_map()[key] by {
                assert(checks.keys_view().contains(key));
                let j = choose|j: int| 0 <= j < checks.keys_view().len() && checks.keys_view()[j] == key;
                assert(checks.as_map()[checks.keys_view()[j]]);
            }
        }
        if forall|key: Seq<char>| #[trigger] checks.as_map().dom().contains(key) ==> checks.as_map()[key] {
            assert forall|j: int| 0 <= j < checks.keys_view().len() implies checks.as_map()[#[trigger] checks.keys_view()[j]] by {
                assert(checks.keys_view().contains(checks.keys_view()[j]));
                assert(checks.as_map().dom().contains(checks.keys_view()[j]));
            }
        }
    }
    let passed = failed.len() == 0;
    assert(passed == all_passed(checks.as_map()));
    let category = match &e.category {
        Some(c) => normalize_manifest_category(Some(c.as_str())),
        None => normalize_manifest_category(None),
    };
    let summary = EvalDocumentSummary {
        path: copy_string(&e.path),
        category,
        page_count: d.pages.len(),
        cache: d.cache,
        fallback_pages: d.fallback_pages,
        ocr_required_pages: d.ocr_required_pages,
        ocr_applied_pages: d.ocr_applied_pages,
        image_artifact_count: d.image_artifact_count,
        image_artifact_pages: d.image_artifact_pages,
        empty_text_output_pages: empty_pages_exec(&d.pages),
        warnings_count: d.warnings.len(),
        passed,
        failed_checks: failed,
    };
    DocumentEval { checks, summary }
}

// ---------------------------------------------------------------------------
// Silent failures of empty pages
// ---------------------------------------------------------------------------

/// Whatever lists a (page, flag) pair among a page's flags has it as one of
/// its pairs.
proof fn lemma_flags_on_source(ins: Seq<(u32, PageQuality)>, page: u32, f: PageQuality)
    ensures
        flags_on(ins, page).contains(f) ==> ins.contains((page, f)),
    decreases ins.len(),
{
    if ins.len() > 0 {
        lemma_flags_on_source(ins.drop_last(), page, f);
        if flags_on(ins.drop_last(), page).contains(f) {
            let j = choose|j: int| 0 <= j < ins.drop_last().len() && ins.drop_last()[j] == (page, f);
            assert(ins[j] == (page, f));
        }
        if flags_on(ins, page).contains(f) && !flags_on(ins.drop_last(), page).contains(f) {
            let prev = flags_on(ins.drop_last(), page);
            assert(prev.push(ins.last().1).contains(f));
            let j = choose|j: int| 0 <= j < prev.push(ins.last().1).len() && prev.push(ins.last().1)[j] == f;
            if j < prev.len() {
                assert(prev[j] == f);
            }
            assert(ins[ins.len() - 1] == (page, f));
        }
    }
}

proof fn lemma_concat_contains<T>(a: Seq<T>, b: Seq<T>, x: T)
    ensures
        (a + b).contains(x) ==> a.contains(x) || b.contains(x),
{
    if (a + b).contains(x) {
        let j = choose|j: int| 0 <= j < (a + b).len() && (a + b)[j] == x;
        if j < a.len() {
            assert(a[j] == x);
        } else {
            assert(b[j - a.len()] == x);
        }
    }
}

proof fn lemma_page_insertions_source(pes: Seq<PageExpectation>, page: u32, f: PageQuality)
    ensures
        page_insertions(pes).contains((page, f)) ==> exists|i: int|
            0 <= i < pes.len() && (#[trigger] pes[i]).index == page && pes[i].required_flags@.contains(f),
    decreases pes.len(),
{
    if pes.len() > 0 {
        let last = pes.last();
        lemma_page_insertions_source(pes.drop_last(), page, f);
        lemma_concat_contains(page_insertions(pes.drop_last()), on_page(last.index, last.required_flags@), (page, f));
        if page_insertions(pes.drop_last()).contains((page, f)) {
            let i = choose|i: int|
                0 <= i < pes.drop_last().len() && (#[trigger] pes.drop_last()[i]).index == page
                    && pes.drop_last()[i].required_flags@.contains(f);
            assert(pes[i] == pes.drop_last()[i]);
        }
        if on_page(last.index, last.required_flags@).contains((page, f)) {
            let j = choose|j: int|
                0 <= j < on_page(last.index, last.required_flags@).len() && on_page(
                    last.index,
                    last.required_flags@,
                )[j] == (page, f);
            assert(last.required_flags@[j] == f);
            assert(pes[pes.len() - 1] == last);
        }
    }
}

proof fn lemma_with_flag_source(pages: Seq<u32>, flag: PageQuality, page: u32, f: PageQuality)
    ensures
        with_flag(pages, flag).contains((page, f)) ==> f == flag && pages.contains(page),
{
    if with_flag(pages, flag).contains((page, f)) {
        let j = choose|j: int| 0 <= j < with_flag(pages, flag).len() && with_flag(pages, flag)[j] == (page, f);
        assert(pages[j] == page);
    }
}

proof fn lemma_classification_insertions_source(cs: Seq<ScoredFlagPages>, page: u32, f: PageQuality)
    ensures
        classification_insertions(cs).contains((page, f)) ==> exists|i: int|
            0 <= i < cs.len() && (#[trigger] cs[i]).flag == f && cs[i].expected_pages@.contains(page),
    decreases cs.len(),
{
    if cs.len() > 0 {
        let last = cs.last();
        lemma_classification_insertions_source(cs.drop_last(), page, f);
        lemma_concat_contains(
            classification_insertions(cs.drop_last()),
            with_flag(last.expected_pages@, last.flag),
            (page, f),
        );
        lemma_with_flag_source(last.expected_pages@, last.flag, page, f);
        if classification_insertions(cs.drop_last()).contains((page, f)) {
            let i = choose|i: int|
                0 <= i < cs.drop_last().len() && (#[trigger] cs.drop_last()[i]).flag == f
                    && cs.drop_last()[i].expected_pages@.contains(page);
            assert(cs[i] == cs.drop_last()[i]);
        }
        assert(cs[cs.len() - 1] == last);
    }
}

/// No expectation of the document announces that a page needs OCR.
pub open spec fn ocr_unannounced(e: DocumentExpectation, page: u32) -> bool {
    &&& forall|i: int|
        0 <= i < e.pages@.len() && (#[trigger] e.pages@[i]).index == page ==> !e.pages@[i].required_flags@.contains(
            PageQuality::RequiresOcr,
        )
    &&& (e.ocr_required_classification matches Some(c) ==> !c.expected_pages@.contains(page))
    &&& forall|i: int|
        0 <= i < e.quality_flag_classification@.len() && (#[trigger] e.quality_flag_classification@[i]).flag
            == PageQuality::RequiresOcr ==> !e.quality_flag_classification@[i].expected_pages@.contains(page)
}

proof fn lemma_unannounced_ocr(e: DocumentExpectation, page: u32)
    requires
        ocr_unannounced(e, page),
    ensures
        !flags_on(announced_flags(e), page).contains(PageQuality::RequiresOcr),
{
    let f = PageQuality::RequiresOcr;
    let a = page_insertions(e.pages@);
    let b = match e.ocr_required_classification {
        Some(c) => with_flag(c.expected_pages@, PageQuality::RequiresOcr),
        None => seq![],
    };
    let c = classification_insertions(e.quality_flag_classification@);
    let t = table_insertions(e.table_structure@);
    lemma_flags_on_source(announced_flags(e), page, f);
    lemma_concat_contains(a + b + c, t, (page, f));
    lemma_concat_contains(a + b, c, (page, f));
    lemma_concat_contains(a, b, (page, f));
    lemma_page_insertions_source(e.pages@, page, f);
    lemma_classification_insertions_source(e.quality_flag_classification@, page, f);
    match e.ocr_required_classification {
        Some(cl) => lemma_with_flag_source(cl.expected_pages@, PageQuality::RequiresOcr, page, f),
        None => {},
    }
    if t.contains((page, f)) {
        let j = choose|j: int| 0 <= j < t.len() && t[j] == (page, f);
        assert(t[j].1 == PageQuality::TableUncertain);
    }
}

proof fn lemma_silent_count_positive(e: DocumentExpectation, pages: Seq<DocumentPage>, k: int)
    requires
        0 <= k < pages.len(),
        fails_silently(e, pages[k]),
    ensures
        silent_count(e, pages) >= 1,
    decreases pages.len(),
{
    if k < pages.len() - 1 {
        assert(pages.drop_last()[k] == pages[k]);
        lemma_silent_count_positive(e, pages.drop_last(), k);
    }
}

/// A check's name that cannot be `silent_failures`.
spec fn not_silent_name(n: Seq<char>) -> bool {
    n.len() >= 2 && (n[0] != 's' || n[1] != 'i')
}

proof fn lemma_pages_checks_names(pes: Seq<PageExpectation>, pages: Seq<DocumentPage>)
    ensures
        forall|j: int| 0 <= j < pages_checks(pes, pages).len() ==> not_silent_name(#[trigger] pages_checks(pes, pages)[j].0),
    decreases pes.len(),
{
    reveal_strlit("page_");
    if pes.len() > 0 {
        lemma_pages_checks_names(pes.drop_last(), pages);
        let prev = pages_checks(pes.drop_last(), pages);
        let part = page_part(pes.last(), find_page(pages, pes.last().index));
        assert forall|j: int| 0 <= j < (prev + part).len() implies not_silent_name(#[trigger] (prev + part)[j].0) by {
            if j >= prev.len() {
                let k = expected_kinds(pes.last())[j - prev.len()];
                assert(part[j - prev.len()].0 == page_check_name(pes.last().index, k));
                assert(page_check_name(pes.last().index, k)[0] == 'p');
            }
        }
    }
}

proof fn lemma_later_names(e: DocumentExpectation, d: ObservedDocument)
    ensures
        forall|j: int|
            0 <= j < (classification_checks(e.quality_flag_classification@) + table_checks(e.table_structure@)
                + span_checks(e.span_bbox_passed@) + pages_checks(e.pages@, d.pages@)).len() ==> not_silent_name(
                #[trigger] (classification_checks(e.quality_flag_classification@) + table_checks(
                    e.table_structure@,
                ) + span_checks(e.span_bbox_passed@) + pages_checks(e.pages@, d.pages@))[j].0,
            ),
{
    reveal_strlit("quality_flag_classification.");
    reveal_strlit("table_structure.page_");
    reveal_strlit("span_bbox.");
    let cl = classification_checks(e.quality_flag_classification@);
    let tb = table_checks(e.table_structure@);
    let sp = span_checks(e.span_bbox_passed@);
    let pg = pages_checks(e.pages@, d.pages@);
    lemma_pages_checks_names(e.pages@, d.pages@);
    assert forall|j: int| 0 <= j < (cl + tb + sp + pg).len() implies not_silent_name(#[trigger] (cl + tb + sp + pg)[j].0) by {
        if j < cl.len() {
            assert(cl[j].0[0] == 'q');
        } else if j < cl.len() + tb.len() {
            let k = j - cl.len();
            let pages = table_pages(e.table_structure@);
            assert(tb[k].0 == table_check_name(pages, k));
            assert(table_check_name(pages, k)[0] == 't');
        } else if j < cl.len() + tb.len() + sp.len() {
            let k = j - cl.len() - tb.len();
            assert(sp[k].0[1] == 'p');
        } else {
            assert((cl + tb + sp + pg)[j] == pg[j - cl.len() - tb.len() - sp.len()]);
        }
    }
}

/// A check made and not renamed by later checks keeps its outcome.
proof fn lemma_check_map_keeps(a: Seq<(Seq<char>, bool)>, x: (Seq<char>, bool), rest: Seq<(Seq<char>, bool)>)
    requires
        forall|j: int| 0 <= j < rest.len() ==> (#[trigger] rest[j]).0 != x.0,
    ensures
        check_map(a.push(x) + rest).dom().contains(x.0),
        check_map(a.push(x) + rest)[x.0] == x.1,
    decreases rest.len(),
{
    if rest.len() == 0 {
        assert(a.push(x) + rest =~= a.push(x));
        assert(a.push(x).drop_last() =~= a);
    } else {
        assert forall|j: int| 0 <= j < rest.drop_last().len() implies (#[trigger] rest.drop_last()[j]).0 != x.0 by {
            assert(rest.drop_last()[j] == rest[j]);
        }
        lemma_check_map_keeps(a, x, rest.drop_last());
        assert((a.push(x) + rest).drop_last() =~= a.push(x) + rest.drop_last());
        assert((a.push(x) + rest).last() == rest[rest.len() - 1]);
    }
}

/// A page that came out without text, where no expectation says it is empty
/// and nothing announces that it needs OCR, fails silently: the document
/// counts at least one silent failure, and where no silent failure is
/// allowed its `silent_failures` check fails.
pub proof fn law_unannounced_empty_page_is_silent_failure(e: DocumentExpectation, d: ObservedDocument, k: int)
    requires
        0 <= k < d.pages@.len(),
        d.pages@[k].page.text_empty,
        forall|i: int|
            0 <= i < e.pages@.len() && (#[trigger] e.pages@[i]).index == d.pages@[k].index
                ==> e.pages@[i].empty_text_output != Some(true),
        ocr_unannounced(e, d.pages@[k].index),
    ensures
        silent_count(e, d.pages@) >= 1,
        e.silent_failures_max_count == Some(Some(0usize)) ==> check_map(document_checks(e, d)).dom().contains(
            "silent_failures"@,
        ) && check_map(document_checks(e, d))["silent_failures"@] == false,
{
    let p = d.pages@[k];
    lemma_unannounced_ocr(e, p.index);
    assert(!expects_empty(e.pages@, p.index));
    assert(fails_silently(e, p));
    lemma_silent_count_positive(e, d.pages@, k);
    if e.silent_failures_max_count == Some(Some(0usize)) {
        reveal_strlit("silent_failures");
        let front = count_checks(e, d) + content_checks(e, d) + (check_if(
            e.text_recall_passed is Some,
            "text_recall"@,
            e.text_recall_passed == Some(true),
        ) + check_if(e.reading_order_passed is Some, "reading_order"@, e.reading_order_passed == Some(true))
            + check_if(e.ocr_required_classification is Some, "ocr_required_classification"@, ocr_verdict(e)));
        let x = ("silent_failures"@, false);
        let rest = classification_checks(e.quality_flag_classification@) + table_checks(e.table_structure@)
            + span_checks(e.span_bbox_passed@) + pages_checks(e.pages@, d.pages@);
        assert(scored_checks(e, d) =~= (check_if(
            e.text_recall_passed is Some,
            "text_recall"@,
            e.text_recall_passed == Some(true),
        ) + check_if(e.reading_order_passed is Some, "reading_order"@, e.reading_order_passed == Some(true))
            + check_if(e.ocr_required_classification is Some, "ocr_required_classification"@, ocr_verdict(e))).push(x));
        assert(document_checks(e, d) =~= front.push(x) + rest);
        lemma_later_names(e, d);
        assert forall|j: int| 0 <= j < rest.len() implies (#[trigger] rest[j]).0 != x.0 by {
            assert(not_silent_name(rest[j].0));
        }
        lemma_check_map_keeps(front, x, rest);
    }
}

} // verus!
