//! The expectations a manifest holds for a document, as they stand for the
//! backend that extracted it: those under `expect`, with, key by key, those
//! of the backend's entry under `expect_by_backend` in their place; and the
//! evaluation of a document against them.
use vstd::prelude::*;

use crate::anchors::texts_of;
use crate::countmap::CountMap;
use crate::document_eval::{
    document_eval, document_evaluated, DocumentEval, DocumentExpectation, ObservedDocument,
    ScoredFlagPages, ScoredTable,
};
use crate::metrics::{QualityFlagCounts, RouteCounts};
use crate::page_checks::PageExpectation;
use crate::text::{append_chars, lit, str_eq, string_of};

verus! {

/// One JSON object of expectations of a manifest document (its `expect`, or
/// one backend's entry under `expect_by_backend`), decoded key by key. A key
/// the object does not hold leaves its field empty.
pub struct ExpectationLayer {
    /// Whether the value was a JSON object; null counts as an empty one.
    pub is_object: bool,
    /// The keys the object holds.
    pub keys: Vec<String>,
    /// The keys whose values did not decode.
    pub malformed: Vec<String>,
    pub page_count: Option<usize>,
    pub fallback_pages: Option<u32>,
    pub ocr_required_pages: Option<u32>,
    pub ocr_applied_pages: Option<u32>,
    pub image_artifact_count: Option<u32>,
    pub warnings_count: Option<usize>,
    pub route_counts: Option<RouteCounts>,
    pub quality_flag_counts: Option<QualityFlagCounts>,
    pub route_reason_counts: CountMap<u32>,
    pub required_text: Vec<String>,
    pub required_warnings: Vec<String>,
    /// Under the key `text_recall`.
    pub text_recall_passed: Option<bool>,
    /// Under the key `reading_order`.
    pub reading_order_passed: Option<bool>,
    pub ocr_required_classification: Option<ScoredFlagPages>,
    /// Under the key `silent_failures`.
    pub silent_failures_max_count: Option<Option<usize>>,
    pub quality_flag_classification: Vec<ScoredFlagPages>,
    pub table_structure: Vec<ScoredTable>,
    /// Under the key `span_bbox`.
    pub span_bbox_passed: Vec<bool>,
    pub pages: Vec<PageExpectation>,
}

/// A document of an evaluation manifest.
pub struct ManifestDocument {
    pub path: String,
    pub category: Option<String>,
    pub document_fingerprint: Option<String>,
    pub source_size_bytes: Option<u64>,
    pub source_modified_unix_ms: Option<u64>,
    pub expect: ExpectationLayer,
    /// Expectations by backend name, each replacing those of `expect` key by
    /// key for that backend.
    pub expect_by_backend: Vec<(String, ExpectationLayer)>,
}

/// Whether an object of expectations holds a key.
pub open spec fn holds_key(l: ExpectationLayer, key: Seq<char>) -> bool {
    texts_of(l.keys@).contains(key)
}

/// The first entry named after a backend.
pub open spec fn backend_entry(entries: Seq<(String, ExpectationLayer)>, backend: Seq<char>) -> Option<
    ExpectationLayer,
>
    decreases entries.len(),
{
    if entries.len() == 0 {
        None
    } else {
        match backend_entry(entries.drop_last(), backend) {
            Some(l) => Some(l),
            None => if entries.last().0@ == backend {
                Some(entries.last().1)
            } else {
                None
            },
        }
    }
}

/// Whether a key is taken from the backend's entry.
pub open spec fn overridden(o: Option<ExpectationLayer>, key: Seq<char>) -> bool {
    o matches Some(l) && holds_key(l, key)
}

/// Whether every key of the merged expectations decoded: those of the
/// backend's entry, and those of `expect` that the entry does not replace.
pub open spec fn layers_decode(b: ExpectationLayer, o: Option<ExpectationLayer>) -> bool {
    &&& (o matches Some(l) ==> l.malformed@.len() == 0)
    &&& forall|i: int| 0 <= i < b.malformed@.len() ==> overridden(o, #[trigger] b.malformed@[i]@)
}

/// The document's expectations, each key taken from the backend's entry
/// where it holds the key, and from `expect` otherwise.
pub open spec fn merged_expectations(m: ManifestDocument, o: Option<ExpectationLayer>) -> DocumentExpectation {
    let b = m.expect;
    let l = match o {
        Some(l) => l,
        None => b,
    };
    DocumentExpectation {
        path: m.path,
        category: m.category,
        document_fingerprint: m.document_fingerprint,
        source_size_bytes: m.source_size_bytes,
        source_modified_unix_ms: m.source_modified_unix_ms,
        page_count: if overridden(o, "page_count"@) { l.page_count } else { b.page_count },
        fallback_pages: if overridden(o, "fallback_pages"@) { l.fallback_pages } else { b.fallback_pages },
        ocr_required_pages: if overridden(o, "ocr_required_pages"@) {
            l.ocr_required_pages
        } else {
            b.ocr_required_pages
        },
        ocr_applied_pages: if overridden(o, "ocr_applied_pages"@) {
            l.ocr_applied_pages
        } else {
            b.ocr_applied_pages
        },
        image_artifact_count: if overridden(o, "image_artifact_count"@) {
            l.image_artifact_count
        } else {
            b.image_artifact_count
        },
        warnings_count: if overridden(o, "warnings_count"@) { l.warnings_count } else { b.warnings_count },
        route_counts: if overridden(o, "route_counts"@) { l.route_counts } else { b.route_counts },
        quality_flag_counts: if overridden(o, "quality_flag_counts"@) {
            l.quality_flag_counts
        } else {
            b.quality_flag_counts
        },
        route_reason_counts: if overridden(o, "route_reason_counts"@) {
            l.route_reason_counts
        } else {
            b.route_reason_counts
        },
        required_text: if overridden(o, "required_text"@) { l.required_text } else { b.required_text },
        required_warnings: if overridden(o, "required_warnings"@) {
            l.required_warnings
        } else {
            b.required_warnings
        },
        text_recall_passed: if overridden(o, "text_recall"@) {
            l.text_recall_passed
        } else {
            b.text_recall_passed
        },
        reading_order_passed: if overridden(o, "reading_order"@) {
            l.reading_order_passed
        } else {
            b.reading_order_passed
        },
        ocr_required_classification: if overridden(o, "ocr_required_classification"@) {
            l.ocr_required_classification
        } else {
            b.ocr_required_classification
        },
        silent_failures_max_count: if overridden(o, "silent_failures"@) {
            l.silent_failures_max_count
        } else {
            b.silent_failures_max_count
        },
        quality_flag_classification: if overridden(o, "quality_flag_classification"@) {
            l.quality_flag_classification
        } else {
            b.quality_flag_classification
        },
        table_structure: if overridden(o, "table_structure"@) {
            l.table_structure
        } else {
            b.table_structure
        },
        span_bbox_passed: if overridden(o, "span_bbox"@) { l.span_bbox_passed } else { b.span_bbox_passed },
        pages: if overridden(o, "pages"@) { l.pages } else { b.pages },
    }
}

/// The message for expectations that are not a JSON object.
pub open spec fn not_object_message(label: Seq<char>, path: Seq<char>) -> Seq<char> {
    label + " for manifest document "@ + path + " must be a JSON object"@
}

/// The message for expectations that do not decode.
pub open spec fn decode_message(backend: Seq<char>, path: Seq<char>) -> Seq<char> {
    "decode expect plus expect_by_backend."@ + backend + " for manifest document "@ + path
}

/// The expectations of a document for a backend, or why there are none:
/// `expect` is not an object, the backend's entry is not an object, or a
/// key of the merged expectations does not decode (checked in that order).
pub open spec fn backend_expectations(m: ManifestDocument, backend: Seq<char>) -> Result<
    DocumentExpectation,
    Seq<char>,
> {
    let o = backend_entry(m.expect_by_backend@, backend);
    if !m.expect.is_object {
        Err(not_object_message("expect"@, m.path@))
    } else if o matches Some(l) && !l.is_object {
        Err(not_object_message("expect_by_backend."@ + backend, m.path@))
    } else if !layers_decode(m.expect, o) {
        Err(decode_message(backend, m.path@))
    } else {
        Ok(merged_expectations(m, o))
    }
}

// ---------------------------------------------------------------------------
// Choosing the expectations
// ---------------------------------------------------------------------------

fn has_key(keys: &Vec<String>, key: &str) -> (r: bool)
    ensures
        r == texts_of(keys@).contains(key@),
{
    let mut i: usize = 0;
    while i < keys.len()
        invariant
            i <= keys@.len(),
            forall|j: int| 0 <= j < i ==> (#[trigger] keys@[j])@ != key@,
        decreases keys@.len() - i,
    {
        if str_eq(keys[i].as_str(), key) {
            proof {
                assert(texts_of(keys@)[i as int] == key@);
            }
            return true;
        }
        i += 1;
    }
    proof {
        if texts_of(keys@).contains(key@) {
            let j = choose|j: int| 0 <= j < texts_of(keys@).len() && texts_of(keys@)[j] == key@;
            assert(keys@[j]@ == key@);
        }
    }
    false
}

/// Once an entry for the backend is found, later entries change nothing.
proof fn lemma_backend_entry_extend(entries: Seq<(String, ExpectationLayer)>, backend: Seq<char>, n: int)
    requires
        0 < n <= entries.len(),
        backend_entry(entries.take(n), backend) is Some,
    ensures
        backend_entry(entries, backend) == backend_entry(entries.take(n), backend),
    decreases entries.len() - n,
{
    if n < entries.len() {
        assert(entries.take(n + 1).drop_last() =~= entries.take(n));
        lemma_backend_entry_extend(entries, backend, n + 1);
    } else {
        assert(entries.take(n) =~= entries);
    }
}

fn backend_entry_index(entries: &Vec<(String, ExpectationLayer)>, backend: &str) -> (r: Option<usize>)
    ensures
        match r {
            Some(i) => i < entries@.len() && backend_entry(entries@, backend@) == Some(
                entries@[i as int].1,
            ),
            None => backend_entry(entries@, backend@) is None,
        },
{
    let mut i: usize = 0;
    while i < entries.len()
        invariant
            i <= entries@.len(),
            backend_entry(entries@.take(i as int), backend@) is None,
        decreases entries@.len() - i,
    {
        proof {
            assert(entries@.take(i + 1).drop_last() =~= entries@.take(i as int));
            assert(entries@.take(i + 1).last() == entries@[i as int]);
        }
        if str_eq(entries[i].0.as_str(), backend) {
            proof {
                lemma_backend_entry_extend(entries@, backend@, i + 1);
            }
            return Some(i);
        }
        i += 1;
    }
    proof {
        assert(entries@.take(entries@.len() as int) =~= entries@);
    }
    None
}

/// Whether the merged expectations decode, `over` being the backend's entry
/// where `has_over`.
fn decodes(b: &ExpectationLayer, has_over: bool, over: &ExpectationLayer) -> (r: bool)
    ensures
        r == layers_decode(*b, if has_over { Some(*over) } else { None }),
{
    let ghost o = if has_over { Some(*over) } else { None };
    if has_over && over.malformed.len() > 0 {
        return false;
    }
    let mut i: usize = 0;
    while i < b.malformed.len()
        invariant
            i <= b.malformed@.len(),
            o == (if has_over { Some(*over) } else { None }),
            forall|j: int| 0 <= j < i ==> overridden(o, #[trigger] b.malformed@[j]@),
        decreases b.malformed@.len() - i,
    {
        let replaced = has_over && has_key(&over.keys, b.malformed[i].as_str());
        if !replaced {
            assert(!overridden(o, b.malformed@[i as int]@));
            return false;
        }
        i += 1;
    }
    true
}

fn not_object_error(label: Vec<char>, path: &String) -> (r: String)
    ensures
        r@ == not_object_message(label@, path@),
{
    let mut v = label;
    append_chars(&mut v, &lit(" for manifest document "));
    append_chars(&mut v, &lit(path.as_str()));
    append_chars(&mut v, &lit(" must be a JSON object"));
    string_of(&v)
}

fn decode_error(backend: &str, path: &String) -> (r: String)
    ensures
        r@ == decode_message(backend@, path@),
{
    let mut v = lit("decode expect plus expect_by_backend.");
    append_chars(&mut v, &lit(backend));
    append_chars(&mut v, &lit(" for manifest document "));
    append_chars(&mut v, &lit(path.as_str()));
    string_of(&v)
}

/// Expectations that hold no key.
fn empty_layer() -> (l: ExpectationLayer) {
    ExpectationLayer {
        is_object: true,
        keys: Vec::new(),
        malformed: Vec::new(),
        page_count: None,
        fallback_pages: None,
        ocr_required_pages: None,
        ocr_applied_pages: None,
        image_artifact_count: None,
        warnings_count: None,
        route_counts: None,
        quality_flag_counts: None,
        route_reason_counts: CountMap::new(),
        required_text: Vec::new(),
        required_warnings: Vec::new(),
        text_recall_passed: None,
        reading_order_passed: None,
        ocr_required_classification: None,
        silent_failures_max_count: None,
        quality_flag_classification: Vec::new(),
        table_structure: Vec::new(),
        span_bbox_passed: Vec::new(),
        pages: Vec::new(),
    }
}

fn pick<T>(take_over: bool, over: T, base: T) -> (r: T)
    ensures
        r == (if take_over { over } else { base }),
{
    if take_over {
        over
    } else {
        base
    }
}

/// The expectations of a manifest document for a backend: those under
/// `expect`, with each key that the backend's entry under
/// `expect_by_backend` holds taken from the entry instead. Fails where
/// `expect` or the entry is not a JSON object, or a key of the result did
/// not decode.
pub fn eval_expectations_for_backend(m: ManifestDocument, backend: &str) -> (r: Result<
    DocumentExpectation,
    String,
>)
    ensures
        match backend_expectations(m, backend@) {
            Ok(e) => r matches Ok(x) && x == e,
            Err(msg) => r matches Err(s) && s@ == msg,
        },
{
    if !m.expect.is_object {
        return Err(not_object_error(lit("expect"), &m.path));
    }
    let idx = backend_entry_index(&m.expect_by_backend, backend);
    let ghost o = backend_entry(m.expect_by_backend@, backend@);
    let ghost mm = m;
    let ManifestDocument {
        path,
        category,
        document_fingerprint,
        source_size_bytes,
        source_modified_unix_ms,
        expect,
        mut expect_by_backend,
    } = m;
    let has_over = idx.is_some();
    let over = match idx {
        Some(i) => {
            let entry = expect_by_backend.remove(i);
            entry.1
        },
        None => empty_layer(),
    };
    assert(o == (if has_over { Some(over) } else { None }));
    if has_over && !over.is_object {
        let mut label = lit("expect_by_backend.");
        append_chars(&mut label, &lit(backend));
        return Err(not_object_error(label, &path));
    }
    if !decodes(&expect, has_over, &over) {
        return Err(decode_error(backend, &path));
    }
    let k_page_count = has_over && has_key(&over.keys, "page_count");
    let k_fallback_pages = has_over && has_key(&over.keys, "fallback_pages");
    let k_ocr_required_pages = has_over && has_key(&over.keys, "ocr_required_pages");
    let k_ocr_applied_pages = has_over && has_key(&over.keys, "ocr_applied_pages");
    let k_image_artifact_count = has_over && has_key(&over.keys, "image_artifact_count");
    let k_warnings_count = has_over && has_key(&over.keys, "warnings_count");
    let k_route_counts = has_over && has_key(&over.keys, "route_counts");
    let k_quality_flag_counts = has_over && has_key(&over.keys, "quality_flag_counts");
    let k_route_reason_counts = has_over && has_key(&over.keys, "route_reason_counts");
    let k_required_text = has_over && has_key(&over.keys, "required_text");
    let k_required_warnings = has_over && has_key(&over.keys, "required_warnings");
    let k_text_recall = has_over && has_key(&over.keys, "text_recall");
    let k_reading_order = has_over && has_key(&over.keys, "reading_order");
    let k_ocr_classification = has_over && has_key(&over.keys, "ocr_required_classification");
    let k_silent_failures = has_over && has_key(&over.keys, "silent_failures");
    let k_flag_classification = has_over && has_key(&over.keys, "quality_flag_classification");
    let k_table_structure = has_over && has_key(&over.keys, "table_structure");
    let k_span_bbox = has_over && has_key(&over.keys, "span_bbox");
    let k_pages = has_over && has_key(&over.keys, "pages");
    let e = DocumentExpectation {
        path,
        category,
        document_fingerprint,
        source_size_bytes,
        source_modified_unix_ms,
        page_count: pick(k_page_count, over.page_count, expect.page_count),
        fallback_pages: pick(k_fallback_pages, over.fallback_pages, expect.fallback_pages),
        ocr_required_pages: pick(k_ocr_required_pages, over.ocr_required_pages, expect.ocr_required_pages),
        ocr_applied_pages: pick(k_ocr_applied_pages, over.ocr_applied_pages, expect.ocr_applied_pages),
        image_artifact_count: pick(
            k_image_artifact_count,
            over.image_artifact_count,
            expect.image_artifact_count,
        ),
        warnings_count: pick(k_warnings_count, over.warnings_count, expect.warnings_count),
        route_counts: pick(k_route_counts, over.route_counts, expect.route_counts),
        quality_flag_counts: pick(
            k_quality_flag_counts,
            over.quality_flag_counts,
            expect.quality_flag_counts,
        ),
        route_reason_counts: pick(
            k_route_reason_counts,
            over.route_reason_counts,
            expect.route_reason_counts,
        ),
        required_text: pick(k_required_text, over.required_text, expect.required_text),
        required_warnings: pick(k_required_warnings, over.required_warnings, expect.required_warnings),
        text_recall_passed: pick(k_text_recall, over.text_recall_passed, expect.text_recall_passed),
        reading_order_passed: pick(k_reading_order, over.reading_order_passed, expect.reading_order_passed),
        ocr_required_classification: pick(
            k_ocr_classification,
            over.ocr_required_classification,
            expect.ocr_required_classification,
        ),
        silent_failures_max_count: pick(
            k_silent_failures,
            over.silent_failures_max_count,
            expect.silent_failures_max_count,
        ),
        quality_flag_classification: pick(
            k_flag_classification,
            over.quality_flag_classification,
            expect.quality_flag_classification,
        ),
        table_structure: pick(k_table_structure, over.table_structure, expect.table_structure),
        span_bbox_passed: pick(k_span_bbox, over.span_bbox_passed, expect.span_bbox_passed),
        pages: pick(k_pages, over.pages, expect.pages),
    };
    proof {
        assert(e == merged_expectations(mm, o));
    }
    Ok(e)
}

/// Evaluates a manifest document against what extraction gave for it: takes
/// its expectations for the backend that extracted it, then makes each check
/// they ask for and sums the document up. Fails, with the reason, where the
/// expectations for that backend cannot be had.
pub fn eval_document_from_artifact(m: ManifestDocument, d: &ObservedDocument) -> (r: Result<
    DocumentEval,
    String,
>)
    requires
        m.expect.route_reason_counts.wf(),
        forall|i: int| 0 <= i < m.expect_by_backend@.len() ==> (#[trigger] m.expect_by_backend@[i]).1.route_reason_counts.wf(),
        d.route_reason_counts.wf(),
    ensures
        match backend_expectations(m, d.backend@) {
            Ok(e) => r matches Ok(ev) && document_evaluated(e, *d, ev),
            Err(msg) => r matches Err(s) && s@ == msg,
        },
{
    let ghost mm = m;
    proof {
        lemma_entry_counts_wf(m.expect_by_backend@, d.backend@);
    }
    match eval_expectations_for_backend(m, d.backend.as_str()) {
        Ok(e) => {
            assert(e.route_reason_counts.wf());
            Ok(document_eval(&e, d))
        },
        Err(s) => Err(s),
    }
}

/// The backend's entry is one of the entries, so its route-reason tally is
/// well formed where all of theirs are.
proof fn lemma_entry_counts_wf(entries: Seq<(String, ExpectationLayer)>, backend: Seq<char>)
    requires
        forall|i: int| 0 <= i < entries.len() ==> (#[trigger] entries[i]).1.route_reason_counts.wf(),
    ensures
        backend_entry(entries, backend) matches Some(l) ==> l.route_reason_counts.wf(),
    decreases entries.len(),
{
    if entries.len() > 0 {
        assert forall|i: int| 0 <= i < entries.drop_last().len() implies (
        #[trigger] entries.drop_last()[i]).1.route_reason_counts.wf() by {
            assert(entries.drop_last()[i] == entries[i]);
        }
        lemma_entry_counts_wf(entries.drop_last(), backend);
        assert(entries.last() == entries[entries.len() - 1]);
    }
}

} // verus!
