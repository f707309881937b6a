//! How the evaluated documents of a manifest are summed up into the eval
//! report: totals over the documents, counts and summaries per category,
//! the checks that failed, and which failures are sampled for the report.
use vstd::prelude::*;

use crate::categories::{category_coverage, missing_categories, CategoryCoverageOutput};
use crate::countmap::CountMap;
use crate::metrics::{FallbackActionCounts, QualityFlagCounts, RouteCounts};

verus! {

broadcast use crate::views::lemma_char_vec_deep_view;

/// Whether a document's artifact came from the cache.
#[derive(Clone, Copy, PartialEq, Eq, Structural, Debug)]
pub enum ArtifactCacheOutcome {
    Hit,
    Miss,
    NotCached,
}

/// An evaluated document as the report sums it up: its category, counts,
/// whether it passed, and the names of its failed checks in name order.
pub struct EvalDocumentSummary {
    pub path: String,
    pub category: Option<String>,
    pub page_count: usize,
    pub cache: ArtifactCacheOutcome,
    pub fallback_pages: u32,
    pub ocr_required_pages: u32,
    pub ocr_applied_pages: u32,
    pub image_artifact_count: u32,
    pub image_artifact_pages: u32,
    pub empty_text_output_pages: usize,
    pub warnings_count: usize,
    pub passed: bool,
    pub failed_checks: Vec<String>,
}

// ---------------------------------------------------------------------------
// Totals
// ---------------------------------------------------------------------------

/// A quantity summed over the documents.
#[derive(Clone, Copy, PartialEq, Eq, Structural, Debug)]
pub enum EvalQuantity {
    Pages,
    FailedChecks,
    CacheHits,
    CacheMisses,
    FallbackPages,
    OcrRequiredPages,
    OcrAppliedPages,
    ImageArtifacts,
    ImageArtifactPages,
    EmptyTextOutputPages,
    Warnings,
}

pub open spec fn eval_quantity(d: EvalDocumentSummary, q: EvalQuantity) -> nat {
    match q {
        EvalQuantity::Pages => d.page_count as nat,
        EvalQuantity::FailedChecks => d.failed_checks@.len(),
        EvalQuantity::CacheHits => if d.cache == ArtifactCacheOutcome::Hit {
            1nat
        } else {
            0nat
        },
        EvalQuantity::CacheMisses => if d.cache == ArtifactCacheOutcome::Miss {
            1nat
        } else {
            0nat
        },
        EvalQuantity::FallbackPages => d.fallback_pages as nat,
        EvalQuantity::OcrRequiredPages => d.ocr_required_pages as nat,
        EvalQuantity::OcrAppliedPages => d.ocr_applied_pages as nat,
        EvalQuantity::ImageArtifacts => d.image_artifact_count as nat,
        EvalQuantity::ImageArtifactPages => d.image_artifact_pages as nat,
        EvalQuantity::EmptyTextOutputPages => d.empty_text_output_pages as nat,
        EvalQuantity::Warnings => d.warnings_count as nat,
    }
}

fn quantity(d: &EvalDocumentSummary, q: EvalQuantity) -> (n: u128)
    ensures
        n == eval_quantity(*d, q),
{
    match q {
        EvalQuantity::Pages => d.page_count as u128,
        EvalQuantity::FailedChecks => d.failed_checks.len() as u128,
        EvalQuantity::CacheHits => if d.cache == ArtifactCacheOutcome::Hit {
            1
        } else {
            0
        },
        EvalQuantity::CacheMisses => if d.cache == ArtifactCacheOutcome::Miss {
            1
        } else {
            0
        },
        EvalQuantity::FallbackPages => d.fallback_pages as u128,
        EvalQuantity::OcrRequiredPages => d.ocr_required_pages as u128,
        EvalQuantity::OcrAppliedPages => d.ocr_applied_pages as u128,
        EvalQuantity::ImageArtifacts => d.image_artifact_count as u128,
        EvalQuantity::ImageArtifactPages => d.image_artifact_pages as u128,
        EvalQuantity::EmptyTextOutputPages => d.empty_text_output_pages as u128,
        EvalQuantity::Warnings => d.warnings_count as u128,
    }
}

/// The total of a quantity over the documents.
pub open spec fn eval_total(docs: Seq<EvalDocumentSummary>, q: EvalQuantity) -> nat
    decreases docs.len(),
{
    if docs.len() == 0 {
        0
    } else {
        eval_total(docs.drop_last(), q) + eval_quantity(docs.last(), q)
    }
}

proof fn lemma_eval_total_prefix(docs: Seq<EvalDocumentSummary>, q: EvalQuantity, i: int)
    requires
        0 <= i <= docs.len(),
    ensures
        eval_total(docs.take(i), q) <= eval_total(docs, q),
    decreases docs.len() - i,
{
    if i < docs.len() {
        lemma_eval_total_prefix(docs, q, i + 1);
        assert(docs.take(i + 1).drop_last() =~= docs.take(i));
    } else {
        assert(docs.take(i) =~= docs);
    }
}

proof fn lemma_cache_total_bound(docs: Seq<EvalDocumentSummary>)
    ensures
        eval_total(docs, EvalQuantity::CacheHits) <= docs.len(),
        eval_total(docs, EvalQuantity::CacheMisses) <= docs.len(),
    decreases docs.len(),
{
    if docs.len() > 0 {
        lemma_cache_total_bound(docs.drop_last());
    }
}

/// The total of a quantity over the documents.
pub fn eval_sum(docs: &Vec<EvalDocumentSummary>, q: EvalQuantity) -> (n: u128)
    requires
        eval_total(docs@, q) <= u128::MAX,
    ensures
        n == eval_total(docs@, q),
{
    let mut total: u128 = 0;
    let mut i: usize = 0;
    while i < docs.len()
        invariant
            i <= docs@.len(),
            total == eval_total(docs@.take(i as int), q),
            eval_total(docs@, q) <= u128::MAX,
        decreases docs@.len() - i,
    {
        proof {
            assert(docs@.take(i + 1).drop_last() =~= docs@.take(i as int));
            lemma_eval_total_prefix(docs@, q, i + 1);
        }
        total = total + quantity(&docs[i], q);
        i += 1;
    }
    proof {
        assert(docs@.take(docs@.len() as int) =~= docs@);
    }
    total
}

// ---------------------------------------------------------------------------
// Per category
// ---------------------------------------------------------------------------

/// The category a document is counted under.
pub open spec fn eval_category(d: EvalDocumentSummary) -> Seq<char> {
    match d.category {
        Some(c) => c@,
        None => "uncategorized"@,
    }
}

fn category_key(d: &EvalDocumentSummary) -> (r: String)
    ensures
        r@ == eval_category(*d),
{
    match &d.category {
        Some(c) => c.clone(),
        None => "uncategorized".to_string(),
    }
}

/// The documents of a category: how many, their pages, how many passed and
/// failed, and their failed checks; the category passes when none failed.
#[derive(Clone, Copy, PartialEq, Eq, Structural, Debug)]
pub struct EvalCategorySummary {
    pub document_count: usize,
    pub page_count: usize,
    pub passed_documents: usize,
    pub failed_documents: usize,
    pub failed_checks: u32,
    pub quality_passed: bool,
    pub quality_failed: bool,
}

pub open spec fn empty_eval_category() -> EvalCategorySummary {
    EvalCategorySummary {
        document_count: 0,
        page_count: 0,
        passed_documents: 0,
        failed_documents: 0,
        failed_checks: 0,
        quality_passed: false,
        quality_failed: false,
    }
}

/// A category summary with one more document.
pub open spec fn with_eval_document(s: EvalCategorySummary, d: EvalDocumentSummary) -> EvalCategorySummary {
    let failed_checks = (s.failed_checks + d.failed_checks@.len()) as u32;
    EvalCategorySummary {
        document_count: (s.document_count + 1) as usize,
        page_count: (s.page_count + d.page_count) as usize,
        passed_documents: if d.passed {
            (s.passed_documents + 1) as usize
        } else {
            s.passed_documents
        },
        failed_documents: if d.passed {
            s.failed_documents
        } else {
            (s.failed_documents + 1) as usize
        },
        failed_checks,
        quality_passed: failed_checks == 0,
        quality_failed: failed_checks != 0,
    }
}

/// The summaries of the documents, by category.
pub open spec fn eval_category_tally(docs: Seq<EvalDocumentSummary>) -> Map<Seq<char>, EvalCategorySummary>
    decreases docs.len(),
{
    if docs.len() == 0 {
        Map::empty()
    } else {
        let prev = eval_category_tally(docs.drop_last());
        let d = docs.last();
        let k = eval_category(d);
        let cur = if prev.dom().contains(k) {
            prev[k]
        } else {
            empty_eval_category()
        };
        prev.insert(k, with_eval_document(cur, d))
    }
}

/// The number of documents of each category.
pub open spec fn eval_category_counts(docs: Seq<EvalDocumentSummary>) -> Map<Seq<char>, usize>
    decreases docs.len(),
{
    if docs.len() == 0 {
        Map::empty()
    } else {
        let prev = eval_category_counts(docs.drop_last());
        let k = eval_category(docs.last());
        prev.insert(
            k,
            (if prev.dom().contains(k) {
                prev[k]
            } else {
                0usize
            } + 1) as usize,
        )
    }
}

proof fn lemma_eval_tally_bounds(docs: Seq<EvalDocumentSummary>)
    requires
        docs.len() <= usize::MAX,
        eval_total(docs, EvalQuantity::Pages) <= usize::MAX,
        eval_total(docs, EvalQuantity::FailedChecks) <= u32::MAX,
    ensures
        forall|k: Seq<char>|
            #[trigger] eval_category_tally(docs).dom().contains(k) ==> {
                let s = eval_category_tally(docs)[k];
                &&& s.document_count <= docs.len()
                &&& s.page_count <= eval_total(docs, EvalQuantity::Pages)
                &&& s.failed_checks <= eval_total(docs, EvalQuantity::FailedChecks)
                &&& s.passed_documents + s.failed_documents == s.document_count
            },
        forall|k: Seq<char>|
            #[trigger] eval_category_counts(docs).dom().contains(k) ==> eval_category_counts(docs)[k]
                <= docs.len(),
    decreases docs.len(),
{
    if docs.len() > 0 {
        let prev = docs.drop_last();
        lemma_eval_tally_bounds(prev);
        let pt = eval_category_tally(prev);
        let t = eval_category_tally(docs);
        let pc = eval_category_counts(prev);
        let c = eval_category_counts(docs);
        let key = eval_category(docs.last());
        assert forall|k: Seq<char>| #[trigger] t.dom().contains(k) implies {
            let s = t[k];
            &&& s.document_count <= docs.len()
            &&& s.page_count <= eval_total(docs, EvalQuantity::Pages)
            &&& s.failed_checks <= eval_total(docs, EvalQuantity::FailedChecks)
            &&& s.passed_documents + s.failed_documents == s.document_count
        } by {
            if k != key {
                assert(pt.dom().contains(k));
            }
        }
        assert forall|k: Seq<char>| #[trigger] c.dom().contains(k) implies c[k] <= docs.len() by {
            if k != key {
                assert(pc.dom().contains(k));
            }
        }
    }
}

/// Sums up the documents by category.
pub fn eval_category_summaries(docs: &Vec<EvalDocumentSummary>) -> (r: (
    CountMap<usize>,
    CountMap<EvalCategorySummary>,
))
    requires
        eval_total(docs@, EvalQuantity::Pages) <= usize::MAX,
        eval_total(docs@, EvalQuantity::FailedChecks) <= u32::MAX,
    ensures
        r.0.wf(),
        r.0.as_map() == eval_category_counts(docs@),
        r.1.wf(),
        r.1.as_map() == eval_category_tally(docs@),
{
    let mut counts: CountMap<usize> = CountMap::new();
    let mut summaries: CountMap<EvalCategorySummary> = CountMap::new();
    let mut i: usize = 0;
    while i < docs.len()
        invariant
            i <= docs@.len(),
            counts.wf(),
            summaries.wf(),
            counts.as_map() == eval_category_counts(docs@.take(i as int)),
            summaries.as_map() == eval_category_tally(docs@.take(i as int)),
            eval_total(docs@, EvalQuantity::Pages) <= usize::MAX,
            eval_total(docs@, EvalQuantity::FailedChecks) <= u32::MAX,
        decreases docs@.len() - i,
    {
        let ghost pre = docs@.take(i as int);
        proof {
            assert(docs@.take(i + 1).drop_last() =~= pre);
            assert(docs@.take(i + 1).last() == docs@[i as int]);
            lemma_eval_total_prefix(docs@, EvalQuantity::Pages, i as int);
            lemma_eval_total_prefix(docs@, EvalQuantity::FailedChecks, i as int);
            lemma_eval_total_prefix(docs@, EvalQuantity::Pages, i + 1);
            lemma_eval_total_prefix(docs@, EvalQuantity::FailedChecks, i + 1);
            lemma_eval_tally_bounds(pre);
        }
        let d = &docs[i];
        let k = category_key(d);
        let n: usize = match counts.get(k.as_str()) {
            Some(n) => n,
            None => 0,
        };
        let cur = match summaries.get(k.as_str()) {
            Some(s) => s,
            None => EvalCategorySummary {
                document_count: 0,
                page_count: 0,
                passed_documents: 0,
                failed_documents: 0,
                failed_checks: 0,
                quality_passed: false,
                quality_failed: false,
            },
        };
        proof {
            assert(eval_total(docs@.take(i + 1), EvalQuantity::Pages) == eval_total(pre, EvalQuantity::Pages)
                + d.page_count);
            assert(eval_total(docs@.take(i + 1), EvalQuantity::FailedChecks) == eval_total(
                pre,
                EvalQuantity::FailedChecks,
            ) + d.failed_checks@.len());
        }
        let failed = d.failed_checks.len() as u32;
        let failed_checks = cur.failed_checks + failed;
        let next = EvalCategorySummary {
            document_count: cur.document_count + 1,
            page_count: cur.page_count + d.page_count,
            passed_documents: if d.passed {
                cur.passed_documents + 1
            } else {
                cur.passed_documents
            },
            failed_documents: if d.passed {
                cur.failed_documents
            } else {
                cur.failed_documents + 1
            },
            failed_checks,
            quality_passed: failed_checks == 0,
            quality_failed: failed_checks != 0,
        };
        counts.set(k.clone(), n + 1);
        summaries.set(k, next);
        i += 1;
    }
    proof {
        assert(docs@.take(docs@.len() as int) =~= docs@);
    }
    (counts, summaries)
}

// ---------------------------------------------------------------------------
// Failures
// ---------------------------------------------------------------------------

/// The failed checks of all documents, as (document, check) positions in
/// document order and then check order.
pub open spec fn failed_check_refs(docs: Seq<EvalDocumentSummary>) -> Seq<(int, int)>
    decreases docs.len(),
{
    if docs.len() == 0 {
        seq![]
    } else {
        let n = docs.len() - 1;
        failed_check_refs(docs.drop_last()) + Seq::new(
            docs.last().failed_checks@.len(),
            |j: int| (n, j),
        )
    }
}

/// A failure the report samples: the manifest's document count or category
/// coverage (under the named check), or a document's failed check.
#[derive(Clone, Copy, PartialEq, Eq, Structural, Debug)]
pub enum EvalFailureRef {
    DocumentCount,
    RequiredCategories,
    MinCategoryCounts,
    DocumentCheck(usize, usize),
}

/// The sampled failures: the manifest-level ones first, then the first
/// document checks that failed, ten in all at most.
pub open spec fn sampled_failures(
    docs: Seq<EvalDocumentSummary>,
    coverage_failed: Option<bool>,
) -> Seq<EvalFailureRef> {
    let manifest: Seq<EvalFailureRef> = (if docs.len() == 0 {
        seq![EvalFailureRef::DocumentCount]
    } else {
        seq![]
    }) + match coverage_failed {
        Some(true) => seq![EvalFailureRef::RequiredCategories],
        Some(false) => seq![EvalFailureRef::MinCategoryCounts],
        None => seq![],
    };
    let refs = failed_check_refs(docs);
    let room = 10 - manifest.len();
    let take = if refs.len() < room {
        refs.len() as int
    } else {
        room
    };
    manifest + Seq::new(
        take as nat,
        |j: int| EvalFailureRef::DocumentCheck(refs[j].0 as usize, refs[j].1 as usize),
    )
}

proof fn lemma_failed_check_refs(docs: Seq<EvalDocumentSummary>)
    ensures
        failed_check_refs(docs).len() == eval_total(docs, EvalQuantity::FailedChecks),
        forall|k: int|
            0 <= k < failed_check_refs(docs).len() ==> 0 <= (#[trigger] failed_check_refs(docs)[k]).0
                < docs.len() && 0 <= failed_check_refs(docs)[k].1 < docs[failed_check_refs(docs)[k].0].failed_checks@.len(),
    decreases docs.len(),
{
    if docs.len() > 0 {
        let prev = docs.drop_last();
        lemma_failed_check_refs(prev);
        let a = failed_check_refs(prev);
        let n = docs.len() - 1;
        let b = Seq::new(docs.last().failed_checks@.len(), |j: int| (n, j));
        assert forall|k: int| 0 <= k < failed_check_refs(docs).len() implies 0 <= (
        #[trigger] failed_check_refs(docs)[k]).0 < docs.len() && 0 <= failed_check_refs(docs)[k].1
            < docs[failed_check_refs(docs)[k].0].failed_checks@.len() by {
            if k < a.len() {
                assert(failed_check_refs(docs)[k] == a[k]);
                assert(docs[a[k].0] == prev[a[k].0]);
            } else {
                assert(failed_check_refs(docs)[k] == b[k - a.len()]);
            }
        }
    }
}

/// Picks the failures the report samples. `coverage_failed` is whether the
/// category coverage failed with missing categories (`Some(true)`) or only
/// with counts under the minimum (`Some(false)`), when it failed.
pub fn eval_failure_samples(docs: &Vec<EvalDocumentSummary>, coverage_failed: Option<bool>) -> (r: Vec<
    EvalFailureRef,
>)
    ensures
        r@ == sampled_failures(docs@, coverage_failed),
{
    let mut out: Vec<EvalFailureRef> = Vec::new();
    if docs.len() == 0 {
        out.push(EvalFailureRef::DocumentCount);
    }
    match coverage_failed {
        Some(true) => out.push(EvalFailureRef::RequiredCategories),
        Some(false) => out.push(EvalFailureRef::MinCategoryCounts),
        None => {},
    }
    let ghost manifest = out@;
    let ghost refs = failed_check_refs(docs@);
    proof {
        let spec_manifest: Seq<EvalFailureRef> = (if docs@.len() == 0 {
            seq![EvalFailureRef::DocumentCount]
        } else {
            seq![]
        }) + match coverage_failed {
            Some(true) => seq![EvalFailureRef::RequiredCategories],
            Some(false) => seq![EvalFailureRef::MinCategoryCounts],
            None => seq![],
        };
        assert(manifest =~= spec_manifest);
    }
    proof {
        lemma_failed_check_refs(docs@);
    }
    let mut i: usize = 0;
    while i < docs.len() && out.len() < 10
        invariant
            i <= docs@.len(),
            manifest.len() <= 2,
            refs == failed_check_refs(docs@),
            out@.len() <= 10,
            out@.len() >= manifest.len(),
            out@.take(manifest.len() as int) == manifest,
            out@.len() - manifest.len() == (if failed_check_refs(docs@.take(i as int)).len() < 10
                - manifest.len() {
                failed_check_refs(docs@.take(i as int)).len() as int
            } else {
                10 - manifest.len()
            }),
            failed_check_refs(docs@.take(i as int)).len() <= refs.len(),
            forall|k: int|
                0 <= k < failed_check_refs(docs@.take(i as int)).len() ==> #[trigger] failed_check_refs(
                    docs@.take(i as int),
                )[k] == refs[k],
            forall|k: int|
                manifest.len() <= k < out@.len() ==> #[trigger] out@[k] == EvalFailureRef::DocumentCheck(
                    refs[k - manifest.len()].0 as usize,
                    refs[k - manifest.len()].1 as usize,
                ),
        decreases docs@.len() - i,
    {
        let ghost before = failed_check_refs(docs@.take(i as int));
        proof {
            assert(docs@.take(i + 1).drop_last() =~= docs@.take(i as int));
            assert(docs@.take(i + 1).last() == docs@[i as int]);
            lemma_refs_prefix(docs@, i + 1);
        }
        let d = &docs[i];
        let mut j: usize = 0;
        while j < d.failed_checks.len() && out.len() < 10
            invariant
                i < docs@.len(),
                *d == docs@[i as int],
                j <= d.failed_checks@.len(),
                manifest.len() <= 2,
                refs == failed_check_refs(docs@),
                out@.len() <= 10,
                out@.len() >= manifest.len(),
                out@.take(manifest.len() as int) == manifest,
                before == failed_check_refs(docs@.take(i as int)),
                failed_check_refs(docs@.take(i + 1)) == before + Seq::new(
                    d.failed_checks@.len(),
                    |m: int| (i as int, m),
                ),
                forall|k: int|
                    0 <= k < failed_check_refs(docs@.take(i + 1)).len() ==> #[trigger] failed_check_refs(
                        docs@.take(i + 1),
                    )[k] == refs[k],
                before.len() < 10 - manifest.len() ==> out@.len() - manifest.len() == before.len() + j,
                before.len() >= 10 - manifest.len() ==> out@.len() == 10,
                forall|k: int|
                    manifest.len() <= k < out@.len() ==> #[trigger] out@[k] == EvalFailureRef::DocumentCheck(
                        refs[k - manifest.len()].0 as usize,
                        refs[k - manifest.len()].1 as usize,
                    ),
            decreases d.failed_checks@.len() - j,
        {
            proof {
                let k = before.len() + j;
                let now = failed_check_refs(docs@.take(i + 1));
                assert(now[k] == (i as int, j as int));
                assert(refs[k] == (i as int, j as int));
            }
            out.push(EvalFailureRef::DocumentCheck(i, j));
            j += 1;
        }
        i += 1;
    }
    proof {
        let m = manifest.len();
        let room = 10 - m;
        let take = if refs.len() < room {
            refs.len() as int
        } else {
            room
        };
        if out@.len() < 10 {
            assert(i == docs.len());
            assert(docs@.take(i as int) =~= docs@);
        }
        assert(out@.len() == m + take);
        let sp = sampled_failures(docs@, coverage_failed);
        assert(sp.len() == out@.len());
        assert forall|k: int| 0 <= k < out@.len() implies out@[k] == sp[k] by {
            if k < m {
                assert(out@.take(m as int)[k] == out@[k]);
            }
        }
        assert(out@ =~= sp);
    }
    out
}

/// The failed checks of the first documents start those of all.
proof fn lemma_refs_prefix(docs: Seq<EvalDocumentSummary>, i: int)
    requires
        0 <= i <= docs.len(),
    ensures
        failed_check_refs(docs.take(i)).len() <= failed_check_refs(docs).len(),
        forall|k: int|
            0 <= k < failed_check_refs(docs.take(i)).len() ==> #[trigger] failed_check_refs(docs.take(i))[k]
                == failed_check_refs(docs)[k],
    decreases docs.len() - i,
{
    if i < docs.len() {
        lemma_refs_prefix(docs, i + 1);
        assert(docs.take(i + 1).drop_last() =~= docs.take(i));
        let a = failed_check_refs(docs.take(i));
        let b = failed_check_refs(docs.take(i + 1));
        assert forall|k: int| 0 <= k < a.len() implies #[trigger] a[k] == b[k] by {}
    } else {
        assert(docs.take(i) =~= docs);
    }
}

// ---------------------------------------------------------------------------
// Route, quality-flag and fallback counts
// ---------------------------------------------------------------------------

/// The route counts of the documents added up.
pub open spec fn route_total(counts: Seq<RouteCounts>) -> RouteCounts
    decreases counts.len(),
{
    if counts.len() == 0 {
        RouteCounts { native_fast_path: 0, needs_fallback: 0, ocr_fallback: 0, unsupported: 0 }
    } else {
        route_total(counts.drop_last()).plus(counts.last())
    }
}

/// Adding the counts at `i` to the total of those before it does not overflow.
pub open spec fn route_step_fits(counts: Seq<RouteCounts>, i: int) -> bool {
    route_total(counts.take(i)).can_add(counts[i])
}

/// Adds up route counts; no step of the sum may overflow.
pub fn sum_route_counts(counts: &Vec<RouteCounts>) -> (r: RouteCounts)
    requires
        forall|i: int| 0 <= i < counts@.len() ==> #[trigger] route_step_fits(counts@, i),
    ensures
        r == route_total(counts@),
{
    let mut total = RouteCounts { native_fast_path: 0, needs_fallback: 0, ocr_fallback: 0, unsupported: 0 };
    let mut i: usize = 0;
    while i < counts.len()
        invariant
            i <= counts@.len(),
            total == route_total(counts@.take(i as int)),
            forall|k: int| 0 <= k < counts@.len() ==> #[trigger] route_step_fits(counts@, k),
        decreases counts@.len() - i,
    {
        proof {
            assert(counts@.take(i + 1).drop_last() =~= counts@.take(i as int));
        }
        proof {
            assert(route_step_fits(counts@, i as int));
        }
        total.add(counts[i]);
        i += 1;
    }
    proof {
        assert(counts@.take(counts@.len() as int) =~= counts@);
    }
    total
}

/// The quality-flag counts of the documents added up.
pub open spec fn quality_flag_total(counts: Seq<QualityFlagCounts>) -> QualityFlagCounts
    decreases counts.len(),
{
    if counts.len() == 0 {
        QualityFlagCounts {
            requires_ocr: 0,
            low_confidence_text: 0,
            broken_encoding: 0,
            layout_uncertain: 0,
            table_uncertain: 0,
            unsupported_feature: 0,
        }
    } else {
        quality_flag_total(counts.drop_last()).plus(counts.last())
    }
}

/// Adding the counts at `i` to the total of those before it does not overflow.
pub open spec fn quality_flag_step_fits(counts: Seq<QualityFlagCounts>, i: int) -> bool {
    quality_flag_total(counts.take(i)).can_add(counts[i])
}

/// Adds up quality-flag counts; no step of the sum may overflow.
pub fn sum_quality_flag_counts(counts: &Vec<QualityFlagCounts>) -> (r: QualityFlagCounts)
    requires
        forall|i: int| 0 <= i < counts@.len() ==> #[trigger] quality_flag_step_fits(counts@, i),
    ensures
        r == quality_flag_total(counts@),
{
    let mut total = QualityFlagCounts {
        requires_ocr: 0,
        low_confidence_text: 0,
        broken_encoding: 0,
        layout_uncertain: 0,
        table_uncertain: 0,
        unsupported_feature: 0,
    };
    let mut i: usize = 0;
    while i < counts.len()
        invariant
            i <= counts@.len(),
            total == quality_flag_total(counts@.take(i as int)),
            forall|k: int| 0 <= k < counts@.len() ==> #[trigger] quality_flag_step_fits(counts@, k),
        decreases counts@.len() - i,
    {
        proof {
            assert(counts@.take(i + 1).drop_last() =~= counts@.take(i as int));
        }
        proof {
            assert(quality_flag_step_fits(counts@, i as int));
        }
        total.add(counts[i]);
        i += 1;
    }
    proof {
        assert(counts@.take(counts@.len() as int) =~= counts@);
    }
    total
}

/// The fallback-action counts of the documents added up.
pub open spec fn fallback_total(counts: Seq<FallbackActionCounts>) -> FallbackActionCounts
    decreases counts.len(),
{
    if counts.len() == 0 {
        FallbackActionCounts {
            ocr_requested_pages: 0,
            ocr_applied_pages: 0,
            heavy_layout_pages: 0,
            table_recovery_pages: 0,
            render_pages: 0,
        }
    } else {
        fallback_total(counts.drop_last()).plus(counts.last())
    }
}

/// Adding the counts at `i` to the total of those before it does not overflow.
pub open spec fn fallback_step_fits(counts: Seq<FallbackActionCounts>, i: int) -> bool {
    fallback_total(counts.take(i)).can_add(counts[i])
}

/// Adds up fallback-action counts; no step of the sum may overflow.
pub fn sum_fallback_action_counts(counts: &Vec<FallbackActionCounts>) -> (r: FallbackActionCounts)
    requires
        forall|i: int| 0 <= i < counts@.len() ==> #[trigger] fallback_step_fits(counts@, i),
    ensures
        r == fallback_total(counts@),
{
    let mut total = FallbackActionCounts {
        ocr_requested_pages: 0,
        ocr_applied_pages: 0,
        heavy_layout_pages: 0,
        table_recovery_pages: 0,
        render_pages: 0,
    };
    let mut i: usize = 0;
    while i < counts.len()
        invariant
            i <= counts@.len(),
            total == fallback_total(counts@.take(i as int)),
            forall|k: int| 0 <= k < counts@.len() ==> #[trigger] fallback_step_fits(counts@, k),
        decreases counts@.len() - i,
    {
        proof {
            assert(counts@.take(i + 1).drop_last() =~= counts@.take(i as int));
        }
        proof {
            assert(fallback_step_fits(counts@, i as int));
        }
        total.add(counts[i]);
        i += 1;
    }
    proof {
        assert(counts@.take(counts@.len() as int) =~= counts@);
    }
    total
}

// ---------------------------------------------------------------------------
// The totals of an evaluation
// ---------------------------------------------------------------------------

/// The sums over the documents fit the report's integer types.
pub open spec fn eval_totals_fit(docs: Seq<EvalDocumentSummary>) -> bool {
    &&& docs.len() <= u32::MAX
    &&& eval_total(docs, EvalQuantity::Pages) <= usize::MAX
    &&& eval_total(docs, EvalQuantity::FailedChecks) + 2 <= u32::MAX
    &&& eval_total(docs, EvalQuantity::FallbackPages) <= u32::MAX
    &&& eval_total(docs, EvalQuantity::OcrRequiredPages) <= u32::MAX
    &&& eval_total(docs, EvalQuantity::OcrAppliedPages) <= u32::MAX
    &&& eval_total(docs, EvalQuantity::ImageArtifacts) <= u32::MAX
    &&& eval_total(docs, EvalQuantity::ImageArtifactPages) <= u32::MAX
    &&& eval_total(docs, EvalQuantity::EmptyTextOutputPages) <= usize::MAX
    &&& eval_total(docs, EvalQuantity::Warnings) <= usize::MAX
}

/// What the evaluated documents of a manifest add up to.
pub struct EvalTotals {
    pub document_count: usize,
    pub page_count: usize,
    pub cache_hits: u32,
    pub cache_misses: u32,
    pub fallback_pages: u32,
    pub ocr_required_pages: u32,
    pub ocr_applied_pages: u32,
    pub image_artifact_count: u32,
    pub image_artifact_pages: u32,
    pub empty_text_output_pages: usize,
    pub warnings_count: usize,
    pub category_counts: CountMap<usize>,
    pub category_summaries: CountMap<EvalCategorySummary>,
    pub category_coverage: Option<CategoryCoverageOutput>,
    pub failed_checks: u32,
    pub passed: bool,
    pub failure_samples: Vec<EvalFailureRef>,
}

/// Whether the category coverage failed: with missing categories, or only
/// with counts under the minimum.
pub open spec fn coverage_failure(c: Option<CategoryCoverageOutput>) -> Option<bool> {
    match c {
        Some(c) => if c.passed {
            None
        } else {
            Some(c.missing@.len() > 0)
        },
        None => None,
    }
}

/// Sums up an evaluation. A manifest fails for each failed document check,
/// for failed category coverage, and for having no documents.
pub fn eval_totals(
    docs: &Vec<EvalDocumentSummary>,
    required_categories: Vec<String>,
    min_category_counts: CountMap<usize>,
) -> (t: EvalTotals)
    requires
        eval_totals_fit(docs@),
        min_category_counts.wf(),
    ensures
        t.document_count == docs@.len(),
        t.page_count == eval_total(docs@, EvalQuantity::Pages),
        t.cache_hits == eval_total(docs@, EvalQuantity::CacheHits),
        t.cache_misses == eval_total(docs@, EvalQuantity::CacheMisses),
        t.fallback_pages == eval_total(docs@, EvalQuantity::FallbackPages),
        t.ocr_required_pages == eval_total(docs@, EvalQuantity::OcrRequiredPages),
        t.ocr_applied_pages == eval_total(docs@, EvalQuantity::OcrAppliedPages),
        t.image_artifact_count == eval_total(docs@, EvalQuantity::ImageArtifacts),
        t.image_artifact_pages == eval_total(docs@, EvalQuantity::ImageArtifactPages),
        t.empty_text_output_pages == eval_total(docs@, EvalQuantity::EmptyTextOutputPages),
        t.warnings_count == eval_total(docs@, EvalQuantity::Warnings),
        t.category_counts.wf(),
        t.category_counts.as_map() == eval_category_counts(docs@),
        t.category_summaries.wf(),
        t.category_summaries.as_map() == eval_category_tally(docs@),
        t.category_coverage is None <==> (required_categories@.len() == 0
            && min_category_counts.keys_view().len() == 0),
        t.category_coverage matches Some(c) ==> {
            &&& c.missing.deep_view() == missing_categories(
                required_categories.deep_view(),
                eval_category_counts(docs@),
            )
            &&& c.present.deep_view() == t.category_counts.keys_view()
        },
        t.failed_checks == eval_total(docs@, EvalQuantity::FailedChecks) + (if coverage_failure(
            t.category_coverage,
        ) is Some {
            1int
        } else {
            0int
        }) + (if docs@.len() == 0 {
            1int
        } else {
            0int
        }),
        t.passed == (t.failed_checks == 0),
        t.failure_samples@ == sampled_failures(docs@, coverage_failure(t.category_coverage)),
{
    proof {
        lemma_cache_total_bound(docs@);
    }
    let (counts, summaries) = eval_category_summaries(docs);
    let ghost required_view = required_categories.deep_view();
    let coverage = category_coverage(required_categories, min_category_counts, &counts);
    let coverage_failed: Option<bool> = match &coverage {
        Some(c) => if c.passed {
            None
        } else {
            Some(c.missing.len() > 0)
        },
        None => None,
    };
    let doc_failed = eval_sum(docs, EvalQuantity::FailedChecks) as u32;
    let failed_checks = doc_failed + if coverage_failed.is_some() {
        1u32
    } else {
        0u32
    } + if docs.len() == 0 {
        1u32
    } else {
        0u32
    };
    EvalTotals {
        document_count: docs.len(),
        page_count: eval_sum(docs, EvalQuantity::Pages) as usize,
        cache_hits: eval_sum(docs, EvalQuantity::CacheHits) as u32,
        cache_misses: eval_sum(docs, EvalQuantity::CacheMisses) as u32,
        fallback_pages: eval_sum(docs, EvalQuantity::FallbackPages) as u32,
        ocr_required_pages: eval_sum(docs, EvalQuantity::OcrRequiredPages) as u32,
        ocr_applied_pages: eval_sum(docs, EvalQuantity::OcrAppliedPages) as u32,
        image_artifact_count: eval_sum(docs, EvalQuantity::ImageArtifacts) as u32,
        image_artifact_pages: eval_sum(docs, EvalQuantity::ImageArtifactPages) as u32,
        empty_text_output_pages: eval_sum(docs, EvalQuantity::EmptyTextOutputPages) as usize,
        warnings_count: eval_sum(docs, EvalQuantity::Warnings) as usize,
        category_counts: counts,
        category_summaries: summaries,
        category_coverage: coverage,
        failed_checks,
        passed: failed_checks == 0,
        failure_samples: eval_failure_samples(docs, coverage_failed),
    }
}

proof fn lemma_no_failed_checks(docs: Seq<EvalDocumentSummary>)
    ensures
        eval_total(docs, EvalQuantity::FailedChecks) == 0 <==> forall|i: int|
            0 <= i < docs.len() ==> (#[trigger] docs[i]).failed_checks@.len() == 0,
    decreases docs.len(),
{
    if docs.len() > 0 {
        let prev = docs.drop_last();
        lemma_no_failed_checks(prev);
        if eval_total(docs, EvalQuantity::FailedChecks) == 0 {
            assert forall|i: int| 0 <= i < docs.len() implies (#[trigger] docs[i]).failed_checks@.len() == 0 by {
                if i < docs.len() - 1 {
                    assert(docs[i] == prev[i]);
                }
            }
        }
        if forall|i: int| 0 <= i < docs.len() ==> (#[trigger] docs[i]).failed_checks@.len() == 0 {
            assert forall|i: int| 0 <= i < prev.len() implies (#[trigger] prev[i]).failed_checks@.len() == 0 by {
                assert(prev[i] == docs[i]);
            }
            assert(docs[docs.len() - 1].failed_checks@.len() == 0);
        }
    }
}

/// An evaluation passes exactly when it has documents, none of their checks
/// failed, and the category coverage did not fail.
pub proof fn lemma_eval_passes_iff(docs: Seq<EvalDocumentSummary>, coverage: Option<CategoryCoverageOutput>)
    ensures
        (eval_total(docs, EvalQuantity::FailedChecks) + (if coverage_failure(coverage) is Some {
            1int
        } else {
            0int
        }) + (if docs.len() == 0 {
            1int
        } else {
            0int
        }) == 0) <==> (docs.len() > 0 && coverage_failure(coverage) is None && forall|i: int|
            0 <= i < docs.len() ==> (#[trigger] docs[i]).failed_checks@.len() == 0),
{
    lemma_no_failed_checks(docs);
}

} // verus!
