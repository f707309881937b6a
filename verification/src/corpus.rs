//! How the runs of one external baseline over a corpus are summed up: how
//! many documents and pages succeeded, failed, timed out or came out empty,
//! how its output quality fared overall and per category, and which runs are
//! sampled for the report. Rates and speed-ups, which are ratios of these
//! totals, are left to the caller.
use vstd::prelude::*;

use crate::categories::string_opt_view;
use crate::countmap::CountMap;
use crate::smoke::{
    lemma_failed_positions_bounds, sample_positions, sampled_positions, BaselineQualityStatus,
    CorpusBaselineQualityUncheckedCategorySummary,
};

verus! {

broadcast use crate::views::lemma_char_vec_deep_view;

/// What checking a baseline's output against a document's expectations
/// found: the document's category, whether every check passed, how many
/// failed, and which kinds of check failed.
pub struct BaselineQualitySummary {
    pub category: Option<String>,
    pub passed: bool,
    pub failed_checks: u32,
    pub required_text_failed: bool,
    pub text_recall_failed: bool,
    pub reading_order_failed: bool,
    pub table_structure_failed: bool,
}

/// One run of the baseline on a document of the corpus, with what this tool
/// measured on the same document. `unchecked_category` is the document's
/// category in the corpus manifest, used when its quality was not checked.
pub struct CorpusBaselineRun {
    pub path: String,
    pub unchecked_category: String,
    pub page_count: usize,
    pub glyphrush_wall_us: u128,
    pub glyphrush_text_output_bytes: u64,
    pub wall_us: u128,
    pub output_bytes: u64,
    pub stderr_bytes: u64,
    pub success: bool,
    pub timed_out: bool,
    pub empty_output: bool,
    pub exit_status: Option<i32>,
    pub error_kind: Option<String>,
    pub error: Option<String>,
    pub stderr_preview: Option<String>,
    pub quality_status: BaselineQualityStatus,
    pub quality: Option<BaselineQualitySummary>,
}

// ---------------------------------------------------------------------------
// Counting runs and their pages
// ---------------------------------------------------------------------------

/// The runs a count is taken over.
#[derive(Clone, Copy, PartialEq, Eq, Structural, Debug)]
pub enum RunFilter {
    All,
    Succeeded,
    Failed,
    TimedOut,
    EmptyOutput,
    QualityChecked,
    QualityUnchecked,
    QualityPassed,
    QualityFailed,
    RequiredTextFailed,
    TextRecallFailed,
    ReadingOrderFailed,
    TableStructureFailed,
}

pub open spec fn run_matches(r: CorpusBaselineRun, f: RunFilter) -> bool {
    match f {
        RunFilter::All => true,
        RunFilter::Succeeded => r.success,
        RunFilter::Failed => !r.success,
        RunFilter::TimedOut => r.timed_out,
        RunFilter::EmptyOutput => r.empty_output,
        RunFilter::QualityChecked => r.quality is Some,
        RunFilter::QualityUnchecked => r.quality is None,
        RunFilter::QualityPassed => r.quality matches Some(q) && q.passed,
        RunFilter::QualityFailed => r.quality matches Some(q) && !q.passed,
        RunFilter::RequiredTextFailed => r.quality matches Some(q) && q.required_text_failed,
        RunFilter::TextRecallFailed => r.quality matches Some(q) && q.text_recall_failed,
        RunFilter::ReadingOrderFailed => r.quality matches Some(q) && q.reading_order_failed,
        RunFilter::TableStructureFailed => r.quality matches Some(q) && q.table_structure_failed,
    }
}

fn matches_filter(r: &CorpusBaselineRun, f: RunFilter) -> (b: bool)
    ensures
        b == run_matches(*r, f),
{
    match f {
        RunFilter::All => true,
        RunFilter::Succeeded => r.success,
        RunFilter::Failed => !r.success,
        RunFilter::TimedOut => r.timed_out,
        RunFilter::EmptyOutput => r.empty_output,
        RunFilter::QualityChecked => r.quality.is_some(),
        RunFilter::QualityUnchecked => r.quality.is_none(),
        RunFilter::QualityPassed => match &r.quality {
            Some(q) => q.passed,
            None => false,
        },
        RunFilter::QualityFailed => match &r.quality {
            Some(q) => !q.passed,
            None => false,
        },
        RunFilter::RequiredTextFailed => match &r.quality {
            Some(q) => q.required_text_failed,
            None => false,
        },
        RunFilter::TextRecallFailed => match &r.quality {
            Some(q) => q.text_recall_failed,
            None => false,
        },
        RunFilter::ReadingOrderFailed => match &r.quality {
            Some(q) => q.reading_order_failed,
            None => false,
        },
        RunFilter::TableStructureFailed => match &r.quality {
            Some(q) => q.table_structure_failed,
            None => false,
        },
    }
}

/// The number of runs that pass the filter.
pub open spec fn runs_where(runs: Seq<CorpusBaselineRun>, f: RunFilter) -> nat
    decreases runs.len(),
{
    if runs.len() == 0 {
        0
    } else {
        runs_where(runs.drop_last(), f) + if run_matches(runs.last(), f) {
            1nat
        } else {
            0nat
        }
    }
}

/// The pages of the documents whose runs pass the filter.
pub open spec fn pages_where(runs: Seq<CorpusBaselineRun>, f: RunFilter) -> nat
    decreases runs.len(),
{
    if runs.len() == 0 {
        0
    } else {
        pages_where(runs.drop_last(), f) + if run_matches(runs.last(), f) {
            runs.last().page_count as nat
        } else {
            0nat
        }
    }
}

proof fn lemma_where_bounds(runs: Seq<CorpusBaselineRun>, f: RunFilter)
    ensures
        runs_where(runs, f) <= runs.len(),
        pages_where(runs, f) <= pages_where(runs, RunFilter::All),
    decreases runs.len(),
{
    if runs.len() > 0 {
        lemma_where_bounds(runs.drop_last(), f);
    }
}

proof fn lemma_pages_prefix(runs: Seq<CorpusBaselineRun>, f: RunFilter, i: int)
    requires
        0 <= i <= runs.len(),
    ensures
        pages_where(runs.take(i), f) <= pages_where(runs, f),
    decreases runs.len() - i,
{
    if i < runs.len() {
        lemma_pages_prefix(runs, f, i + 1);
        assert(runs.take(i + 1).drop_last() =~= runs.take(i));
    } else {
        assert(runs.take(i) =~= runs);
    }
}

/// Counts the runs that pass a filter, and their pages.
pub fn count_runs(runs: &Vec<CorpusBaselineRun>, f: RunFilter) -> (r: (usize, usize))
    requires
        pages_where(runs@, RunFilter::All) <= usize::MAX,
    ensures
        r.0 == runs_where(runs@, f),
        r.1 == pages_where(runs@, f),
{
    let mut count: usize = 0;
    let mut pages: usize = 0;
    let mut i: usize = 0;
    proof {
        lemma_where_bounds(runs@, f);
    }
    while i < runs.len()
        invariant
            i <= runs@.len(),
            count == runs_where(runs@.take(i as int), f),
            pages == pages_where(runs@.take(i as int), f),
            pages_where(runs@, f) <= usize::MAX,
        decreases runs@.len() - i,
    {
        proof {
            assert(runs@.take(i + 1).drop_last() =~= runs@.take(i as int));
            lemma_where_bounds(runs@.take(i + 1), f);
            lemma_pages_prefix(runs@, f, i + 1);
        }
        if matches_filter(&runs[i], f) {
            count = count + 1;
            pages = pages + runs[i].page_count;
        }
        i += 1;
    }
    proof {
        assert(runs@.take(runs@.len() as int) =~= runs@);
    }
    (count, pages)
}

// ---------------------------------------------------------------------------
// Sums
// ---------------------------------------------------------------------------

/// A quantity summed over the runs.
#[derive(Clone, Copy, PartialEq, Eq, Structural, Debug)]
pub enum RunQuantity {
    WallUs,
    OutputBytes,
    StderrBytes,
    GlyphrushWallUs,
    GlyphrushTextOutputBytes,
    QualityFailedChecks,
}

pub open spec fn quantity_of(r: CorpusBaselineRun, q: RunQuantity) -> nat {
    match q {
        RunQuantity::WallUs => r.wall_us as nat,
        RunQuantity::OutputBytes => r.output_bytes as nat,
        RunQuantity::StderrBytes => r.stderr_bytes as nat,
        RunQuantity::GlyphrushWallUs => r.glyphrush_wall_us as nat,
        RunQuantity::GlyphrushTextOutputBytes => r.glyphrush_text_output_bytes as nat,
        RunQuantity::QualityFailedChecks => match r.quality {
            Some(s) => s.failed_checks as nat,
            None => 0nat,
        },
    }
}

fn quantity(r: &CorpusBaselineRun, q: RunQuantity) -> (n: u128)
    ensures
        n == quantity_of(*r, q),
{
    match q {
        RunQuantity::WallUs => r.wall_us,
        RunQuantity::OutputBytes => r.output_bytes as u128,
        RunQuantity::StderrBytes => r.stderr_bytes as u128,
        RunQuantity::GlyphrushWallUs => r.glyphrush_wall_us,
        RunQuantity::GlyphrushTextOutputBytes => r.glyphrush_text_output_bytes as u128,
        RunQuantity::QualityFailedChecks => match &r.quality {
            Some(s) => s.failed_checks as u128,
            None => 0,
        },
    }
}

/// The total of a quantity over the runs.
pub open spec fn total_of(runs: Seq<CorpusBaselineRun>, q: RunQuantity) -> nat
    decreases runs.len(),
{
    if runs.len() == 0 {
        0
    } else {
        total_of(runs.drop_last(), q) + quantity_of(runs.last(), q)
    }
}

proof fn lemma_total_prefix(runs: Seq<CorpusBaselineRun>, q: RunQuantity, i: int)
    requires
        0 <= i <= runs.len(),
    ensures
        total_of(runs.take(i), q) <= total_of(runs, q),
    decreases runs.len() - i,
{
    if i < runs.len() {
        lemma_total_prefix(runs, q, i + 1);
        assert(runs.take(i + 1).drop_last() =~= runs.take(i));
    } else {
        assert(runs.take(i) =~= runs);
    }
}

/// The total of a quantity over the runs.
pub fn sum_runs(runs: &Vec<CorpusBaselineRun>, q: RunQuantity) -> (n: u128)
    requires
        total_of(runs@, q) <= u128::MAX,
    ensures
        n == total_of(runs@, q),
{
    let mut total: u128 = 0;
    let mut i: usize = 0;
    while i < runs.len()
        invariant
            i <= runs@.len(),
            total == total_of(runs@.take(i as int), q),
            total_of(runs@, q) <= u128::MAX,
        decreases runs@.len() - i,
    {
        proof {
            assert(runs@.take(i + 1).drop_last() =~= runs@.take(i as int));
            lemma_total_prefix(runs@, q, i + 1);
        }
        total = total + quantity(&runs[i], q);
        i += 1;
    }
    proof {
        assert(runs@.take(runs@.len() as int) =~= runs@);
    }
    total
}

// ---------------------------------------------------------------------------
// Quality status of the corpus
// ---------------------------------------------------------------------------

/// How far the baseline's output quality was checked over the corpus.
#[derive(Clone, Copy, PartialEq, Eq, Structural, Debug)]
pub enum CorpusBaselineQualityStatus {
    Checked,
    PartiallyChecked,
    NotCheckedNoExpectations,
    NotCheckedBaselineFailures,
}

/// Checked when every run was; partly when some were; otherwise whether
/// nothing was expected of any document, or the baseline failed somewhere.
pub open spec fn corpus_quality_status(runs: Seq<CorpusBaselineRun>) -> CorpusBaselineQualityStatus {
    let checked = runs_where(runs, RunFilter::QualityChecked);
    if runs.len() > 0 && checked == runs.len() {
        CorpusBaselineQualityStatus::Checked
    } else if checked > 0 {
        CorpusBaselineQualityStatus::PartiallyChecked
    } else if forall|i: int|
        0 <= i < runs.len() ==> (#[trigger] runs[i]).quality_status
            == BaselineQualityStatus::NotCheckedNoExpectations {
        CorpusBaselineQualityStatus::NotCheckedNoExpectations
    } else {
        CorpusBaselineQualityStatus::NotCheckedBaselineFailures
    }
}

/// With no run checked for quality, none is counted as checked.
proof fn lemma_none_checked(runs: Seq<CorpusBaselineRun>)
    requires
        forall|i: int| 0 <= i < runs.len() ==> (#[trigger] runs[i]).quality is None,
    ensures
        runs_where(runs, RunFilter::QualityChecked) == 0,
    decreases runs.len(),
{
    if runs.len() > 0 {
        assert forall|i: int| 0 <= i < runs.drop_last().len() implies (#[trigger] runs.drop_last()[i]).quality is None by {
            assert(runs.drop_last()[i] == runs[i]);
        }
        lemma_none_checked(runs.drop_last());
        assert(runs.last() == runs[runs.len() - 1]);
    }
}

/// When no run of a baseline had its quality checked, the corpus reads "not
/// checked: no expectations" exactly when every run does; a single run that
/// timed out or failed (any other status) makes it "not checked: baseline
/// failures".
pub proof fn law_unchecked_corpus_status(runs: Seq<CorpusBaselineRun>)
    requires
        forall|i: int| 0 <= i < runs.len() ==> (#[trigger] runs[i]).quality is None,
    ensures
        (forall|i: int| 0 <= i < runs.len() ==> (#[trigger] runs[i]).quality_status
            == BaselineQualityStatus::NotCheckedNoExpectations) ==> corpus_quality_status(runs)
            == CorpusBaselineQualityStatus::NotCheckedNoExpectations,
        (exists|i: int| 0 <= i < runs.len() && (#[trigger] runs[i]).quality_status
            != BaselineQualityStatus::NotCheckedNoExpectations) ==> corpus_quality_status(runs)
            == CorpusBaselineQualityStatus::NotCheckedBaselineFailures,
{
    lemma_none_checked(runs);
}

pub fn corpus_baseline_quality_status(runs: &Vec<CorpusBaselineRun>) -> (r: CorpusBaselineQualityStatus)
    ensures
        r == corpus_quality_status(runs@),
{
    let mut checked: usize = 0;
    let mut all_unexpected = true;
    let mut i: usize = 0;
    while i < runs.len()
        invariant
            i <= runs@.len(),
            checked == runs_where(runs@.take(i as int), RunFilter::QualityChecked),
            all_unexpected == forall|j: int|
                0 <= j < i ==> (#[trigger] runs@[j]).quality_status
                    == BaselineQualityStatus::NotCheckedNoExpectations,
        decreases runs@.len() - i,
    {
        proof {
            assert(runs@.take(i + 1).drop_last() =~= runs@.take(i as int));
            lemma_where_bounds(runs@.take(i as int), RunFilter::QualityChecked);
        }
        if runs[i].quality.is_some() {
            checked = checked + 1;
        }
        if runs[i].quality_status != BaselineQualityStatus::NotCheckedNoExpectations {
            all_unexpected = false;
        }
        i += 1;
    }
    proof {
        assert(runs@.take(runs@.len() as int) =~= runs@);
    }
    if runs.len() > 0 && checked == runs.len() {
        CorpusBaselineQualityStatus::Checked
    } else if checked > 0 {
        CorpusBaselineQualityStatus::PartiallyChecked
    } else if all_unexpected {
        CorpusBaselineQualityStatus::NotCheckedNoExpectations
    } else {
        CorpusBaselineQualityStatus::NotCheckedBaselineFailures
    }
}

// ---------------------------------------------------------------------------
// Quality per category
// ---------------------------------------------------------------------------

/// The checked documents of a category: how many, their pages, how many
/// passed and failed, and the failed checks; the category passes when no
/// check failed.
#[derive(Clone, Copy, PartialEq, Eq, Structural, Debug)]
pub struct CorpusBaselineQualityCategorySummary {
    pub document_count: usize,
    pub page_count: usize,
    pub passed_documents: usize,
    pub failed_documents: usize,
    pub failed_checks: u32,
    pub quality_passed: bool,
    pub quality_failed: bool,
}

/// The category a quality result is counted under.
pub open spec fn quality_category(q: BaselineQualitySummary) -> Seq<char> {
    match q.category {
        Some(c) => c@,
        None => "uncategorized"@,
    }
}

pub open spec fn empty_category_summary() -> CorpusBaselineQualityCategorySummary {
    CorpusBaselineQualityCategorySummary {
        document_count: 0,
        page_count: 0,
        passed_documents: 0,
        failed_documents: 0,
        failed_checks: 0,
        quality_passed: false,
        quality_failed: false,
    }
}

/// A category summary with one more checked document.
pub open spec fn with_quality_document(
    s: CorpusBaselineQualityCategorySummary,
    page_count: nat,
    q: BaselineQualitySummary,
) -> CorpusBaselineQualityCategorySummary {
    let failed_checks = (s.failed_checks + q.failed_checks) as u32;
    CorpusBaselineQualityCategorySummary {
        document_count: (s.document_count + 1) as usize,
        page_count: (s.page_count + page_count) as usize,
        passed_documents: if q.passed {
            (s.passed_documents + 1) as usize
        } else {
            s.passed_documents
        },
        failed_documents: if q.passed {
            s.failed_documents
        } else {
            (s.failed_documents + 1) as usize
        },
        failed_checks,
        quality_passed: failed_checks == 0,
        quality_failed: failed_checks != 0,
    }
}

/// The summaries of the checked documents, by category.
pub open spec fn quality_category_tally(runs: Seq<CorpusBaselineRun>) -> Map<
    Seq<char>,
    CorpusBaselineQualityCategorySummary,
>
    decreases runs.len(),
{
    if runs.len() == 0 {
        Map::empty()
    } else {
        let prev = quality_category_tally(runs.drop_last());
        let r = runs.last();
        match r.quality {
            Some(q) => {
                let k = quality_category(q);
                let cur = if prev.dom().contains(k) {
                    prev[k]
                } else {
                    empty_category_summary()
                };
                prev.insert(k, with_quality_document(cur, r.page_count as nat, q))
            },
            None => prev,
        }
    }
}

/// No category counts more than all checked documents do.
proof fn lemma_category_tally_bounds(runs: Seq<CorpusBaselineRun>)
    requires
        runs.len() <= usize::MAX,
        pages_where(runs, RunFilter::All) <= usize::MAX,
        total_of(runs, RunQuantity::QualityFailedChecks) <= u32::MAX,
    ensures
        forall|k: Seq<char>|
            #[trigger] quality_category_tally(runs).dom().contains(k) ==> {
                let s = quality_category_tally(runs)[k];
                &&& s.document_count <= runs_where(runs, RunFilter::QualityChecked)
                &&& s.page_count <= pages_where(runs, RunFilter::QualityChecked)
                &&& s.failed_checks <= total_of(runs, RunQuantity::QualityFailedChecks)
                &&& s.passed_documents + s.failed_documents == s.document_count
            },
    decreases runs.len(),
{
    if runs.len() > 0 {
        let prev = runs.drop_last();
        lemma_where_bounds(prev, RunFilter::QualityChecked);
        lemma_where_bounds(runs, RunFilter::QualityChecked);
        lemma_category_tally_bounds(prev);
        let pt = quality_category_tally(prev);
        let t = quality_category_tally(runs);
        let r = runs.last();
        if let Some(q) = r.quality {
            let key = quality_category(q);
            let cur = if pt.dom().contains(key) {
                pt[key]
            } else {
                empty_category_summary()
            };
            assert(cur.document_count <= runs_where(prev, RunFilter::QualityChecked));
            assert(cur.page_count <= pages_where(prev, RunFilter::QualityChecked));
            assert(cur.failed_checks <= total_of(prev, RunQuantity::QualityFailedChecks));
            assert(runs_where(prev, RunFilter::QualityChecked) <= prev.len());
            assert(pages_where(prev, RunFilter::QualityChecked) <= pages_where(prev, RunFilter::All));
            assert forall|k: Seq<char>| #[trigger] t.dom().contains(k) implies {
                let s = t[k];
                &&& s.document_count <= runs_where(runs, RunFilter::QualityChecked)
                &&& s.page_count <= pages_where(runs, RunFilter::QualityChecked)
                &&& s.failed_checks <= total_of(runs, RunQuantity::QualityFailedChecks)
                &&& s.passed_documents + s.failed_documents == s.document_count
            } by {
                if k != key {
                    assert(pt.dom().contains(k));
                }
            }
        } else {
            assert forall|k: Seq<char>| #[trigger] t.dom().contains(k) implies {
                let s = t[k];
                &&& s.document_count <= runs_where(runs, RunFilter::QualityChecked)
                &&& s.page_count <= pages_where(runs, RunFilter::QualityChecked)
                &&& s.failed_checks <= total_of(runs, RunQuantity::QualityFailedChecks)
                &&& s.passed_documents + s.failed_documents == s.document_count
            } by {
                assert(pt.dom().contains(k));
            }
        }
    }
}

fn category_of(q: &BaselineQualitySummary) -> (r: String)
    ensures
        r@ == quality_category(*q),
{
    match &q.category {
        Some(c) => c.clone(),
        None => "uncategorized".to_string(),
    }
}

/// Sums up the checked documents by category.
pub fn quality_category_summaries(runs: &Vec<CorpusBaselineRun>) -> (m: CountMap<
    CorpusBaselineQualityCategorySummary,
>)
    requires
        pages_where(runs@, RunFilter::All) <= usize::MAX,
        total_of(runs@, RunQuantity::QualityFailedChecks) <= u32::MAX,
    ensures
        m.wf(),
        m.as_map() == quality_category_tally(runs@),
{
    let mut m: CountMap<CorpusBaselineQualityCategorySummary> = CountMap::new();
    let mut i: usize = 0;
    proof {
        lemma_where_bounds(runs@, RunFilter::QualityChecked);
    }
    while i < runs.len()
        invariant
            i <= runs@.len(),
            m.wf(),
            m.as_map() == quality_category_tally(runs@.take(i as int)),
            pages_where(runs@, RunFilter::All) <= usize::MAX,
            pages_where(runs@, RunFilter::QualityChecked) <= usize::MAX,
            total_of(runs@, RunQuantity::QualityFailedChecks) <= u32::MAX,
        decreases runs@.len() - i,
    {
        let ghost pre = runs@.take(i as int);
        proof {
            assert(runs@.take(i + 1).drop_last() =~= pre);
            lemma_pages_prefix(runs@, RunFilter::All, i as int);
            lemma_total_prefix(runs@, RunQuantity::QualityFailedChecks, i as int);
            lemma_category_tally_bounds(pre);
            lemma_where_bounds(pre, RunFilter::QualityChecked);
            lemma_pages_prefix(runs@, RunFilter::QualityChecked, i + 1);
            lemma_total_prefix(runs@, RunQuantity::QualityFailedChecks, i + 1);
            lemma_where_bounds(runs@.take(i + 1), RunFilter::QualityChecked);
        }
        let r = &runs[i];
        match &r.quality {
            Some(q) => {
                let k = category_of(q);
                let cur = match m.get(k.as_str()) {
                    Some(s) => s,
                    None => CorpusBaselineQualityCategorySummary {
                        document_count: 0,
                        page_count: 0,
                        passed_documents: 0,
                        failed_documents: 0,
                        failed_checks: 0,
                        quality_passed: false,
                        quality_failed: false,
                    },
                };
                proof {
                    assert(runs@.take(i + 1).last() == *r);
                    assert(pages_where(runs@.take(i + 1), RunFilter::QualityChecked) == pages_where(
                        pre,
                        RunFilter::QualityChecked,
                    ) + r.page_count);
                    assert(total_of(runs@.take(i + 1), RunQuantity::QualityFailedChecks) == total_of(
                        pre,
                        RunQuantity::QualityFailedChecks,
                    ) + q.failed_checks);
                    assert(runs_where(pre, RunFilter::QualityChecked) <= i);
                }
                let failed_checks = cur.failed_checks + q.failed_checks;
                let next = CorpusBaselineQualityCategorySummary {
                    document_count: cur.document_count + 1,
                    page_count: cur.page_count + r.page_count,
                    passed_documents: if q.passed {
                        cur.passed_documents + 1
                    } else {
                        cur.passed_documents
                    },
                    failed_documents: if q.passed {
                        cur.failed_documents
                    } else {
                        cur.failed_documents + 1
                    },
                    failed_checks,
                    quality_passed: failed_checks == 0,
                    quality_failed: failed_checks != 0,
                };
                m.set(k, next);
            },
            None => {},
        }
        i += 1;
    }
    proof {
        assert(runs@.take(runs@.len() as int) =~= runs@);
    }
    m
}

// ---------------------------------------------------------------------------
// Unchecked documents per category
// ---------------------------------------------------------------------------

pub open spec fn empty_unchecked_summary() -> CorpusBaselineQualityUncheckedCategorySummary {
    CorpusBaselineQualityUncheckedCategorySummary {
        document_count: 0,
        page_count: 0,
        not_checked_no_expectations_documents: 0,
        not_checked_timed_out_documents: 0,
        not_checked_execution_failed_documents: 0,
    }
}

/// An unchecked-category summary with one more document.
pub open spec fn with_unchecked_document(
    s: CorpusBaselineQualityUncheckedCategorySummary,
    page_count: nat,
    status: BaselineQualityStatus,
) -> CorpusBaselineQualityUncheckedCategorySummary {
    CorpusBaselineQualityUncheckedCategorySummary {
        document_count: (s.document_count + 1) as usize,
        page_count: (s.page_count + page_count) as usize,
        not_checked_no_expectations_documents: if status
            == BaselineQualityStatus::NotCheckedNoExpectations {
            (s.not_checked_no_expectations_documents + 1) as usize
        } else {
            s.not_checked_no_expectations_documents
        },
        not_checked_timed_out_documents: if status == BaselineQualityStatus::NotCheckedTimedOut {
            (s.not_checked_timed_out_documents + 1) as usize
        } else {
            s.not_checked_timed_out_documents
        },
        not_checked_execution_failed_documents: if status
            == BaselineQualityStatus::NotCheckedExecutionFailed {
            (s.not_checked_execution_failed_documents + 1) as usize
        } else {
            s.not_checked_execution_failed_documents
        },
    }
}

/// The summaries of the unchecked documents, by their manifest category.
pub open spec fn unchecked_category_tally(runs: Seq<CorpusBaselineRun>) -> Map<
    Seq<char>,
    CorpusBaselineQualityUncheckedCategorySummary,
>
    decreases runs.len(),
{
    if runs.len() == 0 {
        Map::empty()
    } else {
        let prev = unchecked_category_tally(runs.drop_last());
        let r = runs.last();
        if r.quality is None {
            let k = r.unchecked_category@;
            let cur = if prev.dom().contains(k) {
                prev[k]
            } else {
                empty_unchecked_summary()
            };
            prev.insert(k, with_unchecked_document(cur, r.page_count as nat, r.quality_status))
        } else {
            prev
        }
    }
}

proof fn lemma_unchecked_tally_bounds(runs: Seq<CorpusBaselineRun>)
    requires
        runs.len() <= usize::MAX,
        pages_where(runs, RunFilter::All) <= usize::MAX,
    ensures
        forall|k: Seq<char>|
            #[trigger] unchecked_category_tally(runs).dom().contains(k) ==> {
                let s = unchecked_category_tally(runs)[k];
                &&& s.document_count <= runs_where(runs, RunFilter::QualityUnchecked)
                &&& s.page_count <= pages_where(runs, RunFilter::QualityUnchecked)
                &&& s.not_checked_no_expectations_documents <= s.document_count
                &&& s.not_checked_timed_out_documents <= s.document_count
                &&& s.not_checked_execution_failed_documents <= s.document_count
            },
    decreases runs.len(),
{
    if runs.len() > 0 {
        let prev = runs.drop_last();
        lemma_where_bounds(prev, RunFilter::QualityUnchecked);
        lemma_where_bounds(runs, RunFilter::QualityUnchecked);
        lemma_unchecked_tally_bounds(prev);
        let pt = unchecked_category_tally(prev);
        let t = unchecked_category_tally(runs);
        let r = runs.last();
        if r.quality is None {
            let key = r.unchecked_category@;
            let cur = if pt.dom().contains(key) {
                pt[key]
            } else {
                empty_unchecked_summary()
            };
            assert(cur.document_count <= runs_where(prev, RunFilter::QualityUnchecked));
            assert(cur.page_count <= pages_where(prev, RunFilter::QualityUnchecked));
            assert(runs_where(prev, RunFilter::QualityUnchecked) <= prev.len());
            assert(pages_where(prev, RunFilter::QualityUnchecked) <= pages_where(prev, RunFilter::All));
            assert forall|k: Seq<char>| #[trigger] t.dom().contains(k) implies {
                let s = t[k];
                &&& s.document_count <= runs_where(runs, RunFilter::QualityUnchecked)
                &&& s.page_count <= pages_where(runs, RunFilter::QualityUnchecked)
                &&& s.not_checked_no_expectations_documents <= s.document_count
                &&& s.not_checked_timed_out_documents <= s.document_count
                &&& s.not_checked_execution_failed_documents <= s.document_count
            } by {
                if k != key {
                    assert(pt.dom().contains(k));
                }
            }
        } else {
            assert forall|k: Seq<char>| #[trigger] t.dom().contains(k) implies {
                let s = t[k];
                &&& s.document_count <= runs_where(runs, RunFilter::QualityUnchecked)
                &&& s.page_count <= pages_where(runs, RunFilter::QualityUnchecked)
                &&& s.not_checked_no_expectations_documents <= s.document_count
                &&& s.not_checked_timed_out_documents <= s.document_count
                &&& s.not_checked_execution_failed_documents <= s.document_count
            } by {
                assert(pt.dom().contains(k));
            }
        }
    }
}

/// Sums up the unchecked documents by their manifest category.
pub fn unchecked_category_summaries(runs: &Vec<CorpusBaselineRun>) -> (m: CountMap<
    CorpusBaselineQualityUncheckedCategorySummary,
>)
    requires
        pages_where(runs@, RunFilter::All) <= usize::MAX,
    ensures
        m.wf(),
        m.as_map() == unchecked_category_tally(runs@),
{
    let mut m: CountMap<CorpusBaselineQualityUncheckedCategorySummary> = CountMap::new();
    let mut i: usize = 0;
    proof {
        lemma_where_bounds(runs@, RunFilter::QualityUnchecked);
    }
    while i < runs.len()
        invariant
            i <= runs@.len(),
            m.wf(),
            m.as_map() == unchecked_category_tally(runs@.take(i as int)),
            pages_where(runs@, RunFilter::All) <= usize::MAX,
            pages_where(runs@, RunFilter::QualityUnchecked) <= usize::MAX,
        decreases runs@.len() - i,
    {
        let ghost pre = runs@.take(i as int);
        proof {
            assert(runs@.take(i + 1).drop_last() =~= pre);
            lemma_pages_prefix(runs@, RunFilter::All, i as int);
            lemma_unchecked_tally_bounds(pre);
            lemma_where_bounds(pre, RunFilter::QualityUnchecked);
            lemma_pages_prefix(runs@, RunFilter::QualityUnchecked, i + 1);
        }
        let r = &runs[i];
        if r.quality.is_none() {
            let k = r.unchecked_category.clone();
            let mut cur = match m.get(k.as_str()) {
                Some(s) => s,
                None => CorpusBaselineQualityUncheckedCategorySummary {
                    document_count: 0,
                    page_count: 0,
                    not_checked_no_expectations_documents: 0,
                    not_checked_timed_out_documents: 0,
                    not_checked_execution_failed_documents: 0,
                },
            };
            proof {
                assert(runs@.take(i + 1).last() == *r);
                assert(pages_where(runs@.take(i + 1), RunFilter::QualityUnchecked) == pages_where(
                    pre,
                    RunFilter::QualityUnchecked,
                ) + r.page_count);
                assert(runs_where(pre, RunFilter::QualityUnchecked) <= i);
            }
            cur.add_document(r.page_count, r.quality_status);
            m.set(k, cur);
        }
        i += 1;
    }
    proof {
        assert(runs@.take(runs@.len() as int) =~= runs@);
    }
    m
}

// ---------------------------------------------------------------------------
// Samples
// ---------------------------------------------------------------------------

/// Which runs a filter leaves out, as a mask.
pub open spec fn left_out(runs: Seq<CorpusBaselineRun>, f: RunFilter) -> Seq<bool> {
    Seq::new(runs.len(), |i: int| !run_matches(runs[i], f))
}

/// The positions of the first three runs that pass the filter.
pub open spec fn sampled_runs(runs: Seq<CorpusBaselineRun>, f: RunFilter) -> Seq<int> {
    sampled_positions(left_out(runs, f))
}

fn sample_run_positions(runs: &Vec<CorpusBaselineRun>, f: RunFilter) -> (r: Vec<usize>)
    ensures
        r@.len() == sampled_runs(runs@, f).len(),
        r@.len() <= 3,
        forall|k: int|
            0 <= k < r@.len() ==> #[trigger] r@[k] == sampled_runs(runs@, f)[k] && r@[k] < runs@.len()
                && run_matches(runs@[r@[k] as int], f),
{
    let mut mask: Vec<bool> = Vec::new();
    let mut i: usize = 0;
    while i < runs.len()
        invariant
            i <= runs@.len(),
            mask@ == left_out(runs@, f).take(i as int),
        decreases runs@.len() - i,
    {
        let keep = matches_filter(&runs[i], f);
        mask.push(!keep);
        i += 1;
        proof {
            assert(mask@ =~= left_out(runs@, f).take(i as int));
        }
    }
    proof {
        assert(mask@ =~= left_out(runs@, f));
        lemma_failed_positions_bounds(mask@);
    }
    let positions = sample_positions(&mask);
    proof {
        let all = crate::smoke::failed_positions(mask@);
        assert forall|k: int| 0 <= k < positions@.len() implies positions@[k] < runs@.len() && run_matches(
            runs@[positions@[k] as int],
            f,
        ) by {
            assert(sampled_positions(mask@)[k] == all[k]);
            assert(0 <= all[k] < mask@.len() && !mask@[all[k]]);
        }
    }
    positions
}

/// A failed run, as the report samples it.
pub struct CorpusBaselineFailureSample {
    pub path: String,
    pub exit_status: Option<i32>,
    pub error_kind: Option<String>,
    pub error: Option<String>,
    pub stderr_preview: Option<String>,
}

pub open spec fn is_failure_sample(s: CorpusBaselineFailureSample, r: CorpusBaselineRun) -> bool {
    &&& s.path@ == r.path@
    &&& s.exit_status == r.exit_status
    &&& string_opt_view(s.error_kind) == string_opt_view(r.error_kind)
    &&& string_opt_view(s.error) == string_opt_view(r.error)
    &&& string_opt_view(s.stderr_preview) == string_opt_view(r.stderr_preview)
}

fn copy_opt(s: &Option<String>) -> (r: Option<String>)
    ensures
        string_opt_view(r) == string_opt_view(*s),
{
    match s {
        Some(x) => Some(x.clone()),
        None => None,
    }
}

/// The first three failed runs.
pub fn corpus_failure_samples(runs: &Vec<CorpusBaselineRun>) -> (r: Vec<CorpusBaselineFailureSample>)
    ensures
        r@.len() == sampled_runs(runs@, RunFilter::Failed).len(),
        forall|k: int|
            0 <= k < r@.len() ==> is_failure_sample(
                #[trigger] r@[k],
                runs@[sampled_runs(runs@, RunFilter::Failed)[k]],
            ),
{
    let positions = sample_run_positions(runs, RunFilter::Failed);
    let mut out: Vec<CorpusBaselineFailureSample> = Vec::new();
    let mut j: usize = 0;
    while j < positions.len()
        invariant
            j <= positions@.len(),
            positions@.len() == sampled_runs(runs@, RunFilter::Failed).len(),
            forall|k: int|
                0 <= k < positions@.len() ==> #[trigger] positions@[k] == sampled_runs(
                    runs@,
                    RunFilter::Failed,
                )[k] && positions@[k] < runs@.len(),
            out@.len() == j,
            forall|k: int|
                0 <= k < j ==> is_failure_sample(
                    #[trigger] out@[k],
                    runs@[sampled_runs(runs@, RunFilter::Failed)[k]],
                ),
        decreases positions@.len() - j,
    {
        let r = &runs[positions[j]];
        out.push(
            CorpusBaselineFailureSample {
                path: r.path.clone(),
                exit_status: r.exit_status,
                error_kind: copy_opt(&r.error_kind),
                error: copy_opt(&r.error),
                stderr_preview: copy_opt(&r.stderr_preview),
            },
        );
        j += 1;
    }
    out
}

/// The kinds of check that failed, in report order.
pub open spec fn failed_check_kinds(q: BaselineQualitySummary) -> Seq<Seq<char>> {
    (if q.required_text_failed {
        seq!["required_text"@]
    } else {
        Seq::empty()
    }) + (if q.text_recall_failed {
        seq!["text_recall"@]
    } else {
        Seq::empty()
    }) + (if q.reading_order_failed {
        seq!["reading_order"@]
    } else {
        Seq::empty()
    }) + (if q.table_structure_failed {
        seq!["table_structure"@]
    } else {
        Seq::empty()
    })
}

fn push_kind_if(out: &mut Vec<String>, cond: bool, s: &str)
    ensures
        final(out).deep_view() == old(out).deep_view() + (if cond {
            seq![s@]
        } else {
            Seq::<Seq<char>>::empty()
        }),
{
    let ghost prev = out@;
    if cond {
        let t = s.to_string();
        out.push(t);
        proof {
            crate::views::lemma_vec_dview(*out);
            crate::views::lemma_dview_push(prev, t);
            crate::views::lemma_vec_dview(*old(out));
        }
    }
    assert(out.deep_view() =~= old(out).deep_view() + (if cond {
        seq![s@]
    } else {
        Seq::<Seq<char>>::empty()
    }));
}

/// The kinds of check that failed for a document.
pub fn baseline_quality_failed_check_types(q: &BaselineQualitySummary) -> (r: Vec<String>)
    ensures
        r.deep_view() == failed_check_kinds(*q),
{
    let mut out: Vec<String> = Vec::new();
    push_kind_if(&mut out, q.required_text_failed, "required_text");
    push_kind_if(&mut out, q.text_recall_failed, "text_recall");
    push_kind_if(&mut out, q.reading_order_failed, "reading_order");
    push_kind_if(&mut out, q.table_structure_failed, "table_structure");
    assert(out.deep_view() =~= failed_check_kinds(*q));
    out
}

/// A run whose quality check failed, as the report samples it.
pub struct CorpusBaselineQualityFailureSample {
    pub path: String,
    pub failed_checks: u32,
    pub failed_check_types: Vec<String>,
}

pub open spec fn is_quality_failure_sample(s: CorpusBaselineQualityFailureSample, r: CorpusBaselineRun) -> bool {
    &&& s.path@ == r.path@
    &&& r.quality matches Some(q) && s.failed_checks == q.failed_checks
        && s.failed_check_types.deep_view() == failed_check_kinds(q)
}

/// The first three runs whose quality check failed.
pub fn corpus_quality_failure_samples(runs: &Vec<CorpusBaselineRun>) -> (r: Vec<
    CorpusBaselineQualityFailureSample,
>)
    ensures
        r@.len() == sampled_runs(runs@, RunFilter::QualityFailed).len(),
        forall|k: int|
            0 <= k < r@.len() ==> is_quality_failure_sample(
                #[trigger] r@[k],
                runs@[sampled_runs(runs@, RunFilter::QualityFailed)[k]],
            ),
{
    let positions = sample_run_positions(runs, RunFilter::QualityFailed);
    let mut out: Vec<CorpusBaselineQualityFailureSample> = Vec::new();
    let mut j: usize = 0;
    while j < positions.len()
        invariant
            j <= positions@.len(),
            positions@.len() == sampled_runs(runs@, RunFilter::QualityFailed).len(),
            forall|k: int|
                0 <= k < positions@.len() ==> #[trigger] positions@[k] == sampled_runs(
                    runs@,
                    RunFilter::QualityFailed,
                )[k] && positions@[k] < runs@.len() && run_matches(
                    runs@[positions@[k] as int],
                    RunFilter::QualityFailed,
                ),
            out@.len() == j,
            forall|k: int|
                0 <= k < j ==> is_quality_failure_sample(
                    #[trigger] out@[k],
                    runs@[sampled_runs(runs@, RunFilter::QualityFailed)[k]],
                ),
        decreases positions@.len() - j,
    {
        let r = &runs[positions[j]];
        proof {
            assert(run_matches(runs@[positions@[j as int] as int], RunFilter::QualityFailed));
        }
        match &r.quality {
            Some(q) => {
                out.push(
                    CorpusBaselineQualityFailureSample {
                        path: r.path.clone(),
                        failed_checks: q.failed_checks,
                        failed_check_types: baseline_quality_failed_check_types(q),
                    },
                );
            },
            None => {},
        }
        j += 1;
    }
    out
}

/// A run whose quality was not checked, as the report samples it.
pub struct CorpusBaselineQualityUncheckedSample {
    pub path: String,
    pub category: String,
    pub quality_status: BaselineQualityStatus,
}

pub open spec fn is_unchecked_sample(s: CorpusBaselineQualityUncheckedSample, r: CorpusBaselineRun) -> bool {
    &&& s.path@ == r.path@
    &&& s.category@ == r.unchecked_category@
    &&& s.quality_status == r.quality_status
}

/// The first three runs whose quality was not checked.
pub fn corpus_quality_unchecked_samples(runs: &Vec<CorpusBaselineRun>) -> (r: Vec<
    CorpusBaselineQualityUncheckedSample,
>)
    ensures
        r@.len() == sampled_runs(runs@, RunFilter::QualityUnchecked).len(),
        forall|k: int|
            0 <= k < r@.len() ==> is_unchecked_sample(
                #[trigger] r@[k],
                runs@[sampled_runs(runs@, RunFilter::QualityUnchecked)[k]],
            ),
{
    let positions = sample_run_positions(runs, RunFilter::QualityUnchecked);
    let mut out: Vec<CorpusBaselineQualityUncheckedSample> = Vec::new();
    let mut j: usize = 0;
    while j < positions.len()
        invariant
            j <= positions@.len(),
            positions@.len() == sampled_runs(runs@, RunFilter::QualityUnchecked).len(),
            forall|k: int|
                0 <= k < positions@.len() ==> #[trigger] positions@[k] == sampled_runs(
                    runs@,
                    RunFilter::QualityUnchecked,
                )[k] && positions@[k] < runs@.len(),
            out@.len() == j,
            forall|k: int|
                0 <= k < j ==> is_unchecked_sample(
                    #[trigger] out@[k],
                    runs@[sampled_runs(runs@, RunFilter::QualityUnchecked)[k]],
                ),
        decreases positions@.len() - j,
    {
        let r = &runs[positions[j]];
        out.push(
            CorpusBaselineQualityUncheckedSample {
                path: r.path.clone(),
                category: r.unchecked_category.clone(),
                quality_status: r.quality_status,
            },
        );
        j += 1;
    }
    out
}

// ---------------------------------------------------------------------------
// The totals of a baseline over the corpus
// ---------------------------------------------------------------------------

/// The sums over the runs fit the report's integer types.
pub open spec fn corpus_totals_fit(runs: Seq<CorpusBaselineRun>) -> bool {
    &&& pages_where(runs, RunFilter::All) <= usize::MAX
    &&& total_of(runs, RunQuantity::WallUs) <= u128::MAX
    &&& total_of(runs, RunQuantity::GlyphrushWallUs) <= u128::MAX
    &&& total_of(runs, RunQuantity::OutputBytes) <= u64::MAX
    &&& total_of(runs, RunQuantity::StderrBytes) <= u64::MAX
    &&& total_of(runs, RunQuantity::GlyphrushTextOutputBytes) <= u64::MAX
    &&& total_of(runs, RunQuantity::QualityFailedChecks) <= u32::MAX
}

/// What a baseline's runs over the corpus add up to.
pub struct CorpusBaselineTotals {
    pub document_count: usize,
    pub successful_documents: usize,
    pub failed_documents: usize,
    pub timed_out_documents: usize,
    pub successful_pages: usize,
    pub failed_pages: usize,
    pub timed_out_pages: usize,
    pub empty_output_documents: usize,
    pub empty_output_pages: usize,
    pub quality_status: CorpusBaselineQualityStatus,
    pub quality_documents: usize,
    pub quality_unchecked_documents: usize,
    pub quality_passed_documents: usize,
    pub quality_failed_documents: usize,
    pub quality_failed_checks: u32,
    pub quality_required_text_failed_documents: usize,
    pub quality_text_recall_failed_documents: usize,
    pub quality_reading_order_failed_documents: usize,
    pub quality_table_structure_failed_documents: usize,
    pub quality_category_summaries: CountMap<CorpusBaselineQualityCategorySummary>,
    pub quality_unchecked_category_summaries: CountMap<CorpusBaselineQualityUncheckedCategorySummary>,
    pub failure_samples: Vec<CorpusBaselineFailureSample>,
    pub quality_failure_samples: Vec<CorpusBaselineQualityFailureSample>,
    pub quality_unchecked_samples: Vec<CorpusBaselineQualityUncheckedSample>,
    pub wall_us: u128,
    pub glyphrush_wall_us: u128,
    pub output_bytes: u64,
    pub glyphrush_text_output_bytes: u64,
    pub stderr_bytes: u64,
    pub speed_comparable: bool,
}

/// Sums up a baseline's runs over the corpus. Speed is comparable when the
/// baseline ran on some document and failed on none.
pub fn aggregate_corpus_baseline(runs: &Vec<CorpusBaselineRun>) -> (t: CorpusBaselineTotals)
    requires
        corpus_totals_fit(runs@),
    ensures
        t.document_count == runs@.len(),
        t.successful_documents == runs_where(runs@, RunFilter::Succeeded),
        t.failed_documents == runs_where(runs@, RunFilter::Failed),
        t.timed_out_documents == runs_where(runs@, RunFilter::TimedOut),
        t.successful_pages == pages_where(runs@, RunFilter::Succeeded),
        t.failed_pages == pages_where(runs@, RunFilter::Failed),
        t.timed_out_pages == pages_where(runs@, RunFilter::TimedOut),
        t.empty_output_documents == runs_where(runs@, RunFilter::EmptyOutput),
        t.empty_output_pages == pages_where(runs@, RunFilter::EmptyOutput),
        t.quality_status == corpus_quality_status(runs@),
        t.quality_documents == runs_where(runs@, RunFilter::QualityChecked),
        t.quality_unchecked_documents == runs_where(runs@, RunFilter::QualityUnchecked),
        t.quality_passed_documents == runs_where(runs@, RunFilter::QualityPassed),
        t.quality_failed_documents == runs_where(runs@, RunFilter::QualityFailed),
        t.quality_failed_checks == total_of(runs@, RunQuantity::QualityFailedChecks),
        t.quality_required_text_failed_documents == runs_where(runs@, RunFilter::RequiredTextFailed),
        t.quality_text_recall_failed_documents == runs_where(runs@, RunFilter::TextRecallFailed),
        t.quality_reading_order_failed_documents == runs_where(runs@, RunFilter::ReadingOrderFailed),
        t.quality_table_structure_failed_documents == runs_where(
            runs@,
            RunFilter::TableStructureFailed,
        ),
        t.quality_category_summaries.wf(),
        t.quality_category_summaries.as_map() == quality_category_tally(runs@),
        t.quality_unchecked_category_summaries.wf(),
        t.quality_unchecked_category_summaries.as_map() == unchecked_category_tally(runs@),
        t.failure_samples@.len() == sampled_runs(runs@, RunFilter::Failed).len(),
        forall|k: int|
            0 <= k < t.failure_samples@.len() ==> is_failure_sample(
                #[trigger] t.failure_samples@[k],
                runs@[sampled_runs(runs@, RunFilter::Failed)[k]],
            ),
        t.quality_failure_samples@.len() == sampled_runs(runs@, RunFilter::QualityFailed).len(),
        forall|k: int|
            0 <= k < t.quality_failure_samples@.len() ==> is_quality_failure_sample(
                #[trigger] t.quality_failure_samples@[k],
                runs@[sampled_runs(runs@, RunFilter::QualityFailed)[k]],
            ),
        t.quality_unchecked_samples@.len() == sampled_runs(runs@, RunFilter::QualityUnchecked).len(),
        forall|k: int|
            0 <= k < t.quality_unchecked_samples@.len() ==> is_unchecked_sample(
                #[trigger] t.quality_unchecked_samples@[k],
                runs@[sampled_runs(runs@, RunFilter::QualityUnchecked)[k]],
            ),
        t.wall_us == total_of(runs@, RunQuantity::WallUs),
        t.glyphrush_wall_us == total_of(runs@, RunQuantity::GlyphrushWallUs),
        t.output_bytes == total_of(runs@, RunQuantity::OutputBytes),
        t.glyphrush_text_output_bytes == total_of(runs@, RunQuantity::GlyphrushTextOutputBytes),
        t.stderr_bytes == total_of(runs@, RunQuantity::StderrBytes),
        t.speed_comparable == (runs@.len() > 0 && runs_where(runs@, RunFilter::Failed) == 0),
{
    let (successful_documents, successful_pages) = count_runs(runs, RunFilter::Succeeded);
    let (failed_documents, failed_pages) = count_runs(runs, RunFilter::Failed);
    let (timed_out_documents, timed_out_pages) = count_runs(runs, RunFilter::TimedOut);
    let (empty_output_documents, empty_output_pages) = count_runs(runs, RunFilter::EmptyOutput);
    let (quality_documents, _) = count_runs(runs, RunFilter::QualityChecked);
    let (quality_unchecked_documents, _) = count_runs(runs, RunFilter::QualityUnchecked);
    let (quality_passed_documents, _) = count_runs(runs, RunFilter::QualityPassed);
    let (quality_failed_documents, _) = count_runs(runs, RunFilter::QualityFailed);
    let (required_text_failed, _) = count_runs(runs, RunFilter::RequiredTextFailed);
    let (text_recall_failed, _) = count_runs(runs, RunFilter::TextRecallFailed);
    let (reading_order_failed, _) = count_runs(runs, RunFilter::ReadingOrderFailed);
    let (table_structure_failed, _) = count_runs(runs, RunFilter::TableStructureFailed);
    let failed_checks = sum_runs(runs, RunQuantity::QualityFailedChecks);
    let output_bytes = sum_runs(runs, RunQuantity::OutputBytes);
    let text_bytes = sum_runs(runs, RunQuantity::GlyphrushTextOutputBytes);
    let stderr_bytes = sum_runs(runs, RunQuantity::StderrBytes);
    CorpusBaselineTotals {
        document_count: runs.len(),
        successful_documents,
        failed_documents,
        timed_out_documents,
        successful_pages,
        failed_pages,
        timed_out_pages,
        empty_output_documents,
        empty_output_pages,
        quality_status: corpus_baseline_quality_status(runs),
        quality_documents,
        quality_unchecked_documents,
        quality_passed_documents,
        quality_failed_documents,
        quality_failed_checks: failed_checks as u32,
        quality_required_text_failed_documents: required_text_failed,
        quality_text_recall_failed_documents: text_recall_failed,
        quality_reading_order_failed_documents: reading_order_failed,
        quality_table_structure_failed_documents: table_structure_failed,
        quality_category_summaries: quality_category_summaries(runs),
        quality_unchecked_category_summaries: unchecked_category_summaries(runs),
        failure_samples: corpus_failure_samples(runs),
        quality_failure_samples: corpus_quality_failure_samples(runs),
        quality_unchecked_samples: corpus_quality_unchecked_samples(runs),
        wall_us: sum_runs(runs, RunQuantity::WallUs),
        glyphrush_wall_us: sum_runs(runs, RunQuantity::GlyphrushWallUs),
        output_bytes: output_bytes as u64,
        glyphrush_text_output_bytes: text_bytes as u64,
        stderr_bytes: stderr_bytes as u64,
        speed_comparable: runs.len() > 0 && failed_documents == 0,
    }
}

/// Every run either succeeded or failed, and either had its quality checked
/// or not; a checked run either passed or failed its checks. The same holds
/// of the pages.
pub proof fn lemma_run_counts_partition(runs: Seq<CorpusBaselineRun>)
    ensures
        runs_where(runs, RunFilter::Succeeded) + runs_where(runs, RunFilter::Failed) == runs.len(),
        pages_where(runs, RunFilter::Succeeded) + pages_where(runs, RunFilter::Failed) == pages_where(
            runs,
            RunFilter::All,
        ),
        runs_where(runs, RunFilter::QualityChecked) + runs_where(runs, RunFilter::QualityUnchecked)
            == runs.len(),
        runs_where(runs, RunFilter::QualityPassed) + runs_where(runs, RunFilter::QualityFailed)
            == runs_where(runs, RunFilter::QualityChecked),
    decreases runs.len(),
{
    if runs.len() > 0 {
        lemma_run_counts_partition(runs.drop_last());
    }
}

} // verus!
