//! The totals of a corpus benchmark over its documents: counters added up,
//! the largest resident set, the first warnings as samples, and the cache
//! outcomes counted. Rates (pages per second, bytes per page) are left to
//! the caller.
use vstd::prelude::*;

use crate::countmap::CountMap;
use crate::eval_summary::{
    fallback_step_fits, fallback_total, quality_flag_step_fits, quality_flag_total, route_step_fits,
    route_total, sum_fallback_action_counts, sum_quality_flag_counts, sum_route_counts,
    ArtifactCacheOutcome,
};
use crate::metrics::{
    add_reason_counts, can_merge, merged_counts, BenchStageTimings, FallbackActionCounts,
    QualityFlagCounts, RouteCounts,
};
use crate::text::{copy_string, str_eq};

verus! {

/// What the benchmark of one document of a corpus reports.
pub struct CorpusBenchDocumentSummary {
    pub path: String,
    pub document_fingerprint: String,
    pub page_count: usize,
    pub wall_us: u128,
    pub artifact_bytes: u64,
    pub allocated_bytes: u64,
    pub text_output_bytes: u64,
    pub text_output_line_count: usize,
    pub text_output_word_count: usize,
    pub empty_text_output: bool,
    pub empty_text_output_pages: usize,
    pub peak_rss_bytes: u64,
    pub fallback_pages: u32,
    pub ocr_pages: u32,
    pub ocr_required_pages: u32,
    pub ocr_applied_pages: u32,
    pub image_artifact_count: u32,
    pub image_artifact_pages: u32,
    pub warnings: Vec<String>,
    pub warnings_count: usize,
    pub cache: ArtifactCacheOutcome,
    pub route_counts: RouteCounts,
    pub route_reason_counts: CountMap<u32>,
    pub quality_flag_counts: QualityFlagCounts,
    pub fallback_action_counts: FallbackActionCounts,
    pub stage_timings_us: BenchStageTimings,
}

/// A quantity added up over the documents.
#[derive(Clone, Copy, PartialEq, Eq, Structural, Debug)]
pub enum BenchQuantity {
    Pages,
    ArtifactBytes,
    AllocatedBytes,
    TextOutputBytes,
    TextOutputLines,
    TextOutputWords,
    EmptyTextOutputDocuments,
    EmptyTextOutputPages,
    FallbackPages,
    OcrPages,
    OcrRequiredPages,
    OcrAppliedPages,
    ImageArtifacts,
    ImageArtifactPages,
    Warnings,
    CacheHits,
    CacheMisses,
}

pub open spec fn bench_quantity(d: CorpusBenchDocumentSummary, q: BenchQuantity) -> nat {
    match q {
        BenchQuantity::Pages => d.page_count as nat,
        BenchQuantity::ArtifactBytes => d.artifact_bytes as nat,
        BenchQuantity::AllocatedBytes => d.allocated_bytes as nat,
        BenchQuantity::TextOutputBytes => d.text_output_bytes as nat,
        BenchQuantity::TextOutputLines => d.text_output_line_count as nat,
        BenchQuantity::TextOutputWords => d.text_output_word_count as nat,
        BenchQuantity::EmptyTextOutputDocuments => if d.empty_text_output {
            1nat
        } else {
            0nat
        },
        BenchQuantity::EmptyTextOutputPages => d.empty_text_output_pages as nat,
        BenchQuantity::FallbackPages => d.fallback_pages as nat,
        BenchQuantity::OcrPages => d.ocr_pages as nat,
        BenchQuantity::OcrRequiredPages => d.ocr_required_pages as nat,
        BenchQuantity::OcrAppliedPages => d.ocr_applied_pages as nat,
        BenchQuantity::ImageArtifacts => d.image_artifact_count as nat,
        BenchQuantity::ImageArtifactPages => d.image_artifact_pages as nat,
        BenchQuantity::Warnings => d.warnings_count as nat,
        BenchQuantity::CacheHits => if d.cache == ArtifactCacheOutcome::Hit {
            1nat
        } else {
            0nat
        },
        BenchQuantity::CacheMisses => if d.cache == ArtifactCacheOutcome::Miss {
            1nat
        } else {
            0nat
        },
    }
}

fn quantity(d: &CorpusBenchDocumentSummary, q: BenchQuantity) -> (n: u128)
    ensures
        n == bench_quantity(*d, q),
{
    match q {
        BenchQuantity::Pages => d.page_count as u128,
        BenchQuantity::ArtifactBytes => d.artifact_bytes as u128,
        BenchQuantity::AllocatedBytes => d.allocated_bytes as u128,
        BenchQuantity::TextOutputBytes => d.text_output_bytes as u128,
        BenchQuantity::TextOutputLines => d.text_output_line_count as u128,
        BenchQuantity::TextOutputWords => d.text_output_word_count as u128,
        BenchQuantity::EmptyTextOutputDocuments => if d.empty_text_output {
            1
        } else {
            0
        },
        BenchQuantity::EmptyTextOutputPages => d.empty_text_output_pages as u128,
        BenchQuantity::FallbackPages => d.fallback_pages as u128,
        BenchQuantity::OcrPages => d.ocr_pages as u128,
        BenchQuantity::OcrRequiredPages => d.ocr_required_pages as u128,
        BenchQuantity::OcrAppliedPages => d.ocr_applied_pages as u128,
        BenchQuantity::ImageArtifacts => d.image_artifact_count as u128,
        BenchQuantity::ImageArtifactPages => d.image_artifact_pages as u128,
        BenchQuantity::Warnings => d.warnings_count as u128,
        BenchQuantity::CacheHits => if d.cache == ArtifactCacheOutcome::Hit {
            1
        } else {
            0
        },
        BenchQuantity::CacheMisses => if d.cache == ArtifactCacheOutcome::Miss {
            1
        } else {
            0
        },
    }
}

/// A quantity added up over some documents.
pub open spec fn bench_total(docs: Seq<CorpusBenchDocumentSummary>, q: BenchQuantity) -> nat
    decreases docs.len(),
{
    if docs.len() == 0 {
        0
    } else {
        bench_total(docs.drop_last(), q) + bench_quantity(docs.last(), q)
    }
}

proof fn lemma_bench_total_prefix(docs: Seq<CorpusBenchDocumentSummary>, q: BenchQuantity, i: int)
    requires
        0 <= i <= docs.len(),
    ensures
        bench_total(docs.take(i), q) <= bench_total(docs, q),
    decreases docs.len() - i,
{
    if i < docs.len() {
        lemma_bench_total_prefix(docs, q, i + 1);
        assert(docs.take(i + 1).drop_last() =~= docs.take(i));
    } else {
        assert(docs.take(i) =~= docs);
    }
}

/// Adds up a quantity over the documents.
pub fn bench_sum(docs: &Vec<CorpusBenchDocumentSummary>, q: BenchQuantity) -> (n: u128)
    requires
        bench_total(docs@, q) <= u128::MAX,
    ensures
        n == bench_total(docs@, q),
{
    let mut total: u128 = 0;
    let mut i: usize = 0;
    while i < docs.len()
        invariant
            i <= docs@.len(),
            total == bench_total(docs@.take(i as int), q),
            bench_total(docs@, q) <= u128::MAX,
        decreases docs@.len() - i,
    {
        proof {
            assert(docs@.take(i + 1).drop_last() =~= docs@.take(i as int));
            lemma_bench_total_prefix(docs@, q, i + 1);
        }
        total = total + quantity(&docs[i], q);
        i += 1;
    }
    proof {
        assert(docs@.take(docs@.len() as int) =~= docs@);
    }
    total
}

/// The largest resident set of some documents; zero for none.
pub open spec fn peak_rss(docs: Seq<CorpusBenchDocumentSummary>) -> u64
    decreases docs.len(),
{
    if docs.len() == 0 {
        0
    } else {
        let m = peak_rss(docs.drop_last());
        if docs.last().peak_rss_bytes > m {
            docs.last().peak_rss_bytes
        } else {
            m
        }
    }
}

/// Each warning with the path of its document, document after document.
pub open spec fn warning_pairs(docs: Seq<CorpusBenchDocumentSummary>) -> Seq<(Seq<char>, Seq<char>)>
    decreases docs.len(),
{
    if docs.len() == 0 {
        seq![]
    } else {
        warning_pairs(docs.drop_last()) + docs.last().warnings@.map_values(
            |w: String| (docs.last().path@, w@),
        )
    }
}

/// A warning of a document of the corpus.
pub struct CorpusWarningSample {
    pub path: String,
    pub warning: String,
}

pub open spec fn sample_view(s: CorpusWarningSample) -> (Seq<char>, Seq<char>) {
    (s.path@, s.warning@)
}

/// The largest number of warning samples a corpus report lists.
pub const MAX_WARNING_SAMPLES: usize = 10;

/// The first warnings of the corpus, at most `MAX_WARNING_SAMPLES`.
pub fn corpus_warning_samples(docs: &Vec<CorpusBenchDocumentSummary>) -> (r: Vec<CorpusWarningSample>)
    ensures
        r@.map_values(|s: CorpusWarningSample| sample_view(s)) == warning_pairs(docs@).take(
            if warning_pairs(docs@).len() <= MAX_WARNING_SAMPLES {
                warning_pairs(docs@).len() as int
            } else {
                MAX_WARNING_SAMPLES as int
            },
        ),
{
    let ghost all = warning_pairs(docs@);
    let mut out: Vec<CorpusWarningSample> = Vec::new();
    let mut i: usize = 0;
    while i < docs.len() && out.len() < MAX_WARNING_SAMPLES
        invariant
            i <= docs@.len(),
            out@.len() <= MAX_WARNING_SAMPLES,
            all == warning_pairs(docs@),
            out@.map_values(|s: CorpusWarningSample| sample_view(s)) == (if warning_pairs(
                docs@.take(i as int),
            ).len() <= MAX_WARNING_SAMPLES {
                warning_pairs(docs@.take(i as int))
            } else {
                warning_pairs(docs@.take(i as int)).take(MAX_WARNING_SAMPLES as int)
            }),
            out@.len() < MAX_WARNING_SAMPLES ==> warning_pairs(docs@.take(i as int)).len()
                == out@.len(),
        decreases docs@.len() - i,
    {
        proof {
            assert(docs@.take(i + 1).drop_last() =~= docs@.take(i as int));
            assert(docs@.take(i + 1).last() == docs@[i as int]);
        }
        let d = &docs[i];
        let ghost before = out@.map_values(|s: CorpusWarningSample| sample_view(s));
        let ghost pairs = d.warnings@.map_values(|w: String| (d.path@, w@));
        let mut j: usize = 0;
        while j < d.warnings.len() && out.len() < MAX_WARNING_SAMPLES
            invariant
                j <= d.warnings@.len(),
                before.len() < MAX_WARNING_SAMPLES,
                out@.len() <= MAX_WARNING_SAMPLES,
                pairs == d.warnings@.map_values(|w: String| (d.path@, w@)),
                out@.map_values(|s: CorpusWarningSample| sample_view(s)) == before + pairs.take(
                    j as int,
                ),
            decreases d.warnings@.len() - j,
        {
            let sample = CorpusWarningSample {
                path: copy_string(&d.path),
                warning: copy_string(&d.warnings[j]),
            };
            let ghost prev = out@;
            out.push(sample);
            proof {
                assert(out@.map_values(|s: CorpusWarningSample| sample_view(s)) =~= prev.map_values(
                    |s: CorpusWarningSample| sample_view(s),
                ).push(sample_view(sample)));
                assert(pairs.take(j + 1) =~= pairs.take(j as int).push(pairs[j as int]));
            }
            j += 1;
        }
        proof {
            let whole = warning_pairs(docs@.take(i + 1));
            assert(whole == warning_pairs(docs@.take(i as int)) + pairs);
            if out@.len() < MAX_WARNING_SAMPLES {
                assert(j == d.warnings@.len());
                assert(pairs.take(j as int) =~= pairs);
            } else {
                assert(whole.take(MAX_WARNING_SAMPLES as int) =~= before + pairs.take(j as int));
            }
        }
        i += 1;
    }
    proof {
        if out@.len() < MAX_WARNING_SAMPLES {
            assert(i == docs@.len());
            assert(docs@.take(i as int) =~= docs@);
        } else {
            lemma_warning_pairs_prefix(docs@, i as int);
            let pre = warning_pairs(docs@.take(i as int));
            assert(pre.len() >= MAX_WARNING_SAMPLES);
            assert(all.take(MAX_WARNING_SAMPLES as int) =~= pre.take(MAX_WARNING_SAMPLES as int));
        }
    }
    out
}

proof fn lemma_warning_pairs_prefix(docs: Seq<CorpusBenchDocumentSummary>, i: int)
    requires
        0 <= i <= docs.len(),
    ensures
        warning_pairs(docs.take(i)).len() <= warning_pairs(docs).len(),
        forall|k: int| 0 <= k < warning_pairs(docs.take(i)).len() ==> #[trigger] warning_pairs(docs.take(i))[k]
            == warning_pairs(docs)[k],
    decreases docs.len() - i,
{
    if i < docs.len() {
        lemma_warning_pairs_prefix(docs, i + 1);
        assert(docs.take(i + 1).drop_last() =~= docs.take(i));
        let a = warning_pairs(docs.take(i));
        let b = warning_pairs(docs.take(i + 1));
        assert forall|k: int| 0 <= k < a.len() implies #[trigger] a[k] == warning_pairs(docs)[k] by {
            assert(b[k] == a[k]);
        }
    } else {
        assert(docs.take(i) =~= docs);
    }
}

/// The stage timings of some documents added up.
pub open spec fn stage_sum(docs: Seq<CorpusBenchDocumentSummary>) -> BenchStageTimings
    decreases docs.len(),
{
    if docs.len() == 0 {
        BenchStageTimings {
            open_us: 0,
            classify_us: 0,
            native_extract_us: 0,
            layout_us: 0,
            table_us: 0,
            render_us: 0,
            ocr_us: 0,
            merge_us: 0,
            total_us: 0,
        }
    } else {
        stage_sum(docs.drop_last()).plus(docs.last().stage_timings_us)
    }
}

/// The route-reason counts of some documents merged.
pub open spec fn reason_sum(docs: Seq<CorpusBenchDocumentSummary>) -> Map<Seq<char>, u32>
    decreases docs.len(),
{
    if docs.len() == 0 {
        Map::empty()
    } else {
        merged_counts(reason_sum(docs.drop_last()), docs.last().route_reason_counts.as_map())
    }
}

pub open spec fn route_counts_of(docs: Seq<CorpusBenchDocumentSummary>) -> Seq<RouteCounts> {
    docs.map_values(|d: CorpusBenchDocumentSummary| d.route_counts)
}

pub open spec fn quality_flag_counts_of(docs: Seq<CorpusBenchDocumentSummary>) -> Seq<QualityFlagCounts> {
    docs.map_values(|d: CorpusBenchDocumentSummary| d.quality_flag_counts)
}

pub open spec fn fallback_counts_of(docs: Seq<CorpusBenchDocumentSummary>) -> Seq<FallbackActionCounts> {
    docs.map_values(|d: CorpusBenchDocumentSummary| d.fallback_action_counts)
}

/// The largest value each total may reach: that of the field it goes in.
pub open spec fn bench_bound(q: BenchQuantity) -> nat {
    match q {
        BenchQuantity::Pages | BenchQuantity::TextOutputLines | BenchQuantity::TextOutputWords
        | BenchQuantity::EmptyTextOutputDocuments | BenchQuantity::EmptyTextOutputPages
        | BenchQuantity::Warnings => usize::MAX as nat,
        BenchQuantity::ArtifactBytes | BenchQuantity::AllocatedBytes
        | BenchQuantity::TextOutputBytes => u64::MAX as nat,
        _ => u32::MAX as nat,
    }
}

/// Adding a document's stage timings to those before it does not overflow.
pub open spec fn stage_step_fits(docs: Seq<CorpusBenchDocumentSummary>, i: int) -> bool {
    stage_sum(docs.take(i)).can_add(docs[i].stage_timings_us)
}

/// Merging a document's route-reason counts into those before it does not
/// overflow.
pub open spec fn reason_step_fits(docs: Seq<CorpusBenchDocumentSummary>, i: int) -> bool {
    docs[i].route_reason_counts.wf() && can_merge(reason_sum(docs.take(i)), docs[i].route_reason_counts.as_map())
}

/// Every total of a corpus fits its field.
pub open spec fn corpus_totals_fit(docs: Seq<CorpusBenchDocumentSummary>) -> bool {
    &&& forall|q: BenchQuantity| #[trigger] bench_total(docs, q) <= bench_bound(q)
    &&& forall|i: int| 0 <= i < docs.len() ==> #[trigger] stage_step_fits(docs, i)
    &&& forall|i: int| 0 <= i < docs.len() ==> #[trigger] reason_step_fits(docs, i)
    &&& forall|i: int| 0 <= i < docs.len() ==> #[trigger] route_step_fits(route_counts_of(docs), i)
    &&& forall|i: int| 0 <= i < docs.len() ==> #[trigger] quality_flag_step_fits(quality_flag_counts_of(docs), i)
    &&& forall|i: int| 0 <= i < docs.len() ==> #[trigger] fallback_step_fits(fallback_counts_of(docs), i)
}

/// The totals of a corpus benchmark.
pub struct CorpusBenchTotals {
    pub document_count: usize,
    pub page_count: usize,
    pub artifact_bytes: u64,
    pub allocated_bytes: u64,
    pub text_output_bytes: u64,
    pub text_output_line_count: usize,
    pub text_output_word_count: usize,
    pub empty_text_output_documents: usize,
    pub empty_text_output_pages: usize,
    pub peak_rss_bytes: u64,
    pub fallback_pages: u32,
    pub ocr_pages: u32,
    pub ocr_required_pages: u32,
    pub ocr_applied_pages: u32,
    pub image_artifact_count: u32,
    pub image_artifact_pages: u32,
    pub warnings_count: usize,
    pub cache_hits: u32,
    pub cache_misses: u32,
    pub route_counts: RouteCounts,
    pub route_reason_counts: CountMap<u32>,
    pub quality_flag_counts: QualityFlagCounts,
    pub fallback_action_counts: FallbackActionCounts,
    pub stage_timings_us: BenchStageTimings,
}

fn peak_rss_exec(docs: &Vec<CorpusBenchDocumentSummary>) -> (m: u64)
    ensures
        m == peak_rss(docs@),
{
    let mut m: u64 = 0;
    let mut i: usize = 0;
    while i < docs.len()
        invariant
            i <= docs@.len(),
            m == peak_rss(docs@.take(i as int)),
        decreases docs@.len() - i,
    {
        proof {
            assert(docs@.take(i + 1).drop_last() =~= docs@.take(i as int));
            assert(docs@.take(i + 1).last() == docs@[i as int]);
        }
        if docs[i].peak_rss_bytes > m {
            m = docs[i].peak_rss_bytes;
        }
        i += 1;
    }
    proof {
        assert(docs@.take(docs@.len() as int) =~= docs@);
    }
    m
}

fn stage_sum_exec(docs: &Vec<CorpusBenchDocumentSummary>) -> (t: BenchStageTimings)
    requires
        forall|i: int| 0 <= i < docs@.len() ==> #[trigger] stage_step_fits(docs@, i),
    ensures
        t == stage_sum(docs@),
{
    let mut t = BenchStageTimings {
        open_us: 0,
        classify_us: 0,
        native_extract_us: 0,
        layout_us: 0,
        table_us: 0,
        render_us: 0,
        ocr_us: 0,
        merge_us: 0,
        total_us: 0,
    };
    let mut i: usize = 0;
    while i < docs.len()
        invariant
            i <= docs@.len(),
            forall|k: int| 0 <= k < docs@.len() ==> #[trigger] stage_step_fits(docs@, k),
            t == stage_sum(docs@.take(i as int)),
        decreases docs@.len() - i,
    {
        proof {
            assert(docs@.take(i + 1).drop_last() =~= docs@.take(i as int));
            assert(docs@.take(i + 1).last() == docs@[i as int]);
            assert(stage_step_fits(docs@, i as int));
        }
        t.add(docs[i].stage_timings_us);
        i += 1;
    }
    proof {
        assert(docs@.take(docs@.len() as int) =~= docs@);
    }
    t
}

fn reason_sum_exec(docs: &Vec<CorpusBenchDocumentSummary>) -> (m: CountMap<u32>)
    requires
        forall|i: int| 0 <= i < docs@.len() ==> #[trigger] reason_step_fits(docs@, i),
    ensures
        m.wf(),
        m.as_map() == reason_sum(docs@),
{
    let mut m: CountMap<u32> = CountMap::new();
    let mut i: usize = 0;
    proof {
        assert(m.as_map() =~= reason_sum(docs@.take(0)));
    }
    while i < docs.len()
        invariant
            i <= docs@.len(),
            forall|k: int| 0 <= k < docs@.len() ==> #[trigger] reason_step_fits(docs@, k),
            m.wf(),
            m.as_map() == reason_sum(docs@.take(i as int)),
        decreases docs@.len() - i,
    {
        proof {
            assert(docs@.take(i + 1).drop_last() =~= docs@.take(i as int));
            assert(docs@.take(i + 1).last() == docs@[i as int]);
            assert(reason_step_fits(docs@, i as int));
        }
        add_reason_counts(&mut m, &docs[i].route_reason_counts);
        i += 1;
    }
    proof {
        assert(docs@.take(docs@.len() as int) =~= docs@);
    }
    m
}

fn route_counts_vec(docs: &Vec<CorpusBenchDocumentSummary>) -> (v: Vec<RouteCounts>)
    ensures
        v@ == route_counts_of(docs@),
{
    let mut v: Vec<RouteCounts> = Vec::new();
    let mut i: usize = 0;
    while i < docs.len()
        invariant
            i <= docs@.len(),
            v@ == route_counts_of(docs@.take(i as int)),
        decreases docs@.len() - i,
    {
        v.push(docs[i].route_counts);
        i += 1;
        assert(v@ =~= route_counts_of(docs@.take(i as int)));
    }
    assert(docs@.take(docs@.len() as int) =~= docs@);
    v
}

fn quality_flag_counts_vec(docs: &Vec<CorpusBenchDocumentSummary>) -> (v: Vec<QualityFlagCounts>)
    ensures
        v@ == quality_flag_counts_of(docs@),
{
    let mut v: Vec<QualityFlagCounts> = Vec::new();
    let mut i: usize = 0;
    while i < docs.len()
        invariant
            i <= docs@.len(),
            v@ == quality_flag_counts_of(docs@.take(i as int)),
        decreases docs@.len() - i,
    {
        v.push(docs[i].quality_flag_counts);
        i += 1;
        assert(v@ =~= quality_flag_counts_of(docs@.take(i as int)));
    }
    assert(docs@.take(docs@.len() as int) =~= docs@);
    v
}

fn fallback_counts_vec(docs: &Vec<CorpusBenchDocumentSummary>) -> (v: Vec<FallbackActionCounts>)
    ensures
        v@ == fallback_counts_of(docs@),
{
    let mut v: Vec<FallbackActionCounts> = Vec::new();
    let mut i: usize = 0;
    while i < docs.len()
        invariant
            i <= docs@.len(),
            v@ == fallback_counts_of(docs@.take(i as int)),
        decreases docs@.len() - i,
    {
        v.push(docs[i].fallback_action_counts);
        i += 1;
        assert(v@ =~= fallback_counts_of(docs@.take(i as int)));
    }
    assert(docs@.take(docs@.len() as int) =~= docs@);
    v
}

/// Adds up the documents of a corpus benchmark.
pub fn corpus_bench_totals(docs: &Vec<CorpusBenchDocumentSummary>) -> (t: CorpusBenchTotals)
    requires
        corpus_totals_fit(docs@),
    ensures
        t.document_count == docs@.len(),
        t.page_count == bench_total(docs@, BenchQuantity::Pages),
        t.artifact_bytes == bench_total(docs@, BenchQuantity::ArtifactBytes),
        t.allocated_bytes == bench_total(docs@, BenchQuantity::AllocatedBytes),
        t.text_output_bytes == bench_total(docs@, BenchQuantity::TextOutputBytes),
        t.text_output_line_count == bench_total(docs@, BenchQuantity::TextOutputLines),
        t.text_output_word_count == bench_total(docs@, BenchQuantity::TextOutputWords),
        t.empty_text_output_documents == bench_total(docs@, BenchQuantity::EmptyTextOutputDocuments),
        t.empty_text_output_pages == bench_total(docs@, BenchQuantity::EmptyTextOutputPages),
        t.peak_rss_bytes == peak_rss(docs@),
        t.fallback_pages == bench_total(docs@, BenchQuantity::FallbackPages),
        t.ocr_pages == bench_total(docs@, BenchQuantity::OcrPages),
        t.ocr_required_pages == bench_total(docs@, BenchQuantity::OcrRequiredPages),
        t.ocr_applied_pages == bench_total(docs@, BenchQuantity::OcrAppliedPages),
        t.image_artifact_count == bench_total(docs@, BenchQuantity::ImageArtifacts),
        t.image_artifact_pages == bench_total(docs@, BenchQuantity::ImageArtifactPages),
        t.warnings_count == bench_total(docs@, BenchQuantity::Warnings),
        t.cache_hits == bench_total(docs@, BenchQuantity::CacheHits),
        t.cache_misses == bench_total(docs@, BenchQuantity::CacheMisses),
        t.route_counts == route_total(route_counts_of(docs@)),
        t.route_reason_counts.wf(),
        t.route_reason_counts.as_map() == reason_sum(docs@),
        t.quality_flag_counts == quality_flag_total(quality_flag_counts_of(docs@)),
        t.fallback_action_counts == fallback_total(fallback_counts_of(docs@)),
        t.stage_timings_us == stage_sum(docs@),
{
    proof {
        assert(bench_total(docs@, BenchQuantity::Pages) <= bench_bound(BenchQuantity::Pages));
        assert(bench_total(docs@, BenchQuantity::ArtifactBytes) <= bench_bound(BenchQuantity::ArtifactBytes));
        assert(bench_total(docs@, BenchQuantity::AllocatedBytes) <= bench_bound(BenchQuantity::AllocatedBytes));
        assert(bench_total(docs@, BenchQuantity::TextOutputBytes) <= bench_bound(BenchQuantity::TextOutputBytes));
        assert(bench_total(docs@, BenchQuantity::TextOutputLines) <= bench_bound(BenchQuantity::TextOutputLines));
        assert(bench_total(docs@, BenchQuantity::TextOutputWords) <= bench_bound(BenchQuantity::TextOutputWords));
        assert(bench_total(docs@, BenchQuantity::EmptyTextOutputDocuments) <= bench_bound(
            BenchQuantity::EmptyTextOutputDocuments,
        ));
        assert(bench_total(docs@, BenchQuantity::EmptyTextOutputPages) <= bench_bound(
            BenchQuantity::EmptyTextOutputPages,
        ));
        assert(bench_total(docs@, BenchQuantity::FallbackPages) <= bench_bound(BenchQuantity::FallbackPages));
        assert(bench_total(docs@, BenchQuantity::OcrPages) <= bench_bound(BenchQuantity::OcrPages));
        assert(bench_total(docs@, BenchQuantity::OcrRequiredPages) <= bench_bound(BenchQuantity::OcrRequiredPages));
        assert(bench_total(docs@, BenchQuantity::OcrAppliedPages) <= bench_bound(BenchQuantity::OcrAppliedPages));
        assert(bench_total(docs@, BenchQuantity::ImageArtifacts) <= bench_bound(BenchQuantity::ImageArtifacts));
        assert(bench_total(docs@, BenchQuantity::ImageArtifactPages) <= bench_bound(
            BenchQuantity::ImageArtifactPages,
        ));
        assert(bench_total(docs@, BenchQuantity::Warnings) <= bench_bound(BenchQuantity::Warnings));
        assert(bench_total(docs@, BenchQuantity::CacheHits) <= bench_bound(BenchQuantity::CacheHits));
        assert(bench_total(docs@, BenchQuantity::CacheMisses) <= bench_bound(BenchQuantity::CacheMisses));
    }
    let routes = route_counts_vec(docs);
    let flags = quality_flag_counts_vec(docs);
    let fallbacks = fallback_counts_vec(docs);
    CorpusBenchTotals {
        document_count: docs.len(),
        page_count: bench_sum(docs, BenchQuantity::Pages) as usize,
        artifact_bytes: bench_sum(docs, BenchQuantity::ArtifactBytes) as u64,
        allocated_bytes: bench_sum(docs, BenchQuantity::AllocatedBytes) as u64,
        text_output_bytes: bench_sum(docs, BenchQuantity::TextOutputBytes) as u64,
        text_output_line_count: bench_sum(docs, BenchQuantity::TextOutputLines) as usize,
        text_output_word_count: bench_sum(docs, BenchQuantity::TextOutputWords) as usize,
        empty_text_output_documents: bench_sum(docs, BenchQuantity::EmptyTextOutputDocuments) as usize,
        empty_text_output_pages: bench_sum(docs, BenchQuantity::EmptyTextOutputPages) as usize,
        peak_rss_bytes: peak_rss_exec(docs),
        fallback_pages: bench_sum(docs, BenchQuantity::FallbackPages) as u32,
        ocr_pages: bench_sum(docs, BenchQuantity::OcrPages) as u32,
        ocr_required_pages: bench_sum(docs, BenchQuantity::OcrRequiredPages) as u32,
        ocr_applied_pages: bench_sum(docs, BenchQuantity::OcrAppliedPages) as u32,
        image_artifact_count: bench_sum(docs, BenchQuantity::ImageArtifacts) as u32,
        image_artifact_pages: bench_sum(docs, BenchQuantity::ImageArtifactPages) as u32,
        warnings_count: bench_sum(docs, BenchQuantity::Warnings) as usize,
        cache_hits: bench_sum(docs, BenchQuantity::CacheHits) as u32,
        cache_misses: bench_sum(docs, BenchQuantity::CacheMisses) as u32,
        route_counts: sum_route_counts(&routes),
        route_reason_counts: reason_sum_exec(docs),
        quality_flag_counts: sum_quality_flag_counts(&flags),
        fallback_action_counts: sum_fallback_action_counts(&fallbacks),
        stage_timings_us: stage_sum_exec(docs),
    }
}

// ---------------------------------------------------------------------------
// Category summaries
// ---------------------------------------------------------------------------

/// An evaluated document as the benchmark's category summaries read it.
pub struct EvaluatedDocumentRef {
    pub document_fingerprint: String,
    pub category: Option<String>,
    pub failed_checks: u32,
}

/// The last evaluated document with the fingerprint (later entries win, as
/// in a map keyed by fingerprint).
pub open spec fn last_evaluated(quality: Seq<EvaluatedDocumentRef>, fingerprint: Seq<char>) -> Option<int>
    decreases quality.len(),
{
    if quality.len() == 0 {
        None
    } else if quality.last().document_fingerprint@ == fingerprint {
        Some(quality.len() - 1)
    } else {
        last_evaluated(quality.drop_last(), fingerprint)
    }
}

proof fn lemma_last_evaluated_bounds(quality: Seq<EvaluatedDocumentRef>, fingerprint: Seq<char>)
    ensures
        last_evaluated(quality, fingerprint) matches Some(i) ==> 0 <= i < quality.len()
            && quality[i].document_fingerprint@ == fingerprint,
    decreases quality.len(),
{
    if quality.len() > 0 && quality.last().document_fingerprint@ != fingerprint {
        lemma_last_evaluated_bounds(quality.drop_last(), fingerprint);
    }
}

fn find_evaluated(quality: &Vec<EvaluatedDocumentRef>, fingerprint: &str) -> (r: Option<usize>)
    ensures
        match r {
            Some(i) => last_evaluated(quality@, fingerprint@) == Some(i as int),
            None => last_evaluated(quality@, fingerprint@) is None,
        },
{
    let mut i: usize = quality.len();
    proof {
        assert(quality@.take(i as int) =~= quality@);
    }
    while i > 0
        invariant
            i <= quality@.len(),
            last_evaluated(quality@, fingerprint@) == last_evaluated(quality@.take(i as int), fingerprint@),
        decreases i,
    {
        let ghost pre = quality@.take(i as int);
        proof {
            assert(pre.drop_last() =~= quality@.take(i - 1));
            assert(pre.last() == quality@[i - 1]);
        }
        if str_eq(quality[i - 1].document_fingerprint.as_str(), fingerprint) {
            return Some(i - 1);
        }
        i -= 1;
    }
    None
}

/// The category a benchmark summary files an evaluated document under.
pub open spec fn evaluated_category(q: EvaluatedDocumentRef) -> Seq<char> {
    match q.category {
        Some(c) => c@,
        None => "uncategorized"@,
    }
}

/// What the benchmarked documents of one category add up to.
#[derive(Clone, Copy, PartialEq, Eq, Structural, Debug)]
pub struct CorpusBenchmarkCategorySummary {
    pub document_count: usize,
    pub page_count: usize,
    pub wall_us: u128,
    pub fallback_pages: u32,
    pub ocr_required_pages: u32,
    pub ocr_applied_pages: u32,
    pub route_counts: RouteCounts,
    pub quality_flag_counts: QualityFlagCounts,
    pub warnings_count: usize,
    pub failed_checks: u32,
    pub quality_passed: bool,
    pub quality_failed: bool,
}

pub open spec fn empty_category_summary() -> CorpusBenchmarkCategorySummary {
    CorpusBenchmarkCategorySummary {
        document_count: 0,
        page_count: 0,
        wall_us: 0,
        fallback_pages: 0,
        ocr_required_pages: 0,
        ocr_applied_pages: 0,
        route_counts: RouteCounts { native_fast_path: 0, needs_fallback: 0, ocr_fallback: 0, unsupported: 0 },
        quality_flag_counts: QualityFlagCounts {
            requires_ocr: 0,
            low_confidence_text: 0,
            broken_encoding: 0,
            layout_uncertain: 0,
            table_uncertain: 0,
            unsupported_feature: 0,
        },
        warnings_count: 0,
        failed_checks: 0,
        quality_passed: false,
        quality_failed: false,
    }
}

/// Whether a document and its failed checks can be added to a summary.
pub open spec fn can_add_document(s: CorpusBenchmarkCategorySummary, d: CorpusBenchDocumentSummary, failed: u32) -> bool {
    &&& s.document_count + 1 <= usize::MAX
    &&& s.page_count + d.page_count <= usize::MAX
    &&& s.wall_us + d.wall_us <= u128::MAX
    &&& s.fallback_pages + d.fallback_pages <= u32::MAX
    &&& s.ocr_required_pages + d.ocr_required_pages <= u32::MAX
    &&& s.ocr_applied_pages + d.ocr_applied_pages <= u32::MAX
    &&& s.route_counts.can_add(d.route_counts)
    &&& s.quality_flag_counts.can_add(d.quality_flag_counts)
    &&& s.warnings_count + d.warnings_count <= usize::MAX
    &&& s.failed_checks + failed <= u32::MAX
}

/// A summary with a document and its failed checks added; the category
/// passes while none of its checks failed.
pub open spec fn with_document(s: CorpusBenchmarkCategorySummary, d: CorpusBenchDocumentSummary, failed: u32) -> CorpusBenchmarkCategorySummary {
    let failed_checks = (s.failed_checks + failed) as u32;
    CorpusBenchmarkCategorySummary {
        document_count: (s.document_count + 1) as usize,
        page_count: (s.page_count + d.page_count) as usize,
        wall_us: (s.wall_us + d.wall_us) as u128,
        fallback_pages: (s.fallback_pages + d.fallback_pages) as u32,
        ocr_required_pages: (s.ocr_required_pages + d.ocr_required_pages) as u32,
        ocr_applied_pages: (s.ocr_applied_pages + d.ocr_applied_pages) as u32,
        route_counts: s.route_counts.plus(d.route_counts),
        quality_flag_counts: s.quality_flag_counts.plus(d.quality_flag_counts),
        warnings_count: (s.warnings_count + d.warnings_count) as usize,
        failed_checks,
        quality_passed: failed_checks == 0,
        quality_failed: failed_checks != 0,
    }
}

/// The category summaries of the benchmarked documents that were evaluated,
/// each matched to its evaluation by fingerprint.
pub open spec fn category_tally(docs: Seq<CorpusBenchDocumentSummary>, quality: Seq<EvaluatedDocumentRef>) -> Map<
    Seq<char>,
    CorpusBenchmarkCategorySummary,
>
    decreases docs.len(),
{
    if docs.len() == 0 {
        Map::empty()
    } else {
        let prev = category_tally(docs.drop_last(), quality);
        let d = docs.last();
        match last_evaluated(quality, d.document_fingerprint@) {
            Some(i) => {
                let k = evaluated_category(quality[i]);
                let cur = if prev.dom().contains(k) {
                    prev[k]
                } else {
                    empty_category_summary()
                };
                prev.insert(k, with_document(cur, d, quality[i].failed_checks))
            },
            None => prev,
        }
    }
}

/// Adding the document at `i` to the summary of its category so far does
/// not overflow.
pub open spec fn tally_step_fits(docs: Seq<CorpusBenchDocumentSummary>, quality: Seq<EvaluatedDocumentRef>, i: int) -> bool {
    match last_evaluated(quality, docs[i].document_fingerprint@) {
        Some(j) => {
            let prev = category_tally(docs.take(i), quality);
            let k = evaluated_category(quality[j]);
            can_add_document(
                if prev.dom().contains(k) {
                    prev[k]
                } else {
                    empty_category_summary()
                },
                docs[i],
                quality[j].failed_checks,
            )
        },
        None => true,
    }
}

fn category_key_of(q: &EvaluatedDocumentRef) -> (k: String)
    ensures
        k@ == evaluated_category(*q),
{
    match &q.category {
        Some(c) => copy_string(c),
        None => String::from_str("uncategorized"),
    }
}

/// The benchmark's summaries by category, of the documents that were
/// evaluated.
pub fn benchmark_category_summaries(
    docs: &Vec<CorpusBenchDocumentSummary>,
    quality: &Vec<EvaluatedDocumentRef>,
) -> (r: CountMap<CorpusBenchmarkCategorySummary>)
    requires
        forall|i: int| 0 <= i < docs@.len() ==> #[trigger] tally_step_fits(docs@, quality@, i),
    ensures
        r.wf(),
        r.as_map() == category_tally(docs@, quality@),
{
    let mut summaries: CountMap<CorpusBenchmarkCategorySummary> = CountMap::new();
    proof {
        assert(summaries.as_map() =~= category_tally(docs@.take(0), quality@));
    }
    let mut i: usize = 0;
    while i < docs.len()
        invariant
            i <= docs@.len(),
            forall|k: int| 0 <= k < docs@.len() ==> #[trigger] tally_step_fits(docs@, quality@, k),
            summaries.wf(),
            summaries.as_map() == category_tally(docs@.take(i as int), quality@),
        decreases docs@.len() - i,
    {
        let ghost pre = docs@.take(i as int);
        proof {
            assert(docs@.take(i + 1).drop_last() =~= pre);
            assert(docs@.take(i + 1).last() == docs@[i as int]);
            assert(tally_step_fits(docs@, quality@, i as int));
            lemma_last_evaluated_bounds(quality@, docs@[i as int].document_fingerprint@);
        }
        let d = &docs[i];
        match find_evaluated(quality, d.document_fingerprint.as_str()) {
            Some(j) => {
                let q = &quality[j];
                let k = category_key_of(q);
                let cur = match summaries.get(k.as_str()) {
                    Some(s) => s,
                    None => CorpusBenchmarkCategorySummary {
                        document_count: 0,
                        page_count: 0,
                        wall_us: 0,
                        fallback_pages: 0,
                        ocr_required_pages: 0,
                        ocr_applied_pages: 0,
                        route_counts: RouteCounts {
                            native_fast_path: 0,
                            needs_fallback: 0,
                            ocr_fallback: 0,
                            unsupported: 0,
                        },
                        quality_flag_counts: QualityFlagCounts {
                            requires_ocr: 0,
                            low_confidence_text: 0,
                            broken_encoding: 0,
                            layout_uncertain: 0,
                            table_uncertain: 0,
                            unsupported_feature: 0,
                        },
                        warnings_count: 0,
                        failed_checks: 0,
                        quality_passed: false,
                        quality_failed: false,
                    },
                };
                let mut routes = cur.route_counts;
                routes.add(d.route_counts);
                let mut flags = cur.quality_flag_counts;
                flags.add(d.quality_flag_counts);
                let failed_checks = cur.failed_checks + q.failed_checks;
                let next = CorpusBenchmarkCategorySummary {
                    document_count: cur.document_count + 1,
                    page_count: cur.page_count + d.page_count,
                    wall_us: cur.wall_us + d.wall_us,
                    fallback_pages: cur.fallback_pages + d.fallback_pages,
                    ocr_required_pages: cur.ocr_required_pages + d.ocr_required_pages,
                    ocr_applied_pages: cur.ocr_applied_pages + d.ocr_applied_pages,
                    route_counts: routes,
                    quality_flag_counts: flags,
                    warnings_count: cur.warnings_count + d.warnings_count,
                    failed_checks,
                    quality_passed: failed_checks == 0,
                    quality_failed: failed_checks != 0,
                };
                summaries.set(k, next);
            },
            None => {},
        }
        i += 1;
    }
    proof {
        assert(docs@.take(docs@.len() as int) =~= docs@);
    }
    summaries
}

} // verus!
