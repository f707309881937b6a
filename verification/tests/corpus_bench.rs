use glyphrush::corpus_bench::{
    benchmark_category_summaries, corpus_bench_totals, corpus_warning_samples,
    CorpusBenchDocumentSummary, EvaluatedDocumentRef,
};
use glyphrush::countmap::CountMap;
use glyphrush::eval_summary::ArtifactCacheOutcome;
use glyphrush::metrics::{BenchStageTimings, FallbackActionCounts, QualityFlagCounts, RouteCounts};

fn doc(path: &str, pages: usize, warnings: &[&str], cache: ArtifactCacheOutcome, rss: u64) -> CorpusBenchDocumentSummary {
    let mut reasons: CountMap<u32> = CountMap::new();
    reasons.set(String::from("text_layer"), pages as u32);
    CorpusBenchDocumentSummary {
        path: path.to_string(),
        document_fingerprint: format!("fp-{path}"),
        page_count: pages,
        wall_us: 10 * pages as u128,
        artifact_bytes: 100,
        allocated_bytes: 1_000,
        text_output_bytes: 50,
        text_output_line_count: 5,
        text_output_word_count: 20,
        empty_text_output: pages == 0,
        empty_text_output_pages: 0,
        peak_rss_bytes: rss,
        fallback_pages: 1,
        ocr_pages: 0,
        ocr_required_pages: 2,
        ocr_applied_pages: 1,
        image_artifact_count: 3,
        image_artifact_pages: 1,
        warnings: warnings.iter().map(|w| w.to_string()).collect(),
        warnings_count: warnings.len(),
        cache,
        route_counts: RouteCounts {
            native_fast_path: pages as u32,
            needs_fallback: 0,
            ocr_fallback: 1,
            unsupported: 0,
        },
        route_reason_counts: reasons,
        quality_flag_counts: QualityFlagCounts {
            requires_ocr: 1,
            low_confidence_text: 0,
            broken_encoding: 0,
            layout_uncertain: 2,
            table_uncertain: 0,
            unsupported_feature: 0,
        },
        fallback_action_counts: FallbackActionCounts {
            ocr_requested_pages: 1,
            ocr_applied_pages: 1,
            heavy_layout_pages: 0,
            table_recovery_pages: 0,
            render_pages: 0,
        },
        stage_timings_us: BenchStageTimings {
            open_us: 1,
            classify_us: 2,
            native_extract_us: 3,
            layout_us: 4,
            table_us: 5,
            render_us: 6,
            ocr_us: 7,
            merge_us: 8,
            total_us: 36,
        },
    }
}

#[test]
fn corpus_totals_add_up_the_documents() {
    let docs = vec![
        doc("a.pdf", 3, &["w1"], ArtifactCacheOutcome::Hit, 500),
        doc("b.pdf", 0, &[], ArtifactCacheOutcome::Miss, 900),
        doc("c.pdf", 4, &["w2", "w3"], ArtifactCacheOutcome::Hit, 700),
    ];
    let t = corpus_bench_totals(&docs);
    assert_eq!(t.document_count, 3);
    assert_eq!(t.page_count, 7);
    assert_eq!(t.artifact_bytes, 300);
    assert_eq!(t.allocated_bytes, 3_000);
    assert_eq!(t.text_output_word_count, 60);
    assert_eq!(t.empty_text_output_documents, 1);
    assert_eq!(t.peak_rss_bytes, 900);
    assert_eq!(t.ocr_required_pages, 6);
    assert_eq!(t.warnings_count, 3);
    assert_eq!(t.cache_hits, 2);
    assert_eq!(t.cache_misses, 1);
    assert_eq!(t.route_counts.native_fast_path, 7);
    assert_eq!(t.route_counts.ocr_fallback, 3);
    assert_eq!(t.route_reason_counts.get("text_layer"), Some(7));
    assert_eq!(t.quality_flag_counts.layout_uncertain, 6);
    assert_eq!(t.fallback_action_counts.ocr_requested_pages, 3);
    assert_eq!(t.stage_timings_us.total_us, 108);
}

#[test]
fn an_empty_corpus_totals_zero() {
    let t = corpus_bench_totals(&vec![]);
    assert_eq!(t.document_count, 0);
    assert_eq!(t.page_count, 0);
    assert_eq!(t.peak_rss_bytes, 0);
    assert_eq!(t.route_reason_counts.len(), 0);
}

#[test]
fn warning_samples_keep_the_first_ten_in_document_order() {
    let many: Vec<String> = (0..8).map(|i| format!("w{i}")).collect();
    let many_refs: Vec<&str> = many.iter().map(String::as_str).collect();
    let docs = vec![
        doc("a.pdf", 1, &many_refs, ArtifactCacheOutcome::NotCached, 1),
        doc("b.pdf", 1, &["x", "y", "z"], ArtifactCacheOutcome::NotCached, 1),
    ];
    let samples = corpus_warning_samples(&docs);
    assert_eq!(samples.len(), 10);
    assert_eq!(samples[0].path, "a.pdf");
    assert_eq!(samples[7].warning, "w7");
    assert_eq!(samples[8].path, "b.pdf");
    assert_eq!(samples[9].warning, "y");
    let few = corpus_warning_samples(&vec![doc("c.pdf", 1, &["only"], ArtifactCacheOutcome::Hit, 1)]);
    assert_eq!(few.len(), 1);
    assert_eq!(few[0].warning, "only");
}

fn evaluated(path: &str, category: Option<&str>, failed: u32) -> EvaluatedDocumentRef {
    EvaluatedDocumentRef {
        document_fingerprint: format!("fp-{path}"),
        category: category.map(String::from),
        failed_checks: failed,
    }
}

#[test]
fn category_summaries_group_evaluated_documents() {
    let docs = vec![
        doc("a.pdf", 3, &["w1"], ArtifactCacheOutcome::Hit, 500),
        doc("b.pdf", 2, &[], ArtifactCacheOutcome::Miss, 900),
        doc("c.pdf", 4, &["w2", "w3"], ArtifactCacheOutcome::Hit, 700),
        doc("d.pdf", 1, &[], ArtifactCacheOutcome::Hit, 700),
    ];
    let quality = vec![
        evaluated("a.pdf", Some("tables"), 1),
        evaluated("c.pdf", Some("tables"), 0),
        evaluated("b.pdf", None, 0),
        evaluated("a.pdf", Some("tables"), 0),
    ];
    let summaries = benchmark_category_summaries(&docs, &quality);
    assert_eq!(summaries.len(), 2);
    let tables = summaries.get("tables").expect("tables summary");
    assert_eq!(tables.document_count, 2);
    assert_eq!(tables.page_count, 7);
    assert_eq!(tables.wall_us, 70);
    assert_eq!(tables.warnings_count, 3);
    assert_eq!(tables.failed_checks, 0);
    assert!(tables.quality_passed && !tables.quality_failed);
    let other = summaries.get("uncategorized").expect("uncategorized summary");
    assert_eq!(other.document_count, 1);
    assert_eq!(other.route_counts.native_fast_path, 2);
    assert!(summaries.get("missing").is_none());
}
