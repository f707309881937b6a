use glyphrush::countmap::CountMap;
use glyphrush::metrics::{
    add_reason_counts, add_table_summary_counts, layout_summary_matches_expectation,
    page_latency_from_values, speedup_claim_status_label, text_output_metrics_from_text,
    warnings_for_page, BenchStageTimings, BenchmarkSpeedupClaimStatus, DebugLayoutSummary,
    FallbackActionCounts, PageLatencySummary, QualityFlagCounts, RouteCounts,
};

fn s(v: &[&str]) -> Vec<String> {
    v.iter().map(|x| x.to_string()).collect()
}

#[test]
fn counters_add_field_by_field() {
    let mut q = QualityFlagCounts { requires_ocr: 1, low_confidence_text: 2, ..QualityFlagCounts::default() };
    q.add(QualityFlagCounts { requires_ocr: 3, table_uncertain: 1, ..QualityFlagCounts::default() });
    assert_eq!((q.requires_ocr, q.low_confidence_text, q.table_uncertain), (4, 2, 1));
    let mut f = FallbackActionCounts::default();
    f.add(FallbackActionCounts { render_pages: 2, ..FallbackActionCounts::default() });
    assert_eq!(f.render_pages, 2);
    let mut r = RouteCounts { native_fast_path: 5, ..RouteCounts::default() };
    r.add(RouteCounts { native_fast_path: 1, ocr_fallback: 2, ..RouteCounts::default() });
    assert_eq!((r.native_fast_path, r.ocr_fallback, r.unsupported), (6, 2, 0));
    let mut t = BenchStageTimings { total_us: 10, ..BenchStageTimings::default() };
    t.add(BenchStageTimings { total_us: 5, ocr_us: 3, ..BenchStageTimings::default() });
    assert_eq!((t.total_us, t.ocr_us), (15, 3));
}

#[test]
fn reason_counts_merge_key_by_key() {
    let mut target: CountMap<u32> = CountMap::new();
    target.set("a".to_string(), 2);
    target.set("c".to_string(), 1);
    let mut source: CountMap<u32> = CountMap::new();
    source.set("b".to_string(), 4);
    source.set("a".to_string(), 3);
    add_reason_counts(&mut target, &source);
    let got: Vec<(String, u32)> = (0..target.len()).map(|i| (target.key(i).clone(), target.value(i))).collect();
    assert_eq!(got, vec![("a".to_string(), 5), ("b".to_string(), 4), ("c".to_string(), 1)]);
}

#[test]
fn latency_percentiles_use_the_ceiling_index() {
    assert_eq!(page_latency_from_values(vec![]), PageLatencySummary { p50_us: 0, p95_us: 0, max_us: 0 });
    assert_eq!(
        page_latency_from_values(vec![30, 10, 20, 40]),
        PageLatencySummary { p50_us: 30, p95_us: 40, max_us: 40 }
    );
    let values: Vec<u64> = (1..=21).rev().collect();
    assert_eq!(
        page_latency_from_values(values),
        PageLatencySummary { p50_us: 11, p95_us: 20, max_us: 21 }
    );
    assert_eq!(page_latency_from_values(vec![7]), PageLatencySummary { p50_us: 7, p95_us: 7, max_us: 7 });
}

#[test]
fn text_metrics_count_bytes_lines_and_words() {
    let m = text_output_metrics_from_text("é a\nb c\n");
    assert_eq!((m.bytes, m.line_count, m.word_count, m.empty), (9, 2, 4, false));
    let e = text_output_metrics_from_text("");
    assert_eq!((e.bytes, e.line_count, e.word_count, e.empty), (0, 0, 0, true));
}

#[test]
fn claim_status_labels() {
    assert_eq!(speedup_claim_status_label(BenchmarkSpeedupClaimStatus::Passed), "passed");
    assert_eq!(
        speedup_claim_status_label(BenchmarkSpeedupClaimStatus::NotSpeedComparable),
        "not_speed_comparable"
    );
    assert_eq!(speedup_claim_status_label(BenchmarkSpeedupClaimStatus::QualityFailed), "quality_failed");
}

#[test]
fn page_warnings_are_selected_by_prefix() {
    let warnings = s(&["p000003: a", "p000030: b", "p000003:c", "doc: d"]);
    assert_eq!(warnings_for_page(&warnings, 3), s(&["p000003: a", "p000003:c"]));
    assert!(warnings_for_page(&warnings, 7).is_empty());
}

fn layout() -> DebugLayoutSummary {
    DebugLayoutSummary {
        block_count: 3,
        paragraph_blocks: 2,
        heading_blocks: 1,
        list_blocks: 0,
        table_blocks: 0,
        table_rows: None,
        table_cells: None,
        table_cells_with_bbox: None,
        figure_blocks: 0,
        header_blocks: 0,
        footer_blocks: 0,
    }
}

#[test]
fn table_counts_start_at_zero_and_add_up() {
    let mut l = layout();
    add_table_summary_counts(&mut l, 2, 6, 0);
    add_table_summary_counts(&mut l, 1, 3, 3);
    assert_eq!((l.table_rows, l.table_cells, l.table_cells_with_bbox), (Some(3), Some(9), Some(3)));
    assert_eq!(l.block_count, 3);
}

#[test]
fn layout_expectations_compare_counts_and_given_table_figures() {
    let expected = layout();
    let mut actual = layout();
    actual.table_rows = Some(4);
    assert!(layout_summary_matches_expectation(expected, actual));
    let mut wants_rows = layout();
    wants_rows.table_rows = Some(4);
    assert!(layout_summary_matches_expectation(wants_rows, actual));
    assert!(!layout_summary_matches_expectation(wants_rows, expected));
    actual.paragraph_blocks = 1;
    assert!(!layout_summary_matches_expectation(expected, actual));
}
