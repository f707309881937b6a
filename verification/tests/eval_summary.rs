use glyphrush::countmap::CountMap;
use glyphrush::eval_summary::{
    eval_failure_samples, eval_totals, sum_fallback_action_counts, sum_quality_flag_counts,
    sum_route_counts, ArtifactCacheOutcome, EvalDocumentSummary, EvalFailureRef,
};
use glyphrush::metrics::{FallbackActionCounts, QualityFlagCounts, RouteCounts};

fn doc(path: &str, category: Option<&str>, pages: usize, failed: &[&str]) -> EvalDocumentSummary {
    EvalDocumentSummary {
        path: path.to_string(),
        category: category.map(String::from),
        page_count: pages,
        cache: if pages % 2 == 0 { ArtifactCacheOutcome::Hit } else { ArtifactCacheOutcome::Miss },
        fallback_pages: 1,
        ocr_required_pages: 2,
        ocr_applied_pages: 1,
        image_artifact_count: 3,
        image_artifact_pages: 1,
        empty_text_output_pages: 0,
        warnings_count: 2,
        passed: failed.is_empty(),
        failed_checks: failed.iter().map(|s| s.to_string()).collect(),
    }
}

#[test]
fn documents_are_summed_up() {
    let docs = vec![
        doc("a.pdf", Some("tables"), 4, &[]),
        doc("b.pdf", Some("tables"), 3, &["required_text", "text_recall"]),
        doc("c.pdf", None, 5, &["reading_order"]),
    ];
    let t = eval_totals(&docs, Vec::new(), CountMap::new());
    assert_eq!(t.document_count, 3);
    assert_eq!(t.page_count, 12);
    assert_eq!((t.cache_hits, t.cache_misses), (1, 2));
    assert_eq!((t.fallback_pages, t.ocr_required_pages, t.ocr_applied_pages), (3, 6, 3));
    assert_eq!((t.image_artifact_count, t.image_artifact_pages), (9, 3));
    assert_eq!(t.warnings_count, 6);
    assert!(t.category_coverage.is_none());
    assert_eq!(t.failed_checks, 3);
    assert!(!t.passed);
    assert_eq!(t.category_counts.get("tables"), Some(2));
    assert_eq!(t.category_counts.get("uncategorized"), Some(1));
    let tables = t.category_summaries.get("tables").unwrap();
    assert_eq!((tables.document_count, tables.page_count, tables.passed_documents, tables.failed_documents), (2, 7, 1, 1));
    assert_eq!(tables.failed_checks, 2);
    assert!(tables.quality_failed);
    assert_eq!(
        t.failure_samples,
        vec![
            EvalFailureRef::DocumentCheck(1, 0),
            EvalFailureRef::DocumentCheck(1, 1),
            EvalFailureRef::DocumentCheck(2, 0),
        ]
    );
}

#[test]
fn an_empty_manifest_fails() {
    let t = eval_totals(&Vec::new(), Vec::new(), CountMap::new());
    assert_eq!(t.failed_checks, 1);
    assert!(!t.passed);
    assert_eq!(t.failure_samples, vec![EvalFailureRef::DocumentCount]);
}

#[test]
fn missing_required_categories_fail_the_coverage() {
    let docs = vec![doc("a.pdf", Some("tables"), 2, &[])];
    let t = eval_totals(&docs, vec!["forms".to_string(), "tables".to_string()], CountMap::new());
    let c = t.category_coverage.as_ref().unwrap();
    assert_eq!(c.missing, vec!["forms".to_string()]);
    assert!(!c.passed);
    assert_eq!(t.failed_checks, 1);
    assert_eq!(t.failure_samples, vec![EvalFailureRef::RequiredCategories]);

    let mut min = CountMap::new();
    min.set("tables".to_string(), 3usize);
    let t = eval_totals(&docs, Vec::new(), min);
    assert_eq!(t.failure_samples, vec![EvalFailureRef::MinCategoryCounts]);
    let passing = eval_totals(&docs, vec!["tables".to_string()], CountMap::new());
    assert!(passing.passed);
    assert!(passing.failure_samples.is_empty());
}

#[test]
fn at_most_ten_failures_are_sampled() {
    let docs: Vec<EvalDocumentSummary> = (0..4).map(|i| doc(&format!("{i}.pdf"), None, 1, &["a", "b", "c"])).collect();
    let samples = eval_failure_samples(&docs, Some(true));
    assert_eq!(samples.len(), 10);
    assert_eq!(samples[0], EvalFailureRef::RequiredCategories);
    assert_eq!(samples[1], EvalFailureRef::DocumentCheck(0, 0));
    assert_eq!(samples[9], EvalFailureRef::DocumentCheck(2, 2));
}

#[test]
fn per_document_counts_are_added_up() {
    let r = RouteCounts { native_fast_path: 2, needs_fallback: 1, ocr_fallback: 0, unsupported: 1 };
    assert_eq!(
        sum_route_counts(&vec![r, r]),
        RouteCounts { native_fast_path: 4, needs_fallback: 2, ocr_fallback: 0, unsupported: 2 }
    );
    let q = QualityFlagCounts {
        requires_ocr: 1,
        low_confidence_text: 0,
        broken_encoding: 2,
        layout_uncertain: 0,
        table_uncertain: 1,
        unsupported_feature: 0,
    };
    let sum = sum_quality_flag_counts(&vec![q, q, q]);
    assert_eq!((sum.requires_ocr, sum.broken_encoding, sum.table_uncertain), (3, 6, 3));
    let f = FallbackActionCounts {
        ocr_requested_pages: 1,
        ocr_applied_pages: 1,
        heavy_layout_pages: 0,
        table_recovery_pages: 2,
        render_pages: 0,
    };
    assert_eq!(sum_fallback_action_counts(&vec![f]).table_recovery_pages, 2);
    assert_eq!(sum_route_counts(&Vec::new()).native_fast_path, 0);
}
