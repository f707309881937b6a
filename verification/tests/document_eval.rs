use glyphrush::anchors::normalize_required_text_anchor;
use glyphrush::countmap::CountMap;
use glyphrush::document_eval::{
    document_eval, DocumentExpectation, DocumentPage, ObservedDocument, ScoredFlagPages, ScoredTable,
};
use glyphrush::eval_summary::ArtifactCacheOutcome;
use glyphrush::manifest_eval::{
    eval_document_from_artifact, eval_expectations_for_backend, ExpectationLayer, ManifestDocument,
};
use glyphrush::metrics::DebugLayoutSummary;
use glyphrush::page_checks::{ObservedPage, PageExpectation, PageRoute};
use glyphrush::quality_flags::PageQuality;
use glyphrush::smoke::{smoke_check_from_documents, BaselineSmokeDocument};

fn s(v: &[&str]) -> Vec<String> {
    v.iter().map(|x| x.to_string()).collect()
}

fn layout() -> DebugLayoutSummary {
    DebugLayoutSummary {
        block_count: 1,
        paragraph_blocks: 1,
        heading_blocks: 0,
        list_blocks: 0,
        table_blocks: 0,
        table_rows: None,
        table_cells: None,
        table_cells_with_bbox: None,
        figure_blocks: 0,
        header_blocks: 0,
        footer_blocks: 0,
    }
}

fn page(index: u32, text: &str, flags: Vec<PageQuality>) -> DocumentPage {
    DocumentPage {
        index,
        page: ObservedPage {
            artifact_id: format!("doc#p{index}"),
            fingerprint: String::from("fp"),
            route: PageRoute::NativeFastPath,
            reasons: s(&["has_text_layer"]),
            text_empty: text.is_empty(),
            image_artifact_count: 0,
            layout: layout(),
            quality_text: text.to_string(),
            flags,
        },
    }
}

fn observed(backend: &str) -> ObservedDocument {
    ObservedDocument {
        backend: backend.to_string(),
        fingerprint: String::from("doc-fp"),
        source_size_bytes: 1024,
        source_modified_unix_ms: 77,
        pages: vec![
            page(0, "Quarterly revenue grew", vec![]),
            page(1, "by 12 percent", vec![PageQuality::LayoutUncertain]),
        ],
        cache: ArtifactCacheOutcome::Miss,
        fallback_pages: 0,
        ocr_required_pages: 0,
        ocr_applied_pages: 0,
        image_artifact_count: 0,
        image_artifact_pages: 0,
        warnings: s(&["font fallback"]),
        route_counts: glyphrush::metrics::RouteCounts {
            native_fast_path: 2,
            needs_fallback: 0,
            ocr_fallback: 0,
            unsupported: 0,
        },
        route_reason_counts: CountMap::new(),
        quality_flag_counts: glyphrush::metrics::QualityFlagCounts {
            requires_ocr: 0,
            low_confidence_text: 0,
            broken_encoding: 0,
            layout_uncertain: 1,
            table_uncertain: 0,
            unsupported_feature: 0,
        },
    }
}

fn page_expectation(index: u32) -> PageExpectation {
    PageExpectation {
        index,
        artifact_id: None,
        page_fingerprint: None,
        route: Some(PageRoute::NativeFastPath),
        empty_text_output: None,
        image_artifact_count: None,
        layout_block_counts: None,
        required_text: vec![],
        required_flags: vec![],
        required_reasons: vec![],
    }
}

fn expectation() -> DocumentExpectation {
    DocumentExpectation {
        path: String::from("docs/a.pdf"),
        category: Some(String::from("Reports")),
        document_fingerprint: Some(String::from("doc-fp")),
        source_size_bytes: Some(1024),
        source_modified_unix_ms: None,
        page_count: Some(2),
        fallback_pages: Some(0),
        ocr_required_pages: None,
        ocr_applied_pages: None,
        image_artifact_count: None,
        warnings_count: Some(1),
        route_counts: None,
        quality_flag_counts: None,
        route_reason_counts: CountMap::new(),
        required_text: s(&["Quarterly  revenue"]),
        required_warnings: s(&["font fallback"]),
        text_recall_passed: None,
        reading_order_passed: None,
        ocr_required_classification: None,
        silent_failures_max_count: None,
        quality_flag_classification: vec![],
        table_structure: vec![],
        span_bbox_passed: vec![],
        pages: vec![page_expectation(0)],
    }
}

fn names(m: &CountMap<bool>) -> Vec<String> {
    (0..m.len()).map(|i| m.key(i).clone()).collect()
}

#[test]
fn document_passes_when_every_check_passes() {
    let r = document_eval(&expectation(), &observed("lopdf"));
    assert!(r.summary.passed);
    assert!(r.summary.failed_checks.is_empty());
    assert_eq!(
        names(&r.checks),
        s(&[
            "document_fingerprint",
            "fallback_pages",
            "page_000000.route",
            "page_count",
            "required_text",
            "required_warnings",
            "source_size_bytes",
            "warnings_count",
        ])
    );
    assert_eq!(r.summary.path, "docs/a.pdf");
    assert_eq!(r.summary.category.as_deref(), Some("Reports"));
    assert_eq!((r.summary.page_count, r.summary.warnings_count), (2, 1));
    assert_eq!(r.summary.empty_text_output_pages, 0);
}

#[test]
fn failed_checks_are_listed_in_name_order() {
    let mut e = expectation();
    e.page_count = Some(3);
    e.warnings_count = Some(0);
    e.span_bbox_passed = vec![true, false];
    e.table_structure = vec![
        ScoredTable { page: 3, passed: false },
        ScoredTable { page: 3, passed: true },
        ScoredTable { page: 5, passed: false },
    ];
    e.quality_flag_classification = vec![ScoredFlagPages {
        flag: PageQuality::TableUncertain,
        expected_pages: vec![3],
        passed: true,
    }];
    let r = document_eval(&e, &observed("lopdf"));
    assert!(!r.summary.passed);
    assert_eq!(
        r.summary.failed_checks,
        s(&[
            "page_count",
            "span_bbox.000001",
            "table_structure.page_000003.expectation_000000",
            "table_structure.page_000005",
            "warnings_count",
        ])
    );
    assert_eq!(r.checks.get("span_bbox.000000"), Some(true));
    assert_eq!(r.checks.get("table_structure.page_000003.expectation_000001"), Some(true));
    assert_eq!(r.checks.get("quality_flag_classification.table_uncertain"), Some(true));
}

#[test]
fn unannounced_flags_are_silent_failures() {
    let mut e = expectation();
    e.silent_failures_max_count = Some(Some(0));
    let r = document_eval(&e, &observed("lopdf"));
    assert_eq!(r.checks.get("silent_failures"), Some(false));
    let mut announced = page_expectation(1);
    announced.required_flags = vec![PageQuality::LayoutUncertain];
    e.pages.push(announced);
    let r = document_eval(&e, &observed("lopdf"));
    assert_eq!(r.checks.get("silent_failures"), Some(true));
    assert_eq!(r.checks.get("page_000001.required_flags"), Some(true));
    assert!(r.summary.passed);
}

#[test]
fn missing_required_text_fails_the_document() {
    let mut e = expectation();
    e.required_text = s(&["Quarterly revenue", "not on any page"]);
    let r = document_eval(&e, &observed("lopdf"));
    assert_eq!(r.summary.failed_checks, s(&["required_text"]));
}

fn layer(keys: &[&str]) -> ExpectationLayer {
    ExpectationLayer {
        is_object: true,
        keys: s(keys),
        malformed: vec![],
        page_count: None,
        fallback_pages: None,
        ocr_required_pages: None,
        ocr_applied_pages: None,
        image_artifact_count: None,
        warnings_count: None,
        route_counts: None,
        quality_flag_counts: None,
        route_reason_counts: CountMap::new(),
        required_text: vec![],
        required_warnings: vec![],
        text_recall_passed: None,
        reading_order_passed: None,
        ocr_required_classification: None,
        silent_failures_max_count: None,
        quality_flag_classification: vec![],
        table_structure: vec![],
        span_bbox_passed: vec![],
        pages: vec![],
    }
}

fn manifest_document(entry: Option<ExpectationLayer>) -> ManifestDocument {
    let mut base = layer(&["page_count", "required_text"]);
    base.page_count = Some(3);
    base.required_text = s(&["Quarterly revenue"]);
    ManifestDocument {
        path: String::from("a.pdf"),
        category: None,
        document_fingerprint: None,
        source_size_bytes: None,
        source_modified_unix_ms: None,
        expect: base,
        expect_by_backend: match entry {
            Some(l) => vec![(String::from("pdfium"), l)],
            None => vec![],
        },
    }
}

fn pdfium_entry() -> ExpectationLayer {
    let mut l = layer(&["page_count"]);
    l.page_count = Some(2);
    l
}

#[test]
fn backend_entry_replaces_its_keys_only() {
    let e = eval_expectations_for_backend(manifest_document(Some(pdfium_entry())), "pdfium").unwrap();
    assert_eq!(e.page_count, Some(2));
    assert_eq!(e.required_text, s(&["Quarterly revenue"]));
    let e = eval_expectations_for_backend(manifest_document(Some(pdfium_entry())), "lopdf").unwrap();
    assert_eq!(e.page_count, Some(3));
    let mut cleared = layer(&["required_text"]);
    cleared.required_text = vec![];
    let e = eval_expectations_for_backend(manifest_document(Some(cleared)), "pdfium").unwrap();
    assert_eq!(e.page_count, Some(3));
    assert!(e.required_text.is_empty());
}

#[test]
fn expectations_that_are_not_objects_are_refused() {
    let mut m = manifest_document(None);
    m.expect.is_object = false;
    assert_eq!(
        eval_expectations_for_backend(m, "pdfium").err().as_deref(),
        Some("expect for manifest document a.pdf must be a JSON object")
    );
    let mut entry = layer(&[]);
    entry.is_object = false;
    assert_eq!(
        eval_expectations_for_backend(manifest_document(Some(entry)), "pdfium").err().as_deref(),
        Some("expect_by_backend.pdfium for manifest document a.pdf must be a JSON object")
    );
}

#[test]
fn keys_that_do_not_decode_fail_unless_replaced() {
    let mut m = manifest_document(None);
    m.expect.malformed = s(&["page_count"]);
    assert_eq!(
        eval_expectations_for_backend(m, "pdfium").err().as_deref(),
        Some("decode expect plus expect_by_backend.pdfium for manifest document a.pdf")
    );
    let mut m = manifest_document(Some(pdfium_entry()));
    m.expect.malformed = s(&["page_count"]);
    assert_eq!(eval_expectations_for_backend(m, "pdfium").unwrap().page_count, Some(2));
    let mut entry = pdfium_entry();
    entry.malformed = s(&["pages"]);
    assert!(eval_expectations_for_backend(manifest_document(Some(entry)), "pdfium").is_err());
}

#[test]
fn documents_are_evaluated_with_their_backend_expectations() {
    let r = eval_document_from_artifact(manifest_document(Some(pdfium_entry())), &observed("pdfium"))
        .unwrap();
    assert!(r.summary.passed);
    assert_eq!(names(&r.checks), s(&["page_count", "required_text"]));
    let r = eval_document_from_artifact(manifest_document(Some(pdfium_entry())), &observed("lopdf"))
        .unwrap();
    assert_eq!(r.summary.failed_checks, s(&["page_count"]));
    let mut m = manifest_document(None);
    m.expect.is_object = false;
    assert!(eval_document_from_artifact(m, &observed("lopdf")).is_err());
}

#[test]
fn normalized_anchors_keep_their_words() {
    let text = "  Quarterly\t revenue \n\n grew  ";
    let n = normalize_required_text_anchor(text);
    assert_eq!(n, "Quarterly revenue grew");
    assert_eq!(
        n.split_whitespace().collect::<Vec<_>>(),
        text.split_whitespace().collect::<Vec<_>>()
    );
    assert_eq!(normalize_required_text_anchor(&n), n);
    assert_eq!(normalize_required_text_anchor(" \u{a0} "), "");
}

#[test]
fn a_run_over_one_document_is_that_documents_check() {
    let d = BaselineSmokeDocument {
        path: String::from("a.pdf"),
        success: false,
        exit_status: Some(2),
        timed_out: false,
        timeout_ms: 500,
        wall_us: 1234,
        output_bytes: 3,
        stdout_sha256: Some(String::from("abc")),
        stdout_line_count: 1,
        stdout_word_count: 1,
        stderr_bytes: 4,
        empty_output: false,
        stderr_preview: Some(String::from("oops")),
        error: Some(String::from("baseline smoke exited with status Some(2)")),
        error_kind: Some(String::from("execution_failed")),
    };
    let c = smoke_check_from_documents(vec![d], 9999);
    assert!(!c.success);
    assert_eq!((c.exit_status, c.timeout_ms, c.wall_us), (Some(2), 500, 1234));
    assert_eq!((c.output_bytes, c.stderr_bytes), (3, 4));
    assert_eq!(c.stdout_sha256.as_deref(), Some("abc"));
    assert_eq!(c.error.as_deref(), Some("baseline smoke exited with status Some(2)"));
    assert_eq!(c.error_kind.as_deref(), Some("execution_failed"));
    assert_eq!(c.stderr_preview.as_deref(), Some("oops"));
    assert!(c.document_count.is_none() && c.failure_samples.is_empty() && c.documents.is_empty());
}
