use glyphrush::cli::CoveragePreset;
use glyphrush::parity::{
    feature_parity_benchmark_coverage_requirement, feature_parity_hot_path,
    feature_parity_readiness, feature_parity_speed_advantage_readiness,
    feature_parity_speed_claim_readiness, feature_parity_summary,
    liteparse_feature_parity_capabilities, BenchmarkEvidenceGate, RequiredClaimGate,
    SpeedAdvantageEvidence,
    FeatureParityBenchmarkBaselineQualityUncheckedCategoryEvidence, FeatureParityStatus,
};

fn s(v: &[&str]) -> Vec<String> {
    v.iter().map(|x| x.to_string()).collect()
}

#[test]
fn matrix_reports_eleven_of_thirteen_with_a_rendering_backend() {
    let caps = liteparse_feature_parity_capabilities(true);
    let summary = feature_parity_summary(&caps);
    assert_eq!(
        (summary.target_capability_count, summary.implemented, summary.partial, summary.planned, summary.not_planned),
        (13, 11, 0, 0, 2)
    );
    let ids: Vec<&str> = caps.iter().map(|c| c.id.as_str()).collect();
    assert_eq!(ids[0], "native_text_extraction");
    assert_eq!(ids[6], "page_render_for_ocr");
    assert_eq!(ids[12], "bundled_builtin_ocr");
    let rejected: Vec<&str> = caps
        .iter()
        .filter(|c| c.glyphrush_status == FeatureParityStatus::NotPlanned)
        .map(|c| c.id.as_str())
        .collect();
    assert_eq!(rejected, vec!["mupdf_backend", "bundled_builtin_ocr"]);
}

#[test]
fn without_rendering_the_page_render_capability_is_partial() {
    let caps = liteparse_feature_parity_capabilities(false);
    let summary = feature_parity_summary(&caps);
    assert_eq!((summary.implemented, summary.partial, summary.not_planned), (10, 1, 2));
    assert_eq!(caps[6].glyphrush_status, FeatureParityStatus::Partial);
    assert_eq!(caps[6].quality_guard, "ocr_check_render_backend_required");
}

#[test]
fn hot_path_is_ready_when_all_hot_capabilities_are_implemented() {
    let hot = feature_parity_hot_path(&liteparse_feature_parity_capabilities(true));
    assert_eq!((hot.capability_count, hot.implemented, hot.ready), (3, 3, true));
}

#[test]
fn speed_claim_blockers_are_listed_in_order() {
    let (ready, blockers) = feature_parity_speed_claim_readiness(false, None);
    assert!(!ready);
    assert_eq!(blockers, s(&["native_text_speed_race_capabilities_not_ready", "missing_benchmark_evidence"]));
    let gate = BenchmarkEvidenceGate { report_valid: true, evidence_passed: false, coverage_required: false, coverage_passed: false };
    let (_, blockers) = feature_parity_speed_claim_readiness(true, Some(gate));
    assert_eq!(blockers, s(&["missing_quality_backed_liteparse_claims", "missing_coverage_preset"]));
    let good = BenchmarkEvidenceGate { report_valid: true, evidence_passed: true, coverage_required: true, coverage_passed: true };
    assert_eq!(feature_parity_speed_claim_readiness(true, Some(good)), (true, vec![]));
}

#[test]
fn coverage_requirement_lists_missing_preset_categories() {
    let present = s(&["tables", "forms", "clean_digital", "hybrid", "academic_columns", "rotated", "large"]);
    let req = feature_parity_benchmark_coverage_requirement(CoveragePreset::GlyphrushV0NativeText, true, &present);
    assert_eq!(req.preset, "glyphrush-v0-native-text");
    assert_eq!(req.missing_categories, s(&["weird_encoding"]));
    assert!(!req.passed);
    assert_eq!(req.present_categories, present);
    assert_eq!(req.required_categories.len(), 8);
}

#[test]
fn unchecked_evidence_counts_documents_by_status_text() {
    let mut e = FeatureParityBenchmarkBaselineQualityUncheckedCategoryEvidence {
        baseline: "liteparse".to_string(),
        category: "tables".to_string(),
        document_count: 0,
        page_count: 0,
        not_checked_no_expectations_documents: 0,
        not_checked_timed_out_documents: 0,
        not_checked_execution_failed_documents: 0,
    };
    e.add_document(3, "not_checked_execution_failed");
    e.add_document(1, "checked");
    assert_eq!((e.document_count, e.page_count), (2, 4));
    assert_eq!(e.not_checked_execution_failed_documents, 1);
    assert_eq!(e.not_checked_timed_out_documents, 0);
}

fn claim(speed_met: bool, backed: bool, checked: bool) -> Option<RequiredClaimGate> {
    Some(RequiredClaimGate {
        speed_met,
        glyphrush_quality_backed: backed,
        baseline_quality_checked: checked,
    })
}

#[test]
fn speed_advantage_blockers_are_listed_in_order() {
    let (ready, blockers) = feature_parity_speed_advantage_readiness(true, &None);
    assert!(!ready);
    assert_eq!(blockers, s(&["missing_benchmark_evidence"]));

    let evidence = SpeedAdvantageEvidence {
        report_valid: true,
        required_claims: vec![None, claim(false, true, false)],
        coverage_required: true,
        coverage_passed: false,
    };
    let (ready, blockers) = feature_parity_speed_advantage_readiness(false, &Some(evidence));
    assert!(!ready);
    assert_eq!(
        blockers,
        s(&[
            "native_text_speed_race_capabilities_not_ready",
            "missing_required_liteparse_claims",
            "speed_evidence_failed",
            "baseline_quality_not_checked",
            "coverage_preset_missing_categories",
        ])
    );

    let invalid = SpeedAdvantageEvidence {
        report_valid: false,
        required_claims: vec![None],
        coverage_required: false,
        coverage_passed: false,
    };
    let (_, blockers) = feature_parity_speed_advantage_readiness(true, &Some(invalid));
    assert_eq!(blockers, s(&["invalid_benchmark_report", "missing_coverage_preset"]));

    let good = SpeedAdvantageEvidence {
        report_valid: true,
        required_claims: vec![claim(true, true, true), claim(true, true, true)],
        coverage_required: true,
        coverage_passed: true,
    };
    assert_eq!(feature_parity_speed_advantage_readiness(true, &Some(good)), (true, vec![]));

    let unbacked = SpeedAdvantageEvidence {
        report_valid: true,
        required_claims: vec![claim(true, false, true), claim(true, true, true)],
        coverage_required: true,
        coverage_passed: true,
    };
    let (_, blockers) = feature_parity_speed_advantage_readiness(true, &Some(unbacked));
    assert_eq!(blockers, s(&["glyphrush_quality_not_backed"]));
}

#[test]
fn readiness_of_the_capability_matrix() {
    let caps = liteparse_feature_parity_capabilities(true);
    let r = feature_parity_readiness(&caps, None, &None);
    assert!(r.native_text_speed_race_ready);
    assert!(!r.native_text_speed_claim_ready);
    assert_eq!(r.native_text_speed_claim_blockers, s(&["missing_benchmark_evidence"]));
    assert!(!r.native_text_speed_advantage_ready);
    assert!(!r.full_liteparse_drop_in_ready);
    assert!(r.glyphrush_product_parity_ready);
    assert_eq!((r.hot_path.capability_count, r.hot_path.implemented, r.hot_path.ready), (3, 3, true));
    assert_eq!((r.liteparse_capabilities.target, r.liteparse_capabilities.implemented_or_partial), (13, 11));
    assert!(r.remaining_partial.is_empty());
    assert!(r.remaining_planned.is_empty());
    assert_eq!(r.not_planned_by_design, s(&["mupdf_backend", "bundled_builtin_ocr"]));
    assert!(r.native_text_speed_race_gate.starts_with("bench --eval-manifest <manifest>"));

    let gate = BenchmarkEvidenceGate { report_valid: true, evidence_passed: true, coverage_required: true, coverage_passed: true };
    let r = feature_parity_readiness(&caps, Some(gate), &None);
    assert!(r.native_text_speed_claim_ready);
}

#[test]
fn readiness_without_rendering_lists_the_partial_capability() {
    let caps = liteparse_feature_parity_capabilities(false);
    let r = feature_parity_readiness(&caps, None, &None);
    assert!(!r.glyphrush_product_parity_ready);
    assert_eq!(r.remaining_partial, s(&["page_render_for_ocr"]));
    assert_eq!(r.liteparse_capabilities.implemented_or_partial, 11);
    assert!(r.native_text_speed_race_ready);
}
