use glyphrush::cli::CoveragePreset;
use glyphrush::gates::{
    baseline_quality_requirement_error, baseline_requirement_error,
    benchmark_coverage_requirement_error, corpus_baseline_quality_requirement_error,
    corpus_baseline_requirement_error, corpus_fingerprint_payload, speedup_claim,
    speedup_claim_quality_blocker_label, speedup_claim_requirement_error, BaselineRunQuality,
    BenchmarkSpeedupClaimInput, BenchmarkSpeedupClaimQualityBlocker, CorpusFingerprintEntry,
    RequiredSpeedupClaim,
};
use glyphrush::metrics::BenchmarkSpeedupClaimStatus;

fn input() -> BenchmarkSpeedupClaimInput {
    BenchmarkSpeedupClaimInput {
        baseline_was_run: true,
        speed_comparable: true,
        speed_passed: true,
        glyphrush_quality_checked: true,
        glyphrush_quality_passed: true,
        baseline_quality_checked: true,
        baseline_quality_passed: true,
    }
}

#[test]
fn a_claim_passes_when_everything_holds() {
    let d = speedup_claim(input());
    assert!(d.claim_passed && d.quality_backed && d.glyphrush_quality_backed);
    assert_eq!(d.status, BenchmarkSpeedupClaimStatus::Passed);
    assert_eq!(d.quality_blocker, None);
}

#[test]
fn claim_status_names_the_first_shortfall() {
    let mut i = input();
    i.baseline_was_run = false;
    i.speed_comparable = false;
    assert_eq!(speedup_claim(i).status, BenchmarkSpeedupClaimStatus::BaselineNotRun);
    let mut i = input();
    i.speed_comparable = false;
    assert_eq!(speedup_claim(i).status, BenchmarkSpeedupClaimStatus::NotSpeedComparable);
    let mut i = input();
    i.speed_passed = false;
    assert_eq!(speedup_claim(i).status, BenchmarkSpeedupClaimStatus::SpeedupFailed);
    let mut i = input();
    i.baseline_quality_checked = false;
    let d = speedup_claim(i);
    assert_eq!(d.status, BenchmarkSpeedupClaimStatus::QualityNotChecked);
    assert_eq!(d.quality_blocker, Some(BenchmarkSpeedupClaimQualityBlocker::BaselineQualityNotChecked));
    assert!(d.glyphrush_quality_backed && !d.quality_backed && !d.claim_passed);
    let mut i = input();
    i.glyphrush_quality_passed = false;
    let d = speedup_claim(i);
    assert_eq!(d.status, BenchmarkSpeedupClaimStatus::QualityFailed);
    assert_eq!(d.quality_blocker, Some(BenchmarkSpeedupClaimQualityBlocker::GlyphrushQualityFailed));
    assert_eq!(speedup_claim_quality_blocker_label(d.quality_blocker.unwrap()), "glyphrush_quality_failed");
}

#[test]
fn required_claims_report_the_first_missing_or_failed() {
    let reqs = vec![
        RequiredSpeedupClaim { baseline: "liteparse".to_string(), claim: Some((true, BenchmarkSpeedupClaimStatus::Passed)) },
        RequiredSpeedupClaim { baseline: "pymupdf".to_string(), claim: Some((false, BenchmarkSpeedupClaimStatus::QualityFailed)) },
        RequiredSpeedupClaim { baseline: "pdfplumber".to_string(), claim: None },
    ];
    assert_eq!(
        speedup_claim_requirement_error(&reqs),
        Some("bench speedup claim required: baseline pymupdf status quality_failed".to_string())
    );
    let missing = vec![RequiredSpeedupClaim { baseline: "pdfplumber".to_string(), claim: None }];
    assert_eq!(
        speedup_claim_requirement_error(&missing),
        Some("bench speedup claim required: baseline pdfplumber claim was not evaluated".to_string())
    );
    assert_eq!(speedup_claim_requirement_error(&Vec::new()), None);
}

#[test]
fn baselines_must_run_and_succeed() {
    assert_eq!(
        baseline_requirement_error(&vec![]),
        Some("bench baselines required: no baselines were requested".to_string())
    );
    assert_eq!(
        baseline_requirement_error(&vec![true, false, false]),
        Some("bench baselines required: 2 baseline run(s) failed".to_string())
    );
    assert_eq!(baseline_requirement_error(&vec![true]), None);
    assert_eq!(
        corpus_baseline_requirement_error(&vec![0, 3, 4]),
        Some("bench baselines required: 7 baseline document run(s) failed".to_string())
    );
    assert_eq!(corpus_baseline_requirement_error(&vec![0, 0]), None);
}

#[test]
fn baseline_quality_must_be_checked_and_pass() {
    let ok = BaselineRunQuality { checked: true, failed: false };
    let unchecked = BaselineRunQuality { checked: false, failed: false };
    let failed = BaselineRunQuality { checked: true, failed: true };
    assert_eq!(
        baseline_quality_requirement_error(&vec![ok, unchecked, failed]),
        Some("bench baseline quality required: 1 baseline run(s) were not quality-checked".to_string())
    );
    assert_eq!(
        baseline_quality_requirement_error(&vec![ok, failed, failed]),
        Some("bench baseline quality required: 2 baseline quality run(s) failed".to_string())
    );
    assert_eq!(baseline_quality_requirement_error(&vec![ok]), None);
    assert_eq!(
        baseline_quality_requirement_error(&vec![]),
        Some("bench baseline quality required: no baselines were requested".to_string())
    );
    assert_eq!(
        corpus_baseline_quality_requirement_error(&vec![1, 2], &vec![5, 5]),
        Some("bench baseline quality required: 3 baseline document run(s) were not quality-checked".to_string())
    );
    assert_eq!(
        corpus_baseline_quality_requirement_error(&vec![0, 0], &vec![0, 1]),
        Some("bench baseline quality required: 1 baseline quality document run(s) failed".to_string())
    );
    assert_eq!(corpus_baseline_quality_requirement_error(&vec![0], &vec![0]), None);
}

#[test]
fn coverage_requirement_messages() {
    let p = Some(CoveragePreset::GlyphrushV0NativeText);
    assert_eq!(benchmark_coverage_requirement_error(None, &None), None);
    assert_eq!(
        benchmark_coverage_requirement_error(p, &None),
        Some("bench coverage preset glyphrush-v0-native-text required: no eval manifest quality report was checked".to_string())
    );
    assert_eq!(
        benchmark_coverage_requirement_error(p, &Some(None)),
        Some("bench coverage preset glyphrush-v0-native-text required: no category coverage was checked".to_string())
    );
    assert_eq!(
        benchmark_coverage_requirement_error(p, &Some(Some((false, vec!["forms".to_string(), "large".to_string()])))),
        Some("bench coverage preset glyphrush-v0-native-text failed: missing categories forms,large".to_string())
    );
    assert_eq!(
        benchmark_coverage_requirement_error(Some(CoveragePreset::GlyphrushV0), &Some(Some((false, vec![])))),
        Some("bench coverage preset glyphrush-v0 failed: missing categories none".to_string())
    );
    assert_eq!(benchmark_coverage_requirement_error(p, &Some(Some((true, vec![])))), None);
}

#[test]
fn corpus_fingerprint_payload_lists_documents() {
    let entries = vec![
        CorpusFingerprintEntry { path: "a.pdf".to_string(), document_fingerprint: "f1".to_string(), page_count: 3 },
        CorpusFingerprintEntry { path: "b/c.pdf".to_string(), document_fingerprint: "f2".to_string(), page_count: 12 },
    ];
    assert_eq!(
        corpus_fingerprint_payload(&entries),
        "glyphrush-corpus-v1\na.pdf\tf1\t3\nb/c.pdf\tf2\t12\n"
    );
    assert_eq!(corpus_fingerprint_payload(&Vec::new()), "glyphrush-corpus-v1\n");
}
