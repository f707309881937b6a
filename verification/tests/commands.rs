use glyphrush::cli::CoveragePreset;
use glyphrush::commands::{
    backend_check_error, enforce_bench_gates, eval_failure_error, feature_parity_gate_error,
    inspect_arguments_error, page_jobs_for, BenchGateInputs,
};

fn gates() -> BenchGateInputs {
    BenchGateInputs {
        coverage_error: None,
        failed_checks: 0,
        require_quality: false,
        quality_checked: false,
        require_baselines: false,
        baseline_error: None,
        require_baseline_quality: false,
        baseline_quality_error: None,
        speedup_error: None,
        speedup_claim_error: None,
    }
}

#[test]
fn command_arguments_and_workers() {
    assert_eq!(page_jobs_for(true, 8), 1);
    assert_eq!(page_jobs_for(false, 0), 1);
    assert_eq!(page_jobs_for(false, 4), 4);
    assert_eq!(inspect_arguments_error(false, true), Some("inspect --cache-dir requires --pages".to_string()));
    assert_eq!(inspect_arguments_error(true, true), None);
    assert_eq!(eval_failure_error(false, 3), Some("eval failed: 3 check(s) failed".to_string()));
    assert_eq!(eval_failure_error(true, 3), None);
    assert_eq!(backend_check_error(Some(false)), Some("backend smoke failed".to_string()));
    assert_eq!(backend_check_error(None), None);
}

#[test]
fn feature_parity_gates_fail_in_order() {
    assert_eq!(
        feature_parity_gate_error(true, Some(false), true, false, None, None),
        Some("feature-parity speed evidence did not satisfy quality-backed LiteParse claims".to_string())
    );
    assert_eq!(
        feature_parity_gate_error(true, Some(true), true, false, None, None),
        Some("feature-parity speed evidence did not satisfy native-text speed advantage evidence".to_string())
    );
    assert_eq!(
        feature_parity_gate_error(false, None, false, false, Some(CoveragePreset::GlyphrushV0), Some(false)),
        Some("feature-parity benchmark evidence did not satisfy coverage preset glyphrush-v0".to_string())
    );
    assert_eq!(feature_parity_gate_error(false, None, false, false, Some(CoveragePreset::GlyphrushV0), Some(true)), None);
}

#[test]
fn bench_gates_report_the_first_failure() {
    assert_eq!(enforce_bench_gates(&gates()), Ok(()));
    let mut g = gates();
    g.failed_checks = 2;
    g.speedup_error = Some("slow".to_string());
    assert_eq!(enforce_bench_gates(&g), Err("bench quality failed: 2 check(s) failed".to_string()));
    let mut g = gates();
    g.require_quality = true;
    assert_eq!(
        enforce_bench_gates(&g),
        Err("bench quality required: no eval manifest quality report was checked".to_string())
    );
    let mut g = gates();
    g.baseline_error = Some("baseline x failed".to_string());
    assert_eq!(enforce_bench_gates(&g), Ok(()));
    g.require_baselines = true;
    assert_eq!(enforce_bench_gates(&g), Err("baseline x failed".to_string()));
    let mut g = gates();
    g.coverage_error = Some("coverage".to_string());
    g.failed_checks = 1;
    assert_eq!(enforce_bench_gates(&g), Err("coverage".to_string()));
    let mut g = gates();
    g.speedup_claim_error = Some("claim".to_string());
    assert_eq!(enforce_bench_gates(&g), Err("claim".to_string()));
}
