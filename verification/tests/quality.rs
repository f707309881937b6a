use glyphrush::anchors::baseline_required_text_expectations;
use glyphrush::smoke::{baseline_quality_status, BaselineQualityStatus};

fn strings(v: &[&str]) -> Vec<String> {
    v.iter().map(|s| s.to_string()).collect()
}

#[test]
fn quality_is_checked_only_for_clean_runs_with_expectations() {
    assert_eq!(baseline_quality_status(true, false, true), BaselineQualityStatus::Checked);
    assert_eq!(baseline_quality_status(true, true, true), BaselineQualityStatus::NotCheckedTimedOut);
    assert_eq!(baseline_quality_status(true, true, false), BaselineQualityStatus::NotCheckedTimedOut);
    assert_eq!(baseline_quality_status(true, false, false), BaselineQualityStatus::NotCheckedExecutionFailed);
    assert_eq!(baseline_quality_status(false, true, false), BaselineQualityStatus::NotCheckedNoExpectations);
}

#[test]
fn required_texts_are_merged_without_repeats() {
    let r = baseline_required_text_expectations(
        &strings(&["Budget", "Total"]),
        &vec![strings(&["Total", "Page one"]), strings(&[]), strings(&["Budget", "Page three"])],
        &strings(&["Appendix", "Page one"]),
    );
    assert_eq!(r, strings(&["Budget", "Total", "Page one", "Page three", "Appendix"]));
    assert!(baseline_required_text_expectations(&vec![], &vec![], &vec![]).is_empty());
}
