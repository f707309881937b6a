use glyphrush::corpus::{
    aggregate_corpus_baseline, baseline_quality_failed_check_types, corpus_baseline_quality_status,
    count_runs, sum_runs, BaselineQualitySummary, CorpusBaselineQualityStatus, CorpusBaselineRun,
    RunFilter, RunQuantity,
};
use glyphrush::smoke::BaselineQualityStatus;

fn quality(category: Option<&str>, passed: bool, failed_checks: u32, kinds: [bool; 4]) -> BaselineQualitySummary {
    BaselineQualitySummary {
        category: category.map(|c| c.to_string()),
        passed,
        failed_checks,
        required_text_failed: kinds[0],
        text_recall_failed: kinds[1],
        reading_order_failed: kinds[2],
        table_structure_failed: kinds[3],
    }
}

fn run(path: &str, pages: usize, success: bool, q: Option<BaselineQualitySummary>, status: BaselineQualityStatus) -> CorpusBaselineRun {
    CorpusBaselineRun {
        path: path.to_string(),
        unchecked_category: "forms".to_string(),
        page_count: pages,
        glyphrush_wall_us: 100,
        glyphrush_text_output_bytes: 10,
        wall_us: 1000,
        output_bytes: 20,
        stderr_bytes: if success { 0 } else { 5 },
        success,
        timed_out: false,
        empty_output: false,
        exit_status: Some(if success { 0 } else { 1 }),
        error_kind: if success { None } else { Some("execution_failed".to_string()) },
        error: if success { None } else { Some(format!("{path} failed")) },
        stderr_preview: None,
        quality_status: status,
        quality: q,
    }
}

fn corpus() -> Vec<CorpusBaselineRun> {
    vec![
        run("a.pdf", 3, true, Some(quality(Some("tables"), true, 0, [false; 4])), BaselineQualityStatus::Checked),
        run("b.pdf", 5, true, Some(quality(Some("tables"), false, 2, [true, false, false, true])), BaselineQualityStatus::Checked),
        run("c.pdf", 7, false, None, BaselineQualityStatus::NotCheckedExecutionFailed),
        run("d.pdf", 11, true, Some(quality(None, false, 1, [false, true, false, false])), BaselineQualityStatus::Checked),
        run("e.pdf", 13, false, None, BaselineQualityStatus::NotCheckedTimedOut),
    ]
}

#[test]
fn runs_and_pages_are_counted_by_outcome() {
    let t = aggregate_corpus_baseline(&corpus());
    assert_eq!(t.document_count, 5);
    assert_eq!((t.successful_documents, t.successful_pages), (3, 19));
    assert_eq!((t.failed_documents, t.failed_pages), (2, 20));
    assert_eq!((t.timed_out_documents, t.empty_output_documents), (0, 0));
    assert_eq!(t.wall_us, 5000);
    assert_eq!(t.glyphrush_wall_us, 500);
    assert_eq!(t.output_bytes, 100);
    assert_eq!(t.glyphrush_text_output_bytes, 50);
    assert_eq!(t.stderr_bytes, 10);
    assert!(!t.speed_comparable);
}

#[test]
fn quality_is_counted_by_result_and_kind() {
    let t = aggregate_corpus_baseline(&corpus());
    assert_eq!(t.quality_status, CorpusBaselineQualityStatus::PartiallyChecked);
    assert_eq!(t.quality_documents, 3);
    assert_eq!(t.quality_unchecked_documents, 2);
    assert_eq!(t.quality_passed_documents, 1);
    assert_eq!(t.quality_failed_documents, 2);
    assert_eq!(t.quality_failed_checks, 3);
    assert_eq!(t.quality_required_text_failed_documents, 1);
    assert_eq!(t.quality_text_recall_failed_documents, 1);
    assert_eq!(t.quality_reading_order_failed_documents, 0);
    assert_eq!(t.quality_table_structure_failed_documents, 1);
}

#[test]
fn quality_is_summed_per_category() {
    let t = aggregate_corpus_baseline(&corpus());
    let m = &t.quality_category_summaries;
    assert_eq!(m.len(), 2);
    assert_eq!(m.key(0), "tables");
    assert_eq!(m.key(1), "uncategorized");
    let tables = m.get("tables").unwrap();
    assert_eq!((tables.document_count, tables.page_count), (2, 8));
    assert_eq!((tables.passed_documents, tables.failed_documents, tables.failed_checks), (1, 1, 2));
    assert!(!tables.quality_passed && tables.quality_failed);
    let other = m.get("uncategorized").unwrap();
    assert_eq!((other.document_count, other.page_count, other.failed_checks), (1, 11, 1));

    let u = &t.quality_unchecked_category_summaries;
    assert_eq!(u.len(), 1);
    let forms = u.get("forms").unwrap();
    assert_eq!((forms.document_count, forms.page_count), (2, 20));
    assert_eq!(forms.not_checked_execution_failed_documents, 1);
    assert_eq!(forms.not_checked_timed_out_documents, 1);
    assert_eq!(forms.not_checked_no_expectations_documents, 0);
}

#[test]
fn samples_take_the_first_matching_runs() {
    let t = aggregate_corpus_baseline(&corpus());
    let failed: Vec<&str> = t.failure_samples.iter().map(|s| s.path.as_str()).collect();
    assert_eq!(failed, vec!["c.pdf", "e.pdf"]);
    assert_eq!(t.failure_samples[0].error, Some("c.pdf failed".to_string()));
    assert_eq!(t.failure_samples[0].exit_status, Some(1));

    let q: Vec<(&str, u32)> = t.quality_failure_samples.iter().map(|s| (s.path.as_str(), s.failed_checks)).collect();
    assert_eq!(q, vec![("b.pdf", 2), ("d.pdf", 1)]);
    assert_eq!(t.quality_failure_samples[0].failed_check_types, vec!["required_text".to_string(), "table_structure".to_string()]);

    let u: Vec<(&str, &str, BaselineQualityStatus)> = t
        .quality_unchecked_samples
        .iter()
        .map(|s| (s.path.as_str(), s.category.as_str(), s.quality_status))
        .collect();
    assert_eq!(
        u,
        vec![
            ("c.pdf", "forms", BaselineQualityStatus::NotCheckedExecutionFailed),
            ("e.pdf", "forms", BaselineQualityStatus::NotCheckedTimedOut),
        ]
    );
}

#[test]
fn at_most_three_failures_are_sampled() {
    let runs: Vec<CorpusBaselineRun> = (0..5)
        .map(|i| run(&format!("{i}.pdf"), 1, false, None, BaselineQualityStatus::NotCheckedExecutionFailed))
        .collect();
    let t = aggregate_corpus_baseline(&runs);
    let failed: Vec<&str> = t.failure_samples.iter().map(|s| s.path.as_str()).collect();
    assert_eq!(failed, vec!["0.pdf", "1.pdf", "2.pdf"]);
    assert_eq!(t.quality_unchecked_samples.len(), 3);
    assert_eq!(t.quality_status, CorpusBaselineQualityStatus::NotCheckedBaselineFailures);
}

#[test]
fn quality_status_of_whole_corpora() {
    let all = vec![
        run("a.pdf", 1, true, Some(quality(None, true, 0, [false; 4])), BaselineQualityStatus::Checked),
    ];
    assert_eq!(corpus_baseline_quality_status(&all), CorpusBaselineQualityStatus::Checked);
    let none = vec![run("a.pdf", 1, true, None, BaselineQualityStatus::NotCheckedNoExpectations)];
    assert_eq!(corpus_baseline_quality_status(&none), CorpusBaselineQualityStatus::NotCheckedNoExpectations);
    assert_eq!(corpus_baseline_quality_status(&Vec::new()), CorpusBaselineQualityStatus::NotCheckedNoExpectations);
}

#[test]
fn an_empty_corpus_is_not_speed_comparable() {
    let t = aggregate_corpus_baseline(&Vec::new());
    assert_eq!(t.document_count, 0);
    assert!(!t.speed_comparable);
    let ok = vec![run("a.pdf", 2, true, None, BaselineQualityStatus::NotCheckedNoExpectations)];
    assert!(aggregate_corpus_baseline(&ok).speed_comparable);
}

#[test]
fn counting_helpers_agree_with_the_totals() {
    let runs = corpus();
    assert_eq!(count_runs(&runs, RunFilter::All), (5, 39));
    assert_eq!(count_runs(&runs, RunFilter::QualityChecked), (3, 19));
    assert_eq!(sum_runs(&runs, RunQuantity::QualityFailedChecks), 3);
    let kinds = baseline_quality_failed_check_types(&quality(None, false, 4, [true, true, true, true]));
    assert_eq!(kinds, vec!["required_text", "text_recall", "reading_order", "table_structure"]);
}
