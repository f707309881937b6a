use glyphrush::evidence::{
    baseline_quality_failure, baseline_quality_failures, baseline_quality_unchecked_categories,
    benchmark_document_category, benchmark_quality_categories, failure_sample_window, stable_key_order,
    BaselineCategoryQuality, BaselineQualityInput, BenchmarkCategoryEvidence, QualityDocumentRef,
    UncheckedBaselineResult,
};
use glyphrush::parity::{
    claim_glyphrush_quality_backed, claim_quality_blocker, failed_claim_positions, required_claims,
    required_claims_evidence, RequiredClaimGate, RequiredClaimOutcome, SpeedClaimFacts,
};

fn qdoc(fp: Option<&str>, path: Option<&str>, category: Option<&str>, pages: Option<u64>) -> QualityDocumentRef {
    QualityDocumentRef {
        fingerprint: fp.map(String::from),
        path: path.map(String::from),
        category: category.map(String::from),
        page_count: pages,
    }
}

#[test]
fn documents_are_matched_by_fingerprint_then_path() {
    let docs = vec![
        qdoc(Some("f1"), Some("corpus/tables/a.pdf"), Some("tables"), Some(4)),
        qdoc(Some("f2"), Some("corpus/forms/b.pdf"), None, None),
        qdoc(Some("f1"), None, Some("scanned"), Some(9)),
    ];
    // The later entry with a fingerprint wins.
    assert_eq!(benchmark_document_category(&docs, Some("f1"), None, None, None), ("scanned".to_string(), 9));
    // Missing category and pages of the matched document read as defaults.
    assert_eq!(benchmark_document_category(&docs, Some("f2"), None, Some("x"), Some(3)), ("uncategorized".to_string(), 0));
    // By path, with one path a suffix of the other.
    assert_eq!(benchmark_document_category(&docs, Some("none"), Some("tables/a.pdf"), None, None), ("tables".to_string(), 4));
    // Unmatched documents keep their own fields.
    assert_eq!(benchmark_document_category(&docs, None, Some("other.pdf"), Some("forms"), Some(2)), ("forms".to_string(), 2));
    assert_eq!(benchmark_document_category(&docs, None, None, None, None), ("uncategorized".to_string(), 0));
}

fn unchecked(baseline: &str, category: &str, pages: u64, status: &str) -> UncheckedBaselineResult {
    UncheckedBaselineResult {
        baseline: baseline.to_string(),
        category: category.to_string(),
        page_count: pages,
        quality_status: status.to_string(),
    }
}

#[test]
fn unchecked_results_are_grouped_by_baseline_and_category() {
    let results = vec![
        unchecked("pymupdf", "tables", 3, "not_checked_timed_out"),
        unchecked("liteparse", "scanned", 10, "not_checked_no_expectations"),
        unchecked("pymupdf", "forms", 2, "not_checked_execution_failed"),
        unchecked("pymupdf", "tables", 4, "not_checked_no_expectations"),
        unchecked("pymupdf", "tables", 100, "checked"),
        unchecked("liteparse", "scanned", 1, "not_checked_other"),
    ];
    let r = baseline_quality_unchecked_categories(&results);
    let keys: Vec<(&str, &str)> = r.iter().map(|e| (e.baseline.as_str(), e.category.as_str())).collect();
    assert_eq!(keys, vec![("liteparse", "scanned"), ("pymupdf", "forms"), ("pymupdf", "tables")]);
    assert_eq!((r[0].document_count, r[0].page_count, r[0].not_checked_no_expectations_documents), (2, 11, 1));
    assert_eq!(r[1].not_checked_execution_failed_documents, 1);
    assert_eq!((r[2].document_count, r[2].page_count), (2, 7));
    assert_eq!((r[2].not_checked_timed_out_documents, r[2].not_checked_no_expectations_documents), (1, 1));
}

#[test]
fn stable_order_keeps_equal_keys_in_place() {
    let keys: Vec<String> = ["b", "a", "b", "c", "a"].iter().map(|s| s.to_string()).collect();
    assert_eq!(stable_key_order(&keys), vec![1, 4, 0, 2, 3]);
    assert_eq!(stable_key_order(&Vec::new()), Vec::<usize>::new());
}

fn category(name: &str, failed_documents: u64, failed_checks: u64, quality_failed: bool) -> BaselineCategoryQuality {
    BaselineCategoryQuality {
        category: name.to_string(),
        document_count: 5,
        page_count: 50,
        failed_documents,
        failed_checks,
        quality_failed,
    }
}

fn baseline(name: Option<&str>, categories: Vec<BaselineCategoryQuality>, samples: bool) -> BaselineQualityInput {
    BaselineQualityInput {
        name: name.map(String::from),
        target: Some("target".to_string()),
        quality_status: Some("checked".to_string()),
        categories,
        has_failure_samples: samples,
        quality_failed_documents: None,
        quality_failed_checks: None,
    }
}

#[test]
fn failed_categories_are_summed_and_sorted() {
    let b = baseline(
        Some("pymupdf"),
        vec![category("tables", 1, 3, false), category("clean", 0, 0, false), category("forms", 0, 0, true), category("broken", 2, 1, false)],
        false,
    );
    let e = baseline_quality_failure(&b, 7).unwrap();
    assert_eq!(e.baseline, "pymupdf");
    assert_eq!(e.source, 7);
    assert_eq!((e.quality_failed_documents, e.quality_failed_checks), (3, 4));
    let names: Vec<&str> = e.failed_categories.iter().map(|c| c.category.as_str()).collect();
    assert_eq!(names, vec!["broken", "forms", "tables"]);
    assert_eq!(e.target, Some("target".to_string()));
}

#[test]
fn reported_totals_win_and_clean_baselines_are_left_out() {
    let mut b = baseline(Some("a"), vec![category("tables", 1, 1, false)], false);
    b.quality_failed_documents = Some(9);
    b.quality_failed_checks = Some(0);
    let e = baseline_quality_failure(&b, 0).unwrap();
    assert_eq!((e.quality_failed_documents, e.quality_failed_checks), (9, 0));

    let clean = baseline(Some("b"), vec![category("tables", 0, 0, false)], false);
    assert!(baseline_quality_failure(&clean, 0).is_none());
    let sampled = baseline(Some("b"), vec![], true);
    assert!(baseline_quality_failure(&sampled, 0).is_some());
    let nameless = baseline(None, vec![category("tables", 1, 1, false)], true);
    assert!(baseline_quality_failure(&nameless, 0).is_none());
}

#[test]
fn failures_are_ordered_by_baseline_name() {
    let bs = vec![
        baseline(Some("pymupdf"), vec![category("t", 1, 1, false)], false),
        baseline(Some("clean"), vec![], false),
        baseline(Some("liteparse"), vec![category("t", 0, 2, false)], false),
        baseline(Some("liteparse"), vec![], true),
    ];
    let r = baseline_quality_failures(&bs);
    let order: Vec<(&str, usize)> = r.iter().map(|e| (e.baseline.as_str(), e.source)).collect();
    assert_eq!(order, vec![("liteparse", 2), ("liteparse", 3), ("pymupdf", 0)]);
}

#[test]
fn report_categories_are_sorted_by_name() {
    let c = |name: &str, docs: u64| BenchmarkCategoryEvidence {
        category: name.to_string(),
        document_count: Some(docs),
        page_count: None,
        failed_checks: Some(0),
        quality_passed: Some(true),
    };
    let r = benchmark_quality_categories(&vec![c("tables", 1), c("forms", 2), c("academic", 3)]);
    let names: Vec<(&str, Option<u64>)> = r.iter().map(|e| (e.category.as_str(), e.document_count)).collect();
    assert_eq!(names, vec![("academic", Some(3)), ("forms", Some(2)), ("tables", Some(1))]);
}

#[test]
fn claim_quality_is_derived_when_not_reported() {
    assert_eq!(claim_glyphrush_quality_backed(Some(false), Some(true), Some(true)), Some(false));
    assert_eq!(claim_glyphrush_quality_backed(None, Some(true), Some(true)), Some(true));
    assert_eq!(claim_glyphrush_quality_backed(None, Some(true), None), None);
    assert_eq!(claim_glyphrush_quality_backed(None, Some(false), None), Some(false));
    assert_eq!(claim_glyphrush_quality_backed(None, None, Some(true)), None);

    assert_eq!(claim_quality_blocker(Some("x".to_string()), Some(false), None, None, None), Some("x".to_string()));
    assert_eq!(claim_quality_blocker(None, Some(false), None, None, None), Some("glyphrush_quality_not_checked".to_string()));
    assert_eq!(claim_quality_blocker(None, Some(true), Some(false), None, None), Some("glyphrush_quality_failed".to_string()));
    assert_eq!(claim_quality_blocker(None, Some(true), Some(true), Some(false), None), Some("baseline_quality_not_checked".to_string()));
    assert_eq!(claim_quality_blocker(None, None, None, Some(true), Some(false)), Some("baseline_quality_failed".to_string()));
    assert_eq!(claim_quality_blocker(None, Some(true), Some(true), Some(true), Some(true)), None);
}

#[test]
fn required_claims_pass_only_when_all_hold() {
    let good = RequiredClaimOutcome { claim_passed: true, quality_backed: true, speed_met: true };
    let slow = RequiredClaimOutcome { claim_passed: true, quality_backed: true, speed_met: false };
    let r = required_claims_evidence(&vec![Some(good), Some(good)]);
    assert!(r.evidence_passed);
    assert_eq!((r.quality_backed_claim_count, r.claim_passed_count), (2, 2));
    let r = required_claims_evidence(&vec![Some(good), Some(slow)]);
    assert!(!r.evidence_passed);
    assert_eq!(r.failed, vec![false, true]);
    let r = required_claims_evidence(&vec![Some(good), None]);
    assert!(!r.evidence_passed);
    assert_eq!((r.quality_backed_claim_count, r.claim_passed_count), (1, 1));
    assert_eq!(r.failed, vec![false, false]);
}

#[test]
fn failure_samples_are_capped_at_eight() {
    let many: Vec<u32> = (0..10).collect();
    assert_eq!(failure_sample_window(many), (0..8).collect::<Vec<u32>>());
    assert_eq!(failure_sample_window(vec![1u32, 2, 3]), vec![1, 2, 3]);
    assert!(failure_sample_window(Vec::<u32>::new()).is_empty());
}

fn claim(baseline: &str, passed: bool, speed: [bool; 2]) -> SpeedClaimFacts {
    SpeedClaimFacts {
        baseline: baseline.to_string(),
        claim_passed: Some(passed),
        quality_backed: Some(true),
        glyphrush_quality_backed: Some(true),
        baseline_quality_checked: None,
        speed_checks: speed.to_vec(),
    }
}

#[test]
fn required_claims_come_from_the_first_matching_claim() {
    let claims = vec![
        claim("other", true, [true, true]),
        claim("liteparse", false, [true, false]),
        claim("liteparse", true, [true, true]),
    ];
    let required = vec!["liteparse".to_string(), "liteparse-no-ocr".to_string()];
    let r = required_claims(&claims, &required);
    assert_eq!(r.positions, vec![Some(1), None]);
    assert_eq!(
        r.outcomes,
        vec![Some(RequiredClaimOutcome { claim_passed: false, quality_backed: true, speed_met: true }), None]
    );
    assert_eq!(
        r.gates,
        vec![
            Some(RequiredClaimGate {
                speed_met: true,
                glyphrush_quality_backed: true,
                baseline_quality_checked: false,
            }),
            None
        ]
    );
    assert_eq!(r.missing, vec!["liteparse-no-ocr".to_string()]);
    let summary = required_claims_evidence(&r.outcomes);
    assert_eq!(failed_claim_positions(&r.positions, &summary.failed), vec![1]);
    assert!(!summary.evidence_passed);
}
