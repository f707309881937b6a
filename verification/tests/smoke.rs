use glyphrush::ocr::TimedProcessOutcome;
use glyphrush::process::ProcessOutcome;
use glyphrush::smoke::{
    backend_smoke_error_kind, backend_smoke_failure_samples, baseline_describe_error,
    baseline_describe_error_kind, baseline_smoke_check_from_document,
    baseline_smoke_failure_samples, invalid_smoke_target_check, pdfium_rendered_ocr_check_error_kind,
    should_extract_pdfium_text_segments, smoke_check_from_documents, smoke_document_from_run,
    BackendSmokeOutcome, BaselineQualityStatus, BaselineSmokeDocument,
    CorpusBaselineQualityUncheckedCategorySummary,
};

fn run(code: Option<i32>, stdout: &str, stderr: &str, timed_out: bool, wall: u128) -> TimedProcessOutcome {
    TimedProcessOutcome {
        output: ProcessOutcome {
            exit_code: code,
            stdout: stdout.as_bytes().to_vec(),
            stderr: stderr.as_bytes().to_vec(),
        },
        timed_out,
        wall_us: wall,
    }
}

fn doc(label: &str, r: Result<TimedProcessOutcome, String>) -> BaselineSmokeDocument {
    smoke_document_from_run(label, "base.sh", 1000, &r)
}

#[test]
fn one_document_run_is_reported() {
    let d = doc("a.pdf", Ok(run(Some(0), "one two\n", "", false, 10)));
    assert!(d.success && !d.empty_output);
    assert_eq!((d.output_bytes, d.stdout_line_count, d.stdout_word_count), (8, 1, 2));
    assert_eq!(d.error, None);
    let failed = doc("b.pdf", Ok(run(Some(3), "", "oops", false, 5)));
    assert!(!failed.success);
    assert_eq!(failed.error.as_deref(), Some("baseline smoke exited with status Some(3)"));
    assert_eq!(failed.error_kind.as_deref(), Some("execution_failed"));
    assert_eq!(failed.stderr_preview.as_deref(), Some("oops"));
    let empty = doc("c.pdf", Ok(run(Some(0), "", "", false, 5)));
    assert!(empty.success && empty.empty_output);
    let spawn = doc("d.pdf", Err("no such program".to_string()));
    assert_eq!(spawn.error.as_deref(), Some("base.sh: no such program"));
    assert_eq!(spawn.error_kind.as_deref(), Some("spawn_failed"));
    assert!(!spawn.empty_output);
}

#[test]
fn failure_samples_take_the_first_three_failures() {
    let docs: Vec<BaselineSmokeDocument> = vec![
        doc("ok1", Ok(run(Some(0), "x", "", false, 1))),
        doc("f1", Ok(run(Some(1), "", "", false, 1))),
        doc("f2", Err("e".to_string())),
        doc("ok2", Ok(run(Some(0), "x", "", false, 1))),
        doc("f3", Ok(run(None, "", "", true, 1))),
        doc("f4", Ok(run(Some(2), "", "", false, 1))),
    ];
    let samples = baseline_smoke_failure_samples(&docs);
    let paths: Vec<&str> = samples.iter().map(|s| s.path.as_str()).collect();
    assert_eq!(paths, vec!["f1", "f2", "f3"]);
    assert_eq!(samples[2].error.as_deref(), Some("baseline smoke timed out"));
}

#[test]
fn several_documents_are_summed() {
    let docs = vec![
        doc("a", Ok(run(Some(0), "a b\n", "", false, 10))),
        doc("b", Ok(run(Some(1), "", "warn", false, 20))),
        doc("c", Ok(run(Some(0), "c", "", true, 30))),
    ];
    let check = smoke_check_from_documents(docs, 1000);
    assert!(!check.success);
    assert_eq!(check.document_count, Some(3));
    assert_eq!(check.successful_documents, Some(1));
    assert_eq!(check.failed_documents, Some(2));
    assert_eq!((check.output_bytes, check.stdout_line_count, check.stdout_word_count), (5, 2, 3));
    assert_eq!((check.stderr_bytes, check.wall_us), (4, 60));
    assert!(check.timed_out);
    assert!(!check.empty_output);
    assert_eq!(check.stderr_preview.as_deref(), Some("warn"));
    assert_eq!(check.error.as_deref(), Some("baseline smoke exited with status Some(1)"));
    assert_eq!(check.error_kind.as_deref(), Some("execution_failed"));
    assert_eq!(check.failure_samples.len(), 2);
    assert_eq!(check.documents.len(), 3);
    let single = smoke_check_from_documents(vec![doc("a", Ok(run(Some(0), "", "", false, 1)))], 1000);
    assert!(single.success && single.empty_output && single.document_count.is_none());
    let copy = baseline_smoke_check_from_document(&doc("z", Ok(run(Some(0), "q", "", false, 9))));
    assert_eq!(
        (copy.wall_us, copy.stdout_sha256.as_deref()),
        (9, Some("8e35c2cd3bf6641bdb0e2050b76932cbb2e6034a0ddacc1d9bea82a6ba57f7cf"))
    );
    let invalid = invalid_smoke_target_check("no pdfs", 1000);
    assert_eq!(invalid.error_kind.as_deref(), Some("invalid_smoke_target"));
    assert_eq!(invalid.document_count, Some(0));
}

#[test]
fn describe_probe_errors() {
    let ok = ProcessOutcome { exit_code: Some(0), stdout: b"{}".to_vec(), stderr: vec![] };
    assert_eq!(baseline_describe_error(&ok, false, true), None);
    assert_eq!(baseline_describe_error_kind(&ok, false, true), None);
    assert_eq!(
        baseline_describe_error(&ok, false, false),
        Some("baseline describe stdout was not a JSON object".to_string())
    );
    assert_eq!(baseline_describe_error_kind(&ok, false, false), Some("invalid_describe_output"));
    let empty = ProcessOutcome { exit_code: Some(0), stdout: vec![], stderr: vec![] };
    assert_eq!(
        baseline_describe_error(&empty, false, false),
        Some("baseline describe produced no stdout".to_string())
    );
    assert_eq!(baseline_describe_error_kind(&empty, false, false), Some("empty_describe_output"));
    assert_eq!(baseline_describe_error_kind(&empty, true, false), Some("timeout"));
    assert_eq!(
        baseline_describe_error(&empty, true, false),
        Some("baseline describe timed out".to_string())
    );
}

#[test]
fn backend_smoke_samples_and_error_kinds() {
    let outcome = |p: &str, ok: bool| BackendSmokeOutcome {
        path: p.to_string(),
        success: ok,
        error_kind: None,
        error: if ok { None } else { Some(format!("{p} failed")) },
    };
    let docs = vec![outcome("a", false), outcome("b", true), outcome("c", false)];
    let samples = backend_smoke_failure_samples(&docs);
    let got: Vec<(&str, Option<&str>)> =
        samples.iter().map(|s| (s.path.as_str(), s.error.as_deref())).collect();
    assert_eq!(got, vec![("a", Some("a failed")), ("c", Some("c failed"))]);
    assert_eq!(
        backend_smoke_error_kind("load PDF x: encrypted PDFs are not supported by the v0 CLI"),
        Some("encrypted_pdf_requires_password")
    );
    assert_eq!(backend_smoke_error_kind("bad xref"), None);
    assert_eq!(pdfium_rendered_ocr_check_error_kind("page index 9 not found"), "page_not_found");
    assert_eq!(pdfium_rendered_ocr_check_error_kind("render error"), "render_failed");
    assert!(should_extract_pdfium_text_segments(1000, 0));
    assert!(should_extract_pdfium_text_segments(262144, -360));
    assert!(!should_extract_pdfium_text_segments(262145, 0));
    assert!(!should_extract_pdfium_text_segments(10, 90));
}

#[test]
fn unchecked_quality_is_tallied_by_status() {
    let mut s = CorpusBaselineQualityUncheckedCategorySummary {
        document_count: 0,
        page_count: 0,
        not_checked_no_expectations_documents: 0,
        not_checked_timed_out_documents: 0,
        not_checked_execution_failed_documents: 0,
    };
    s.add_document(4, BaselineQualityStatus::NotCheckedTimedOut);
    s.add_document(2, BaselineQualityStatus::Checked);
    assert_eq!((s.document_count, s.page_count), (2, 6));
    assert_eq!(s.not_checked_timed_out_documents, 1);
    assert_eq!(s.not_checked_no_expectations_documents, 0);
}
