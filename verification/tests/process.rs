use glyphrush::process::{
    baseline_process_error_kind, baseline_smoke_error, duration_millis,
    process_stderr_indicates_missing_dependency, stderr_preview, stdout_line_count,
    stdout_word_count, ProcessOutcome,
};

fn outcome(code: Option<i32>, stdout: &str, stderr: &str) -> ProcessOutcome {
    ProcessOutcome {
        exit_code: code,
        stdout: stdout.as_bytes().to_vec(),
        stderr: stderr.as_bytes().to_vec(),
    }
}

#[test]
fn smoke_errors_name_the_timeout_or_the_status() {
    assert_eq!(
        baseline_smoke_error(&outcome(Some(0), "", ""), true),
        Some("baseline smoke timed out".to_string())
    );
    assert_eq!(
        baseline_smoke_error(&outcome(Some(2), "", ""), false),
        Some("baseline smoke exited with status Some(2)".to_string())
    );
    assert_eq!(
        baseline_smoke_error(&outcome(Some(-3), "", ""), false),
        Some("baseline smoke exited with status Some(-3)".to_string())
    );
    assert_eq!(
        baseline_smoke_error(&outcome(None, "", ""), false),
        Some("baseline smoke exited with status None".to_string())
    );
    assert_eq!(baseline_smoke_error(&outcome(Some(0), "x", ""), false), None);
    assert!(outcome(Some(0), "", "").success());
    assert!(!outcome(None, "", "").success());
}

#[test]
fn error_kinds_classify_timeouts_missing_dependencies_and_failures() {
    assert_eq!(baseline_process_error_kind(&outcome(Some(0), "", ""), true), Some("timeout"));
    assert_eq!(
        baseline_process_error_kind(&outcome(Some(127), "", ""), false),
        Some("missing_dependency")
    );
    assert_eq!(
        baseline_process_error_kind(&outcome(Some(1), "", "python: Command NOT found"), false),
        Some("missing_dependency")
    );
    assert_eq!(
        baseline_process_error_kind(&outcome(Some(1), "", "boom"), false),
        Some("execution_failed")
    );
    assert_eq!(
        baseline_process_error_kind(&outcome(Some(0), "", "No such file or directory"), false),
        None
    );
}

#[test]
fn missing_dependency_phrases_are_found_in_any_case() {
    assert!(process_stderr_indicates_missing_dependency(b"Error opening data file eng.traineddata"));
    assert!(process_stderr_indicates_missing_dependency(b"set TESSDATA_PREFIX"));
    assert!(process_stderr_indicates_missing_dependency(b"Failed loading language 'eng'"));
    assert!(process_stderr_indicates_missing_dependency(b"Couldn't load any languages!"));
    assert!(!process_stderr_indicates_missing_dependency(b"segmentation fault"));
}

#[test]
fn output_counts_and_previews() {
    assert_eq!(stdout_line_count(b"a\nb\r\n\nc"), 4);
    assert_eq!(stdout_line_count(b""), 0);
    assert_eq!(stdout_line_count(b"one\n"), 1);
    assert_eq!(stdout_word_count(b" a  b\tc\n"), 3);
    assert_eq!(stderr_preview(b""), None);
    assert_eq!(stderr_preview(b"oops"), Some("oops".to_string()));
    let long = vec![b'x'; 600];
    assert_eq!(stderr_preview(&long).unwrap().len(), 500);
    assert_eq!(stderr_preview(&[0xff, b'a']), Some("\u{FFFD}a".to_string()));
}

#[test]
fn durations_saturate_at_u64() {
    assert_eq!(duration_millis(1500), 1500);
    assert_eq!(duration_millis(u128::MAX), u64::MAX);
}
