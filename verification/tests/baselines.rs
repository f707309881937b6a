use glyphrush::baselines::{
    baseline_check_error, baseline_check_output, baseline_check_strict_error,
    baseline_describe_check, describe_spawn_failed_check, BaselineCheckResult,
    BaselineDescribeCheck,
};
use glyphrush::json::{decode_ocr_http_response_body, decoded_text_from_json, stdout_is_json_object};
use glyphrush::ocr::{OcrHttpResponse, TimedProcessOutcome};
use glyphrush::process::ProcessOutcome;
use glyphrush::smoke::invalid_smoke_target_check;

fn response(content_type: Option<&str>, body: &str) -> OcrHttpResponse {
    OcrHttpResponse {
        status_code: Some(200),
        content_type: content_type.map(|t| t.to_string()),
        body: body.as_bytes().to_vec(),
        wall_us: 5,
    }
}

fn run(code: Option<i32>, stdout: &str, stderr: &str, timed_out: bool) -> TimedProcessOutcome {
    TimedProcessOutcome {
        output: ProcessOutcome {
            exit_code: code,
            stdout: stdout.as_bytes().to_vec(),
            stderr: stderr.as_bytes().to_vec(),
        },
        timed_out,
        wall_us: 42,
    }
}

#[test]
fn json_ocr_answers_give_their_text_member() {
    let r = decode_ocr_http_response_body(&response(
        Some("Application/JSON; charset=utf-8"),
        "{\"text\":\"hello page\",\"pages\":1}",
    ));
    assert_eq!(r, Ok("hello page".to_string()));
}

#[test]
fn json_ocr_answers_without_text_are_refused() {
    let r = decode_ocr_http_response_body(&response(Some("application/json"), "{\"words\":[]}"));
    assert_eq!(r, Err("OCR HTTP JSON response missing text field".to_string()));
    let r = decode_ocr_http_response_body(&response(Some("application/json"), "{\"text\":3}"));
    assert_eq!(r, Err("OCR HTTP JSON response missing text field".to_string()));
}

#[test]
fn undecodable_json_ocr_answers_name_the_decode_step() {
    let r = decode_ocr_http_response_body(&response(Some("application/json"), "not json"));
    let e = r.unwrap_err();
    assert!(e.starts_with("decode OCR HTTP JSON response: "), "{e}");
    assert!(e.len() > "decode OCR HTTP JSON response: ".len());
}

#[test]
fn plain_ocr_answers_are_decoded_as_text() {
    let r = decode_ocr_http_response_body(&response(Some("text/plain"), "{\"text\":\"x\"}"));
    assert_eq!(r, Ok("{\"text\":\"x\"}".to_string()));
    let mut raw = response(None, "");
    raw.body = vec![b'a', 0xff, b'b'];
    assert_eq!(decode_ocr_http_response_body(&raw), Ok("a\u{fffd}b".to_string()));
}

#[test]
fn decoded_text_follows_the_parse_result() {
    assert_eq!(
        decoded_text_from_json(Ok((true, Some("t".to_string())))),
        Ok("t".to_string())
    );
    assert_eq!(
        decoded_text_from_json(Ok((false, None))),
        Err("OCR HTTP JSON response missing text field".to_string())
    );
    assert_eq!(
        decoded_text_from_json(Err("EOF while parsing".to_string())),
        Err("decode OCR HTTP JSON response: EOF while parsing".to_string())
    );
}

#[test]
fn describe_output_must_be_a_json_object() {
    assert!(stdout_is_json_object(b"{\"name\":\"pdftotext\"}"));
    assert!(stdout_is_json_object(b" {} "));
    assert!(!stdout_is_json_object(b"[1,2]"));
    assert!(!stdout_is_json_object(b"\"name\""));
    assert!(!stdout_is_json_object(b"pdftotext 1.0"));
    assert!(!stdout_is_json_object(b""));
}

#[test]
fn describe_check_of_a_good_baseline_passes() {
    let c = baseline_describe_check(&run(Some(0), "{\"name\":\"b\"}", "", false), 1500);
    assert!(c.success);
    assert!(c.valid_json_object);
    assert_eq!(c.exit_status, Some(0));
    assert_eq!(c.timeout_ms, 1500);
    assert_eq!(c.wall_us, 42);
    assert_eq!(c.stdout_bytes, 12);
    assert_eq!(c.stderr_bytes, 0);
    assert_eq!(c.stderr_preview, None);
    assert_eq!(c.error, None);
    assert_eq!(c.error_kind, None);
}

#[test]
fn describe_check_reports_each_failure() {
    let c = baseline_describe_check(&run(Some(0), "plain text", "", false), 10);
    assert!(!c.success);
    assert_eq!(c.error, Some("baseline describe stdout was not a JSON object".to_string()));
    assert_eq!(c.error_kind, Some("invalid_describe_output".to_string()));

    let c = baseline_describe_check(&run(Some(0), "", "", false), 10);
    assert_eq!(c.error, Some("baseline describe produced no stdout".to_string()));
    assert_eq!(c.error_kind, Some("empty_describe_output".to_string()));

    let c = baseline_describe_check(&run(Some(3), "{}", "boom", false), 10);
    assert!(!c.valid_json_object);
    assert_eq!(c.error, Some("baseline describe exited with status Some(3)".to_string()));
    assert_eq!(c.stderr_preview, Some("boom".to_string()));
    assert_eq!(c.stderr_bytes, 4);

    let c = baseline_describe_check(&run(Some(0), "{}", "", true), 10);
    assert!(!c.valid_json_object);
    assert_eq!(c.error, Some("baseline describe timed out".to_string()));
    assert_eq!(c.error_kind, Some("timeout".to_string()));
}

#[test]
fn describe_check_of_a_missing_program() {
    let c = describe_spawn_failed_check("/opt/none", "No such file or directory", 7);
    assert!(!c.success);
    assert_eq!(c.timeout_ms, 7);
    assert_eq!(c.error, Some("/opt/none: No such file or directory".to_string()));
    assert_eq!(c.error_kind, Some("spawn_failed".to_string()));
}

fn result(name: &str, described: bool, smoke: Option<bool>) -> BaselineCheckResult {
    let stdout = if described { "{}" } else { "" };
    let describe: BaselineDescribeCheck = baseline_describe_check(&run(Some(0), stdout, "", false), 10);
    let smoke = smoke.map(|passed| {
        let mut s = invalid_smoke_target_check("x", 10);
        s.success = passed;
        s
    });
    BaselineCheckResult {
        name: name.to_string(),
        command: format!("/bin/{name}"),
        describe,
        smoke,
    }
}

#[test]
fn baseline_check_counts_probes() {
    let o = baseline_check_output(
        vec![result("a", true, Some(true)), result("b", false, Some(false)), result("c", true, Some(true))],
        true,
        Some("corpus".to_string()),
        Some(4),
    );
    assert_eq!(o.baseline_count, 3);
    assert_eq!(o.describe_success_count, 2);
    assert!(!o.all_described);
    assert_eq!(o.smoke_document_count, Some(4));
    assert_eq!(o.smoke_success_count, Some(2));
    assert_eq!(o.all_smoke_passed, Some(false));
    assert_eq!(
        baseline_check_error(&o),
        Some("baseline-check strict failed: 2/3 baseline describe probe(s) passed".to_string())
    );
}

#[test]
fn baseline_check_smoke_failures_fail_strict_runs_only() {
    let results = || vec![result("a", true, Some(true)), result("b", true, Some(false))];
    let strict = baseline_check_output(results(), true, Some("doc.pdf".to_string()), Some(1));
    assert!(strict.all_described);
    assert_eq!(
        baseline_check_strict_error(&strict),
        Some("baseline-check strict failed: 1/2 baseline smoke probe(s) passed".to_string())
    );
    let lax = baseline_check_output(results(), false, Some("doc.pdf".to_string()), Some(1));
    assert_eq!(baseline_check_error(&lax), None);
}

#[test]
fn baseline_check_without_smoke_has_no_smoke_counts() {
    let o = baseline_check_output(vec![result("a", true, None)], true, None, Some(9));
    assert_eq!(o.smoke_document_count, None);
    assert_eq!(o.smoke_success_count, None);
    assert_eq!(o.all_smoke_passed, None);
    assert!(o.all_described);
    assert_eq!(baseline_check_error(&o), None);
}

#[test]
fn baseline_check_needs_a_baseline() {
    let o = baseline_check_output(Vec::new(), false, None, None);
    assert!(!o.all_described);
    assert_eq!(
        baseline_check_error(&o),
        Some("baseline-check requires at least one --baseline".to_string())
    );
}
