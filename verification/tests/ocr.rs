use glyphrush::metrics::ExtractionOptions;
use glyphrush::ocr::{
    ocr_check_error, ocr_check_route, ocr_command_check_error, ocr_command_check_report,
    ocr_command_text, ocr_http_check_report, ocr_http_output_body, ocr_load_source,
    ocr_missing_adapter_check_output, ocr_render_backend_required_check_output,
    ocr_sidecar_check_report, ocr_text_if_present, run_configuration, OcrCheckRoute,
    OcrCommandInput, OcrHttpResponse, OcrLoadSource, OcrOptions, TimedProcessOutcome,
};
use glyphrush::process::ProcessOutcome;

fn options(
    sidecar: Option<&str>,
    command: Option<&str>,
    http: Option<&str>,
    input: OcrCommandInput,
) -> Result<OcrOptions, String> {
    OcrOptions::new(sidecar, command, http, input, 1500)
}

fn run(code: Option<i32>, stdout: &str, stderr: &str, timed_out: bool) -> TimedProcessOutcome {
    TimedProcessOutcome {
        output: ProcessOutcome {
            exit_code: code,
            stdout: stdout.as_bytes().to_vec(),
            stderr: stderr.as_bytes().to_vec(),
        },
        timed_out,
        wall_us: 42,
    }
}

#[test]
fn options_allow_one_adapter_at_most() {
    let o = options(Some("dir"), None, None, OcrCommandInput::PdfPage).unwrap();
    assert_eq!(o.sidecar.as_deref(), Some("dir"));
    assert_eq!(o.timeout_ms, 1500);
    assert_eq!(
        options(Some("dir"), Some("cmd"), None, OcrCommandInput::PdfPage).err().unwrap(),
        "choose only one of --ocr-sidecar, --ocr-command, or --ocr-http-url"
    );
    assert_eq!(
        options(Some("dir"), None, None, OcrCommandInput::RenderedImage).err().unwrap(),
        "--ocr-command-input requires --ocr-command or --ocr-http-url"
    );
    assert!(options(None, None, Some("http://h/"), OcrCommandInput::RenderedImage).is_ok());
    assert_eq!(OcrCommandInput::default(), OcrCommandInput::PdfPage);
    assert_eq!(OcrCommandInput::RenderedImage.debug_name(), "RenderedImage");
}

#[test]
fn checks_and_loads_route_to_one_adapter() {
    let cmd = options(None, Some("cmd"), None, OcrCommandInput::PdfPage).unwrap();
    assert_eq!(ocr_check_route(&cmd), OcrCheckRoute::Command);
    let img = options(None, Some("cmd"), None, OcrCommandInput::RenderedImage).unwrap();
    assert_eq!(ocr_check_route(&img), OcrCheckRoute::RenderedImage);
    assert_eq!(ocr_check_route(&OcrOptions::none()), OcrCheckRoute::MissingAdapter);
    assert_eq!(ocr_load_source(false, &cmd), Ok(OcrLoadSource::Skip));
    assert_eq!(ocr_load_source(true, &cmd), Ok(OcrLoadSource::Command));
    assert_eq!(
        ocr_load_source(true, &img).err().unwrap(),
        "rendered-image OCR command input requires a rendering backend"
    );
    assert_eq!(ocr_load_source(true, &OcrOptions::none()), Ok(OcrLoadSource::Skip));
    assert_eq!(ocr_text_if_present(String::new()), None);
    assert_eq!(ocr_text_if_present("t".to_string()), Some("t".to_string()));
}

#[test]
fn command_text_reports_timeouts_and_failures() {
    assert_eq!(
        ocr_command_text("ocr.sh", 3, 1500, &run(None, "", "", true)).err().unwrap(),
        "OCR command timed out after 1500 ms for page 3: ocr.sh"
    );
    assert_eq!(
        ocr_command_text("ocr.sh", 3, 1500, &run(Some(1), "", "", false)).err().unwrap(),
        "OCR command ocr.sh failed for page 3: no stderr"
    );
    assert_eq!(
        ocr_command_text("ocr.sh", 3, 1500, &run(Some(1), "", "bad", false)).err().unwrap(),
        "OCR command ocr.sh failed for page 3: bad"
    );
    assert_eq!(ocr_command_text("ocr.sh", 3, 1500, &run(Some(0), "text", "", false)).unwrap(), "text");
}

#[test]
fn command_checks_pass_only_with_output() {
    let ok = ocr_command_check_report("a.pdf", 0, "ocr.sh", 1500, true, &Ok(run(Some(0), "hi there\n", "", false)));
    assert!(ok.passed && ok.success && !ok.empty_output);
    assert_eq!(
        ok.stdout_sha256.as_deref(),
        Some("c641344867e9806fadfd219f25b62b97c94db0eed04a1d79e93676533cfb782b")
    );
    assert_eq!((ok.stdout_line_count, ok.stdout_word_count, ok.output_bytes), (1, 2, 9));
    assert_eq!(ok.error, None);
    assert_eq!(ocr_check_error(&ok), None);
    let empty = ocr_command_check_report("a.pdf", 0, "ocr.sh", 1500, true, &Ok(run(Some(0), "", "", false)));
    assert!(!empty.passed && empty.empty_output);
    assert_eq!(empty.error_kind.as_deref(), Some("empty_output"));
    assert_eq!(empty.error.as_deref(), Some("OCR command output was empty"));
    assert_eq!(ocr_check_error(&empty), Some("ocr-check strict failed: empty_output".to_string()));
    let failed = ocr_command_check_report("a.pdf", 0, "ocr.sh", 1500, false, &Ok(run(Some(127), "", "", false)));
    assert_eq!(failed.error_kind.as_deref(), Some("missing_dependency"));
    assert_eq!(failed.error.as_deref(), Some("OCR command exited with status Some(127)"));
    assert_eq!(ocr_check_error(&failed), None);
    let spawn = ocr_command_check_report("a.pdf", 0, "ocr.sh", 1500, true, &Err("not found".to_string()));
    assert_eq!(spawn.error.as_deref(), Some("ocr.sh: not found"));
    assert_eq!(spawn.error_kind.as_deref(), Some("spawn_failed"));
    assert_eq!(
        ocr_command_check_error(&run(Some(0), "", "", false).output, true, false),
        Some("OCR command timed out".to_string())
    );
}

#[test]
fn sidecar_and_http_checks() {
    let read = ocr_sidecar_check_report("a.pdf", 1, "dir/a.p000001.txt", 10, false, 7, &Ok(b"x y".to_vec()));
    assert!(read.passed && read.success);
    assert_eq!(read.stdout_word_count, 2);
    assert_eq!(
        read.stdout_sha256.as_deref(),
        Some("887fcea6a80333c6c02ae7e79735f0edad8d811f0b61431495f796f4bf6a7c19")
    );
    let missing = ocr_sidecar_check_report("a.pdf", 1, "dir/a.p000001.txt", 10, false, 7, &Err("gone".to_string()));
    assert_eq!(missing.error.as_deref(), Some("read OCR sidecar dir/a.p000001.txt: gone"));
    assert_eq!(missing.error_kind.as_deref(), Some("sidecar_read_failed"));
    let response = OcrHttpResponse {
        status_code: Some(200),
        content_type: Some("application/json".to_string()),
        body: br#"{"text":"hello"}"#.to_vec(),
        wall_us: 5,
    };
    let decoded = Some(Ok("hello".to_string()));
    assert_eq!(ocr_http_output_body(&response, &decoded), b"hello".to_vec());
    let ok = ocr_http_check_report("a.pdf", 0, "http://h/", 10, true, &Ok(response), &decoded);
    assert!(ok.passed);
    assert_eq!(ok.exit_status, Some(200));
    let bad = OcrHttpResponse { status_code: Some(500), content_type: None, body: b"err".to_vec(), wall_us: 5 };
    let failed = ocr_http_check_report("a.pdf", 0, "http://h/", 10, true, &Ok(bad), &None);
    assert_eq!(failed.error.as_deref(), Some("OCR HTTP endpoint returned status 500"));
    assert_eq!(failed.error_kind.as_deref(), Some("http_status_failed"));
    assert_eq!(failed.output_bytes, 3);
    let timeout = ocr_http_check_report("a.pdf", 0, "http://h/", 10, true, &Err("read timed out".to_string()), &None);
    assert!(timeout.timed_out);
    assert_eq!(timeout.error_kind.as_deref(), Some("timeout"));
}

#[test]
fn special_reports_and_their_errors() {
    let img = options(None, Some("cmd"), None, OcrCommandInput::RenderedImage).unwrap();
    let out = ocr_render_backend_required_check_output("a.pdf", 2, &img, false);
    assert_eq!(out.adapter, "ocr_command_rendered_image");
    assert_eq!(out.command.as_deref(), Some("cmd"));
    assert_eq!(
        ocr_check_error(&out),
        Some("rendered-image OCR command input requires a rendering backend".to_string())
    );
    let none = ocr_missing_adapter_check_output("a.pdf", 2, &OcrOptions::none(), false);
    assert_eq!(
        ocr_check_error(&none),
        Some("ocr-check requires --ocr-sidecar, --ocr-command, or --ocr-http-url".to_string())
    );
    let cfg = run_configuration(&img, ExtractionOptions { span_geometry: true, page_jobs: 2 });
    assert!(cfg.span_geometry && cfg.ocr_command && !cfg.ocr_sidecar && !cfg.ocr_http_url);
    assert_eq!(cfg.ocr_command_input, OcrCommandInput::RenderedImage);
    assert_eq!(cfg.ocr_timeout_ms, 1500);
}
