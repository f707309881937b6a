use glyphrush::http::{
    ocr_http_error_kind, ocr_http_request_head, ocr_http_response_is_json, ocr_http_status_error,
    parse_http_response, parse_http_url, ParsedHttpUrl,
};

fn parts(u: &ParsedHttpUrl) -> (String, u16, String) {
    (u.host.clone(), u.port, u.path.clone())
}

#[test]
fn urls_give_host_port_and_path() {
    let u = parse_http_url("http://localhost:8080/ocr/page").unwrap();
    assert_eq!(parts(&u), ("localhost".to_string(), 8080, "/ocr/page".to_string()));
    let u = parse_http_url("http://example.org").unwrap();
    assert_eq!(parts(&u), ("example.org".to_string(), 80, "/".to_string()));
}

#[test]
fn bad_urls_are_refused() {
    assert_eq!(parse_http_url("https://x/").err().unwrap(), "OCR HTTP URL must start with http://");
    assert_eq!(parse_http_url("http:///path").err().unwrap(), "OCR HTTP URL missing host");
    assert_eq!(parse_http_url("http://u@h/").err().unwrap(), "OCR HTTP URL userinfo is not supported");
    assert_eq!(parse_http_url("http://:80/").err().unwrap(), "OCR HTTP URL missing host");
    assert_eq!(
        parse_http_url("http://h:x/").err().unwrap(),
        "parse OCR HTTP URL port x: invalid digit found in string"
    );
    assert_eq!(
        parse_http_url("http://h:70000/").err().unwrap(),
        "parse OCR HTTP URL port 70000: number too large to fit in target type"
    );
    assert_eq!(
        parse_http_url("http://h:/").err().unwrap(),
        "parse OCR HTTP URL port : cannot parse integer from empty string"
    );
}

#[test]
fn request_head_frames_a_json_post() {
    let u = parse_http_url("http://h:9/p").unwrap();
    assert_eq!(
        ocr_http_request_head(&u, 12),
        "POST /p HTTP/1.1\r\nHost: h\r\nContent-Type: application/json\r\nContent-Length: 12\r\nConnection: close\r\n\r\n"
    );
}

#[test]
fn responses_split_into_status_type_and_body() {
    let raw = b"HTTP/1.1 200 OK\r\nContent-Type:  text/plain \r\nX: y\r\n\r\nhello";
    let (code, ct, body) = parse_http_response(raw).unwrap();
    assert_eq!(code, 200);
    assert_eq!(ct, Some("text/plain".to_string()));
    assert_eq!(body, b"hello".to_vec());
    let (code, ct, body) = parse_http_response(b"HTTP/1.0 404 Not Found\r\n\r\n").unwrap();
    assert_eq!((code, ct, body.len()), (404, None, 0));
}

#[test]
fn broken_responses_are_refused() {
    assert_eq!(
        parse_http_response(b"HTTP/1.1 200 OK\r\n").err().unwrap(),
        "OCR HTTP response missing header terminator"
    );
    assert_eq!(
        parse_http_response(b"HTTP/1.1\r\n\r\n").err().unwrap(),
        "OCR HTTP response missing status code"
    );
    assert_eq!(
        parse_http_response(b"HTTP/1.1 abc\r\n\r\n").err().unwrap(),
        "parse OCR HTTP response status code: invalid digit found in string"
    );
}

#[test]
fn errors_and_statuses_are_classified() {
    assert_eq!(ocr_http_error_kind("connect: operation timed out"), "timeout");
    assert_eq!(ocr_http_error_kind("read: would block"), "timeout");
    assert_eq!(ocr_http_error_kind("OCR HTTP endpoint returned status 500"), "http_status_failed");
    assert_eq!(ocr_http_error_kind("connection refused"), "http_request_failed");
    assert_eq!(ocr_http_status_error(Some(204)), None);
    assert_eq!(
        ocr_http_status_error(Some(503)),
        Some("OCR HTTP endpoint returned status 503".to_string())
    );
    assert_eq!(
        ocr_http_status_error(None),
        Some("OCR HTTP endpoint returned status 0".to_string())
    );
    assert!(ocr_http_response_is_json(Some("Application/JSON; charset=utf-8")));
    assert!(!ocr_http_response_is_json(Some("text/plain")));
    assert!(!ocr_http_response_is_json(None));
}
