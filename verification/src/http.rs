//! The small HTTP/1.1 client of the OCR adapter, without its socket: parsing
//! `http://` URLs, framing the request head, splitting a response into
//! status code, content type and body, and classifying failures.
use vstd::prelude::*;

use crate::numbers::{
    decimal, decimal_chars, parse_int_error, parse_int_error_chars, parse_unsigned,
    parse_unsigned_chars,
};
use crate::process::{ascii_lowercase, ascii_lowercase_chars};
use crate::text::{
    append_chars, chars_eq, chars_of, contains_char, contains_chars, lines_chars, lines_of, lit,
    rsplit_once, rsplit_once_char, seq_contains, split_once, split_once_char, split_whitespace,
    split_ws, starts_with, starts_with_chars, string_of, subvec, trim, trim_ws,
};
use crate::unicode::{from_utf8_lossy, utf8_lossy};

verus! {

broadcast use crate::views::lemma_char_vec_deep_view;

// ---------------------------------------------------------------------------
// URLs
// ---------------------------------------------------------------------------

/// An `http://host[:port]/path` URL taken apart.
pub struct ParsedHttpUrl {
    pub host: String,
    pub port: u16,
    pub path: String,
}

impl DeepView for ParsedHttpUrl {
    type V = (Seq<char>, u16, Seq<char>);

    open spec fn deep_view(&self) -> (Seq<char>, u16, Seq<char>) {
        (self.host@, self.port, self.path@)
    }
}

/// What an OCR endpoint URL parses to: host, port (80 when none is given)
/// and path (always starting with `/`), or the reason it is refused.
pub open spec fn http_url_parse(u: Seq<char>) -> Result<(Seq<char>, u16, Seq<char>), Seq<char>> {
    if !starts_with(u, "http://"@) {
        Err("OCR HTTP URL must start with http://"@)
    } else {
        let rest = u.skip("http://"@.len() as int);
        let authority = match split_once(rest, '/') {
            Some((a, p)) => a,
            None => rest,
        };
        let path = match split_once(rest, '/') {
            Some((a, p)) => p,
            None => Seq::<char>::empty(),
        };
        if authority.len() == 0 {
            Err("OCR HTTP URL missing host"@)
        } else if authority.contains('@') {
            Err("OCR HTTP URL userinfo is not supported"@)
        } else {
            match rsplit_once(authority, ':') {
                Some((h, p)) => match parse_unsigned(p, 65535) {
                    None => Err("parse OCR HTTP URL port "@ + p + ": "@ + parse_int_error(p)),
                    Some(port) => if h.len() == 0 {
                        Err("OCR HTTP URL missing host"@)
                    } else {
                        Ok((h, port as u16, "/"@ + path))
                    },
                },
                None => Ok((authority, 80u16, "/"@ + path)),
            }
        }
    }
}

pub fn parse_http_url(http_url: &str) -> (r: Result<ParsedHttpUrl, String>)
    ensures
        match r {
            Ok(u) => http_url_parse(http_url@) == Ok::<(Seq<char>, u16, Seq<char>), Seq<char>>(
                u.deep_view(),
            ),
            Err(e) => http_url_parse(http_url@) == Err::<(Seq<char>, u16, Seq<char>), Seq<char>>(
                e@,
            ),
        },
{
    proof {
        reveal_strlit("http://");
    }
    let u = chars_of(http_url);
    let scheme = lit("http://");
    if !starts_with_chars(&u, &scheme) {
        return Err("OCR HTTP URL must start with http://".to_string());
    }
    let rest = subvec(&u, 7, u.len());
    assert(rest@ =~= u@.skip(7));
    let (authority, path) = match split_once_char(&rest, '/') {
        Some((a, p)) => (a, p),
        None => (subvec(&rest, 0, rest.len()), Vec::new()),
    };
    assert(authority@ =~= (match split_once(rest@, '/') {
        Some((a, p)) => a,
        None => rest@,
    }));
    assert(path@ =~= (match split_once(rest@, '/') {
        Some((a, p)) => p,
        None => Seq::<char>::empty(),
    }));
    if authority.len() == 0 {
        return Err("OCR HTTP URL missing host".to_string());
    }
    if contains_char(&authority, '@') {
        return Err("OCR HTTP URL userinfo is not supported".to_string());
    }
    let mut full_path = lit("/");
    append_chars(&mut full_path, &path);
    match rsplit_once_char(&authority, ':') {
        Some((h, p)) => match parse_unsigned_chars(&p, 65535) {
            None => {
                let mut msg = lit("parse OCR HTTP URL port ");
                append_chars(&mut msg, &p);
                let sep = lit(": ");
                append_chars(&mut msg, &sep);
                let cause = parse_int_error_chars(&p);
                append_chars(&mut msg, &cause);
                Err(string_of(&msg))
            },
            Some(port) => {
                if h.len() == 0 {
                    Err("OCR HTTP URL missing host".to_string())
                } else {
                    Ok(
                        ParsedHttpUrl {
                            host: string_of(&h),
                            port: port as u16,
                            path: string_of(&full_path),
                        },
                    )
                }
            },
        },
        None => Ok(
            ParsedHttpUrl { host: string_of(&authority), port: 80, path: string_of(&full_path) },
        ),
    }
}

/// The head of the POST request that carries a JSON body of `body_len`
/// bytes to the endpoint.
pub open spec fn request_head(path: Seq<char>, host: Seq<char>, body_len: nat) -> Seq<char> {
    "POST "@ + path + " HTTP/1.1\r\nHost: "@ + host
        + "\r\nContent-Type: application/json\r\nContent-Length: "@ + decimal(body_len)
        + "\r\nConnection: close\r\n\r\n"@
}

pub fn ocr_http_request_head(url: &ParsedHttpUrl, body_len: usize) -> (r: String)
    ensures
        r@ == request_head(url.path@, url.host@, body_len as nat),
{
    let mut out = lit("POST ");
    let path = chars_of(url.path.as_str());
    append_chars(&mut out, &path);
    let a = lit(" HTTP/1.1\r\nHost: ");
    append_chars(&mut out, &a);
    let host = chars_of(url.host.as_str());
    append_chars(&mut out, &host);
    let b = lit("\r\nContent-Type: application/json\r\nContent-Length: ");
    append_chars(&mut out, &b);
    let n = decimal_chars(body_len as u64);
    append_chars(&mut out, &n);
    let c = lit("\r\nConnection: close\r\n\r\n");
    append_chars(&mut out, &c);
    string_of(&out)
}

// ---------------------------------------------------------------------------
// Responses
// ---------------------------------------------------------------------------

/// Whether `\r\n\r\n` starts at `i`.
pub open spec fn blank_line_at(b: Seq<u8>, i: int) -> bool {
    0 <= i && i + 4 <= b.len() && b[i] == 13u8 && b[i + 1] == 10u8 && b[i + 2] == 13u8 && b[i + 3]
        == 10u8
}

/// The first `\r\n\r\n` at or after `i`.
pub open spec fn blank_line_from(b: Seq<u8>, i: int) -> Option<int>
    decreases b.len() - i,
{
    if i < 0 || i + 4 > b.len() {
        None
    } else if blank_line_at(b, i) {
        Some(i)
    } else {
        blank_line_from(b, i + 1)
    }
}

/// A header line's value when the line names the content type (the name
/// compared without regard to ASCII case), trimmed.
pub open spec fn content_type_value(line: Seq<char>) -> Option<Seq<char>> {
    match split_once(line, ':') {
        Some((n, v)) => if ascii_lowercase(n) == "content-type"@ {
            Some(trim(v))
        } else {
            None
        },
        None => None,
    }
}

/// The value of the first content-type header among the lines.
pub open spec fn content_type_of(lines: Seq<Seq<char>>) -> Option<Seq<char>>
    decreases lines.len(),
{
    if lines.len() == 0 {
        None
    } else {
        match content_type_value(lines[0]) {
            Some(v) => Some(v),
            None => content_type_of(lines.drop_first()),
        }
    }
}

/// What a raw response parses to: the status code, the content type if a
/// header gives one, and the bytes after the blank line; or why it cannot be
/// read.
pub open spec fn http_response_parse(b: Seq<u8>) -> Result<
    (u16, Option<Seq<char>>, Seq<u8>),
    Seq<char>,
> {
    match blank_line_from(b, 0) {
        None => Err("OCR HTTP response missing header terminator"@),
        Some(t) => {
            let end = t + 4;
            let lines = lines_of(utf8_lossy(b.take(end)));
            if lines.len() == 0 {
                Err("OCR HTTP response missing status line"@)
            } else {
                let words = split_whitespace(lines[0]);
                if words.len() < 2 {
                    Err("OCR HTTP response missing status code"@)
                } else {
                    match parse_unsigned(words[1], 65535) {
                        None => Err(
                            "parse OCR HTTP response status code: "@ + parse_int_error(words[1]),
                        ),
                        Some(code) => Ok((code as u16, content_type_of(lines), b.skip(end))),
                    }
                }
            }
        },
    }
}

fn find_blank_line(b: &[u8]) -> (r: Option<usize>)
    ensures
        r matches Some(u) ==> blank_line_from(b@, 0) == Some(u as int) && u + 4 <= b@.len(),
        r is None ==> blank_line_from(b@, 0) is None,
{
    let mut i: usize = 0;
    while b.len() - i >= 4 && !(b[i] == 13 && b[i + 1] == 10 && b[i + 2] == 13 && b[i + 3] == 10)
        invariant
            i <= b.len(),
            blank_line_from(b@, 0) == blank_line_from(b@, i as int),
        decreases b.len() - i,
    {
        i += 1;
    }
    if b.len() - i >= 4 {
        Some(i)
    } else {
        None
    }
}

fn content_type_value_exec(line: &Vec<char>) -> (r: Option<String>)
    ensures
        match content_type_value(line@) {
            Some(v) => r matches Some(x) && x@ == v,
            None => r is None,
        },
{
    match split_once_char(line, ':') {
        Some((n, v)) => {
            let lower = ascii_lowercase_chars(&n);
            let name = lit("content-type");
            if chars_eq(&lower, &name) {
                Some(string_of(&trim_ws(&v)))
            } else {
                None
            }
        },
        None => None,
    }
}

fn content_type_exec(lines: &Vec<Vec<char>>) -> (r: Option<String>)
    ensures
        match content_type_of(lines.deep_view()) {
            Some(v) => r matches Some(x) && x@ == v,
            None => r is None,
        },
{
    let ghost ls = lines.deep_view();
    proof {
        crate::views::lemma_vec_dview(*lines);
    }
    let mut i: usize = 0;
    assert(ls.skip(0) =~= ls);
    while i < lines.len()
        invariant
            i <= lines.len(),
            ls == lines.deep_view(),
            ls.len() == lines.len(),
            forall|j: int| 0 <= j < lines.len() ==> #[trigger] ls[j] == lines@[j]@,
            content_type_of(ls) == content_type_of(ls.skip(i as int)),
        decreases lines.len() - i,
    {
        let found = content_type_value_exec(&lines[i]);
        proof {
            assert(ls.skip(i as int)[0] == ls[i as int]);
            assert(ls.skip(i as int).drop_first() =~= ls.skip(i + 1));
        }
        if found.is_some() {
            return found;
        }
        i += 1;
    }
    assert(ls.skip(lines.len() as int) =~= Seq::<Seq<char>>::empty());
    None
}

/// The status code, content type and body of a raw response.
pub fn parse_http_response(response: &[u8]) -> (r: Result<(u16, Option<String>, Vec<u8>), String>)
    ensures
        match r {
            Ok((code, ct, body)) => http_response_parse(response@) == Ok::<
                (u16, Option<Seq<char>>, Seq<u8>),
                Seq<char>,
            >((code, crate::categories::string_opt_view(ct), body@)),
            Err(e) => http_response_parse(response@) == Err::<
                (u16, Option<Seq<char>>, Seq<u8>),
                Seq<char>,
            >(e@),
        },
{
    let found = find_blank_line(response);
    if found.is_none() {
        return Err("OCR HTTP response missing header terminator".to_string());
    }
    let t = found.unwrap();
    assert(blank_line_from(response@, 0) == Some(t as int));
    let n = response.len();
    assert(t + 4 <= n);
    let end = t + 4;
    let head = slice_bytes(response, 0, end);
    assert(head@ =~= response@.take(end as int));
    let headers = from_utf8_lossy(head.as_slice());
    let hv = chars_of(headers.as_str());
    let lines = lines_chars(&hv);
    proof {
        crate::views::lemma_vec_dview(lines);
    }
    if lines.len() == 0 {
        return Err("OCR HTTP response missing status line".to_string());
    }
    let words = split_ws(&lines[0]);
    proof {
        crate::views::lemma_vec_dview(words);
    }
    if words.len() < 2 {
        return Err("OCR HTTP response missing status code".to_string());
    }
    match parse_unsigned_chars(&words[1], 65535) {
        None => {
            let mut msg = lit("parse OCR HTTP response status code: ");
            let cause = parse_int_error_chars(&words[1]);
            append_chars(&mut msg, &cause);
            Err(string_of(&msg))
        },
        Some(code) => {
            let ct = content_type_exec(&lines);
            let body = slice_bytes(response, end, response.len());
            assert(body@ =~= response@.skip(end as int));
            Ok((code as u16, ct, body))
        },
    }
}

fn slice_bytes(b: &[u8], start: usize, end: usize) -> (r: Vec<u8>)
    requires
        start <= end <= b@.len(),
    ensures
        r@ == b@.subrange(start as int, end as int),
{
    let mut out: Vec<u8> = Vec::new();
    let mut i: usize = start;
    while i < end
        invariant
            start <= i <= end <= b@.len(),
            out@ == b@.subrange(start as int, i as int),
        decreases end - i,
    {
        out.push(b[i]);
        i += 1;
        assert(out@ =~= b@.subrange(start as int, i as int));
    }
    out
}

// ---------------------------------------------------------------------------
// Failures
// ---------------------------------------------------------------------------

/// The kind of a failed OCR request, read from its error text: a timeout, a
/// refused status, or another failure.
pub open spec fn http_error_kind(error: Seq<char>) -> Seq<char> {
    if seq_contains(error, "timed out"@) || seq_contains(error, "would block"@) {
        "timeout"@
    } else if seq_contains(error, "returned status"@) {
        "http_status_failed"@
    } else {
        "http_request_failed"@
    }
}

pub fn ocr_http_error_kind(error: &str) -> (r: &'static str)
    ensures
        r@ == http_error_kind(error@),
{
    let e = chars_of(error);
    if contains_chars(&e, &lit("timed out")) || contains_chars(&e, &lit("would block")) {
        "timeout"
    } else if contains_chars(&e, &lit("returned status")) {
        "http_status_failed"
    } else {
        "http_request_failed"
    }
}

pub open spec fn is_success_status(code: Option<u16>) -> bool {
    match code {
        Some(c) => 200 <= c < 300,
        None => false,
    }
}

/// The error for a response whose status is not a success (a missing
/// status counts as 0).
pub open spec fn status_error(code: Option<u16>) -> Option<Seq<char>> {
    if is_success_status(code) {
        None
    } else {
        Some(
            "OCR HTTP endpoint returned status "@ + decimal(
                match code {
                    Some(c) => c as nat,
                    None => 0nat,
                },
            ),
        )
    }
}

pub fn ocr_http_status_error(status_code: Option<u16>) -> (r: Option<String>)
    ensures
        crate::categories::string_opt_view(r) == status_error(status_code),
{
    let code: u16 = match status_code {
        Some(c) => c,
        None => 0,
    };
    if 200 <= code && code < 300 {
        return None;
    }
    let mut msg = lit("OCR HTTP endpoint returned status ");
    let digits = decimal_chars(code as u64);
    append_chars(&mut msg, &digits);
    Some(string_of(&msg))
}

/// Whether a response's body is JSON: its content type mentions
/// `application/json`, in any ASCII case.
pub open spec fn is_json_content(content_type: Option<Seq<char>>) -> bool {
    match content_type {
        Some(c) => seq_contains(ascii_lowercase(c), "application/json"@),
        None => false,
    }
}

pub fn ocr_http_response_is_json(content_type: Option<&str>) -> (r: bool)
    ensures
        r == is_json_content(crate::categories::str_opt_view(content_type)),
{
    match content_type {
        None => false,
        Some(c) => {
            let v = chars_of(c);
            let lower = ascii_lowercase_chars(&v);
            contains_chars(&lower, &lit("application/json"))
        },
    }
}

/// A URL written from a host, a port and a path parses back to them, when
/// the host is not empty and holds no `:`, `/` or `@`, and the path starts
/// with `/`.
pub proof fn lemma_http_url_round_trip(host: Seq<char>, port: u16, path: Seq<char>)
    requires
        host.len() > 0,
        !host.contains(':'),
        !host.contains('/'),
        !host.contains('@'),
        path.len() > 0,
        path[0] == '/',
    ensures
        http_url_parse("http://"@ + host + ":"@ + decimal(port as nat) + path) == Ok::<
            (Seq<char>, u16, Seq<char>),
            Seq<char>,
        >((host, port, path)),
{
    reveal_strlit("http://");
    reveal_strlit(":");
    reveal_strlit("/");
    let d = decimal(port as nat);
    crate::numbers::lemma_decimal_parses_back(port as nat, 65535);
    let u = "http://"@ + host + ":"@ + d + path;
    assert(u.subrange(0, 7) =~= "http://"@);
    assert(starts_with(u, "http://"@));
    let rest = u.skip(7);
    let a = host + ":"@ + d;
    assert(rest =~= a + path);
    let k = a.len() as int;
    // The first `/` after the scheme starts the path.
    assert(rest[k] == '/');
    assert forall|j: int| 0 <= j < k implies rest[j] != '/' by {
        assert(rest[j] == a[j]);
        if j < host.len() {
            assert(a[j] == host[j]);
            if host[j] == '/' {
                assert(host.contains('/'));
            }
        } else if j > host.len() {
            assert(a[j] == d[j - host.len() - 1]);
            assert(crate::text::is_ascii_digit_char(d[j - host.len() - 1]));
        }
    }
    rest.index_of_first_ensures('/');
    assert(rest.contains('/'));
    let i = rest.index_of_first('/').unwrap();
    assert(i == k) by {
        if i < k {
            assert(rest[i] != '/');
        }
        if k < i {
            assert(rest[k] == '/');
        }
    }
    assert(rest.take(k) =~= a);
    assert(rest.skip(k + 1) =~= path.skip(1));
    // The authority holds no `@`.
    assert(!a.contains('@')) by {
        if a.contains('@') {
            let j = choose|j: int| 0 <= j < a.len() && a[j] == '@';
            if j < host.len() {
                assert(host[j] == '@');
                assert(host.contains('@'));
            } else if j > host.len() {
                assert(crate::text::is_ascii_digit_char(d[j - host.len() - 1]));
            }
        }
    }
    // The last `:` of the authority ends the host.
    let h = host.len() as int;
    assert(a[h] == ':');
    assert forall|j: int| h < j < a.len() implies a[j] != ':' by {
        assert(a[j] == d[j - h - 1]);
        assert(crate::text::is_ascii_digit_char(d[j - h - 1]));
    }
    a.index_of_last_ensures(':');
    assert(a.contains(':'));
    let m = a.index_of_last(':').unwrap();
    assert(m == h) by {
        if m < h {
            assert(a[h] == ':');
        }
        if h < m {
            assert(a[m] != ':');
        }
    }
    assert(a.take(h) =~= host);
    assert(a.skip(h + 1) =~= d);
    assert("/"@ + path.skip(1) =~= path);
}

} // verus!
