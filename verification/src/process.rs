//! What the tool reads from the output of an external program: how its exit
//! is classified, whether its error output names a missing dependency, and
//! the line and word counts and preview of what it printed.
use vstd::prelude::*;

use crate::numbers::{decimal, decimal_chars};
use crate::text::{
    append_chars, ascii_lower, chars_of, contains_chars, is_ascii_upper_char, lines_chars,
    lines_of, lit, seq_contains, split_whitespace, split_ws, string_of,
};
use crate::unicode::{from_utf8_lossy, utf8_lossy};

verus! {

broadcast use crate::views::lemma_char_vec_deep_view;

/// How an external program ended: its exit code, when it exited rather than
/// being killed by a signal, and what it wrote to its two streams.
pub struct ProcessOutcome {
    pub exit_code: Option<i32>,
    pub stdout: Vec<u8>,
    pub stderr: Vec<u8>,
}

impl ProcessOutcome {
    /// Success is an exit with code zero (`ExitStatus::success`).
    pub open spec fn succeeded(&self) -> bool {
        self.exit_code == Some(0i32)
    }

    pub fn success(&self) -> (b: bool)
        ensures
            b == self.succeeded(),
    {
        match self.exit_code {
            Some(c) => c == 0,
            None => false,
        }
    }
}

// ---------------------------------------------------------------------------
// Text of numbers
// ---------------------------------------------------------------------------

/// A signed number in decimal, with a leading `-` when it is negative.
pub open spec fn signed_decimal(n: int) -> Seq<char> {
    if n < 0 {
        "-"@ + decimal((-n) as nat)
    } else {
        decimal(n as nat)
    }
}

/// The debug form of an optional exit code: `Some(<code>)` or `None`.
pub open spec fn debug_exit_code(code: Option<i32>) -> Seq<char> {
    match code {
        Some(c) => "Some("@ + signed_decimal(c as int) + ")"@,
        None => "None"@,
    }
}

fn signed_decimal_chars(n: i32) -> (r: Vec<char>)
    ensures
        r@ == signed_decimal(n as int),
{
    if n < 0 {
        let mut out = lit("-");
        let magnitude: u64 = if n == i32::MIN {
            2147483648u64
        } else {
            (-n) as u64
        };
        let digits = decimal_chars(magnitude);
        append_chars(&mut out, &digits);
        out
    } else {
        decimal_chars(n as u64)
    }
}

pub(crate) fn debug_exit_code_chars(code: Option<i32>) -> (r: Vec<char>)
    ensures
        r@ == debug_exit_code(code),
{
    match code {
        Some(c) => {
            let mut out = lit("Some(");
            let digits = signed_decimal_chars(c);
            append_chars(&mut out, &digits);
            let close = lit(")");
            append_chars(&mut out, &close);
            out
        },
        None => lit("None"),
    }
}

// ---------------------------------------------------------------------------
// Classifying an exit
// ---------------------------------------------------------------------------

/// Why a baseline's smoke run failed, if it did.
pub fn baseline_smoke_error(output: &ProcessOutcome, timed_out: bool) -> (r: Option<String>)
    ensures
        match r {
            Some(s) => s@ == (if timed_out {
                "baseline smoke timed out"@
            } else {
                "baseline smoke exited with status "@ + debug_exit_code(output.exit_code)
            }) && (timed_out || !output.succeeded()),
            None => !timed_out && output.succeeded(),
        },
{
    if timed_out {
        Some("baseline smoke timed out".to_string())
    } else if !output.success() {
        let mut msg = lit("baseline smoke exited with status ");
        let code = debug_exit_code_chars(output.exit_code);
        append_chars(&mut msg, &code);
        Some(string_of(&msg))
    } else {
        None
    }
}

/// The error output, decoded and with ASCII letters lower-cased.
pub open spec fn lowered_stderr(stderr: Seq<u8>) -> Seq<char> {
    ascii_lowercase(utf8_lossy(stderr))
}

/// `str::to_ascii_lowercase`.
pub open spec fn ascii_lowercase(s: Seq<char>) -> Seq<char> {
    Seq::new(s.len(), |i: int| ascii_lower(s[i]))
}

/// The phrases by which a program or the OCR engine reports that something
/// it needs is not installed.
pub open spec fn mentions_missing_dependency(text: Seq<char>) -> bool {
    ||| seq_contains(text, "command not found"@)
    ||| seq_contains(text, "no such file or directory"@)
    ||| seq_contains(text, "error opening data file"@)
    ||| seq_contains(text, "tessdata_prefix"@)
    ||| seq_contains(text, "failed loading language"@)
    ||| seq_contains(text, "couldn't load any languages"@)
}

pub(crate) fn ascii_lowercase_chars(s: &Vec<char>) -> (r: Vec<char>)
    ensures
        r@ == ascii_lowercase(s@),
{
    let mut out: Vec<char> = Vec::new();
    let mut i: usize = 0;
    while i < s.len()
        invariant
            i <= s.len(),
            out@ == ascii_lowercase(s@).take(i as int),
        decreases s.len() - i,
    {
        let c = s[i];
        let l = if 'A' <= c && c <= 'Z' {
            let cu = c as u32;
            let b = cu as u8;
            assert(b as u32 == cu) by (bit_vector)
                requires
                    65 <= cu <= 90,
                    b == cu as u8,
            ;
            (b + 32) as char
        } else {
            c
        };
        assert(l == ascii_lower(c));
        out.push(l);
        i += 1;
        assert(out@ =~= ascii_lowercase(s@).take(i as int));
    }
    assert(ascii_lowercase(s@).take(s.len() as int) =~= ascii_lowercase(s@));
    out
}

/// Whether a program's error output says that a dependency is missing.
pub fn process_stderr_indicates_missing_dependency(stderr: &[u8]) -> (r: bool)
    ensures
        r == mentions_missing_dependency(lowered_stderr(stderr@)),
{
    let decoded = from_utf8_lossy(stderr);
    let v = chars_of(decoded.as_str());
    let text = ascii_lowercase_chars(&v);
    contains_chars(&text, &lit("command not found")) || contains_chars(
        &text,
        &lit("no such file or directory"),
    ) || contains_chars(&text, &lit("error opening data file")) || contains_chars(
        &text,
        &lit("tessdata_prefix"),
    ) || contains_chars(&text, &lit("failed loading language")) || contains_chars(
        &text,
        &lit("couldn't load any languages"),
    )
}

/// The kind of failure of a baseline run: a timeout, a missing dependency
/// (exit code 127, or a failure whose error output says so), or a failed
/// execution.
pub open spec fn process_error_kind(output: ProcessOutcome, timed_out: bool) -> Option<Seq<char>> {
    if timed_out {
        Some("timeout"@)
    } else if output.exit_code == Some(127i32) || (!output.succeeded()
        && mentions_missing_dependency(lowered_stderr(output.stderr@))) {
        Some("missing_dependency"@)
    } else if !output.succeeded() {
        Some("execution_failed"@)
    } else {
        None
    }
}

pub fn baseline_process_error_kind(output: &ProcessOutcome, timed_out: bool) -> (r: Option<
    &'static str,
>)
    ensures
        match r {
            Some(s) => process_error_kind(*output, timed_out) == Some(s@),
            None => process_error_kind(*output, timed_out) is None,
        },
{
    if timed_out {
        Some("timeout")
    } else if output.exit_code == Some(127i32) || (!output.success()
        && process_stderr_indicates_missing_dependency(output.stderr.as_slice())) {
        Some("missing_dependency")
    } else if !output.success() {
        Some("execution_failed")
    } else {
        None
    }
}

// ---------------------------------------------------------------------------
// What the program printed
// ---------------------------------------------------------------------------

/// The number of lines of the decoded output (`str::lines`).
pub fn stdout_line_count(stdout: &[u8]) -> (n: usize)
    ensures
        n == lines_of(utf8_lossy(stdout@)).len(),
{
    let decoded = from_utf8_lossy(stdout);
    let v = chars_of(decoded.as_str());
    let lines = lines_chars(&v);
    proof {
        crate::views::lemma_vec_dview(lines);
    }
    lines.len()
}

/// The number of whitespace-separated words of the decoded output.
pub fn stdout_word_count(stdout: &[u8]) -> (n: usize)
    ensures
        n == split_whitespace(utf8_lossy(stdout@)).len(),
{
    let decoded = from_utf8_lossy(stdout);
    let v = chars_of(decoded.as_str());
    let words = split_ws(&v);
    proof {
        crate::views::lemma_vec_dview(words);
    }
    words.len()
}

/// The first 500 characters of the decoded error output, when there is any.
pub fn stderr_preview(stderr: &[u8]) -> (r: Option<String>)
    ensures
        match r {
            Some(s) => stderr@.len() > 0 && s@ == utf8_lossy(stderr@).take(
                if utf8_lossy(stderr@).len() < 500 {
                    utf8_lossy(stderr@).len() as int
                } else {
                    500int
                },
            ),
            None => stderr@.len() == 0,
        },
{
    if stderr.len() == 0 {
        return None;
    }
    let decoded = from_utf8_lossy(stderr);
    let v = chars_of(decoded.as_str());
    let n: usize = if v.len() < 500 {
        v.len()
    } else {
        500
    };
    let head = crate::text::subvec(&v, 0, n);
    assert(head@ =~= v@.take(n as int));
    Some(string_of(&head))
}

/// A duration in whole milliseconds, as a `u64` (saturating).
pub fn duration_millis(millis: u128) -> (r: u64)
    ensures
        r == (if millis > u64::MAX as u128 {
            u64::MAX as u128
        } else {
            millis
        }),
{
    if millis > u64::MAX as u128 {
        u64::MAX
    } else {
        millis as u64
    }
}

} // verus!
