//! OCR adapters: the options that choose one (a sidecar directory, a command
//! or an HTTP endpoint), what each is asked for, and the check reports built
//! from what an adapter gave back.
use vstd::prelude::*;

use crate::categories::{str_opt_view, string_opt_view};
use crate::digest::{sha256_hex, sha256_hex_of};
use crate::http::{is_success_status, status_error};
use crate::numbers::{decimal, decimal_chars};
use crate::process::{
    debug_exit_code, process_error_kind, stderr_preview, stdout_line_count, stdout_word_count,
    ProcessOutcome,
};
use crate::text::{append_chars, chars_of, lines_of, lit, split_whitespace, string_of};
use crate::unicode::{from_utf8_lossy, utf8_lossy};

verus! {

broadcast use crate::views::lemma_char_vec_deep_view;

// ---------------------------------------------------------------------------
// Options
// ---------------------------------------------------------------------------

/// What an OCR command or endpoint is given: the PDF page, or an image of
/// the page rendered by the backend.
#[derive(Clone, Copy, PartialEq, Eq, Structural, Debug)]
pub enum OcrCommandInput {
    PdfPage,
    RenderedImage,
}

impl Default for OcrCommandInput {
    fn default() -> (r: OcrCommandInput)
        ensures
            r == OcrCommandInput::PdfPage,
    {
        OcrCommandInput::PdfPage
    }
}

impl OcrCommandInput {
    /// The variant's name, as fingerprints record it.
    pub fn debug_name(self) -> (r: &'static str)
        ensures
            r@ == (match self {
                OcrCommandInput::PdfPage => "PdfPage"@,
                OcrCommandInput::RenderedImage => "RenderedImage"@,
            }),
    {
        match self {
            OcrCommandInput::PdfPage => "PdfPage",
            OcrCommandInput::RenderedImage => "RenderedImage",
        }
    }
}

/// The OCR adapter of a run and its settings.
pub struct OcrOptions {
    pub sidecar: Option<String>,
    pub command: Option<String>,
    pub http_url: Option<String>,
    pub command_input: OcrCommandInput,
    pub timeout_ms: u64,
}

pub open spec fn adapter_count(sidecar: bool, command: bool, http: bool) -> nat {
    (if sidecar {
        1nat
    } else {
        0nat
    }) + (if command {
        1nat
    } else {
        0nat
    }) + (if http {
        1nat
    } else {
        0nat
    })
}

/// Why a combination of OCR options is refused, if it is.
pub open spec fn ocr_options_error(
    sidecar: bool,
    command: bool,
    http: bool,
    input: OcrCommandInput,
) -> Option<Seq<char>> {
    if adapter_count(sidecar, command, http) > 1 {
        Some("choose only one of --ocr-sidecar, --ocr-command, or --ocr-http-url"@)
    } else if input != OcrCommandInput::PdfPage && !command && !http {
        Some("--ocr-command-input requires --ocr-command or --ocr-http-url"@)
    } else {
        None
    }
}

fn opt_string(s: Option<&str>) -> (r: Option<String>)
    ensures
        string_opt_view(r) == str_opt_view(s),
{
    match s {
        Some(x) => Some(x.to_string()),
        None => None,
    }
}

fn copy_opt(s: &Option<String>) -> (r: Option<String>)
    ensures
        string_opt_view(r) == string_opt_view(*s),
{
    match s {
        Some(x) => Some(x.clone()),
        None => None,
    }
}

impl OcrOptions {
    /// Options that use no adapter.
    pub fn none() -> (r: OcrOptions)
        ensures
            r.sidecar is None,
            r.command is None,
            r.http_url is None,
            r.command_input == OcrCommandInput::PdfPage,
            r.timeout_ms == 0,
    {
        OcrOptions {
            sidecar: None,
            command: None,
            http_url: None,
            command_input: OcrCommandInput::PdfPage,
            timeout_ms: 0,
        }
    }

    /// Checks the options: at most one adapter, and an input other than the
    /// PDF page only for a command or an endpoint.
    pub fn new(
        sidecar: Option<&str>,
        command: Option<&str>,
        http_url: Option<&str>,
        command_input: OcrCommandInput,
        timeout_ms: u64,
    ) -> (r: Result<OcrOptions, String>)
        ensures
            match ocr_options_error(
                sidecar is Some,
                command is Some,
                http_url is Some,
                command_input,
            ) {
                Some(msg) => r matches Err(e) && e@ == msg,
                None => r matches Ok(o) && {
                    &&& string_opt_view(o.sidecar) == str_opt_view(sidecar)
                    &&& string_opt_view(o.command) == str_opt_view(command)
                    &&& string_opt_view(o.http_url) == str_opt_view(http_url)
                    &&& o.command_input == command_input
                    &&& o.timeout_ms == timeout_ms
                },
            },
    {
        let count: u8 = (if sidecar.is_some() {
            1u8
        } else {
            0u8
        }) + (if command.is_some() {
            1u8
        } else {
            0u8
        }) + (if http_url.is_some() {
            1u8
        } else {
            0u8
        });
        if count > 1 {
            return Err(
                "choose only one of --ocr-sidecar, --ocr-command, or --ocr-http-url".to_string(),
            );
        }
        if command_input != OcrCommandInput::PdfPage && command.is_none() && http_url.is_none() {
            return Err("--ocr-command-input requires --ocr-command or --ocr-http-url".to_string());
        }
        Ok(
            OcrOptions {
                sidecar: opt_string(sidecar),
                command: opt_string(command),
                http_url: opt_string(http_url),
                command_input,
                timeout_ms,
            },
        )
    }

    pub fn duplicate(&self) -> (r: OcrOptions)
        ensures
            string_opt_view(r.sidecar) == string_opt_view(self.sidecar),
            string_opt_view(r.command) == string_opt_view(self.command),
            string_opt_view(r.http_url) == string_opt_view(self.http_url),
            r.command_input == self.command_input,
            r.timeout_ms == self.timeout_ms,
    {
        OcrOptions {
            sidecar: copy_opt(&self.sidecar),
            command: copy_opt(&self.command),
            http_url: copy_opt(&self.http_url),
            command_input: self.command_input,
            timeout_ms: self.timeout_ms,
        }
    }
}

/// Options that were accepted name at most one adapter.
pub proof fn lemma_accepted_options_have_one_adapter(
    sidecar: bool,
    command: bool,
    http: bool,
    input: OcrCommandInput,
)
    requires
        ocr_options_error(sidecar, command, http, input) is None,
    ensures
        adapter_count(sidecar, command, http) <= 1,
        input == OcrCommandInput::RenderedImage ==> command || http,
{
}

// ---------------------------------------------------------------------------
// Which adapter runs
// ---------------------------------------------------------------------------

/// The adapter an OCR check goes to.
#[derive(Clone, Copy, PartialEq, Eq, Structural, Debug)]
pub enum OcrCheckRoute {
    RenderedImage,
    Command,
    Http,
    Sidecar,
    MissingAdapter,
}

/// A rendered-image input goes to the backend; otherwise the command, the
/// endpoint or the sidecar directory, in that order of precedence.
pub open spec fn check_route(ocr: OcrOptions) -> OcrCheckRoute {
    if ocr.command_input == OcrCommandInput::RenderedImage {
        OcrCheckRoute::RenderedImage
    } else if ocr.command is Some {
        OcrCheckRoute::Command
    } else if ocr.http_url is Some {
        OcrCheckRoute::Http
    } else if ocr.sidecar is Some {
        OcrCheckRoute::Sidecar
    } else {
        OcrCheckRoute::MissingAdapter
    }
}

pub fn ocr_check_route(ocr: &OcrOptions) -> (r: OcrCheckRoute)
    ensures
        r == check_route(*ocr),
{
    if ocr.command_input == OcrCommandInput::RenderedImage {
        OcrCheckRoute::RenderedImage
    } else if ocr.command.is_some() {
        OcrCheckRoute::Command
    } else if ocr.http_url.is_some() {
        OcrCheckRoute::Http
    } else if ocr.sidecar.is_some() {
        OcrCheckRoute::Sidecar
    } else {
        OcrCheckRoute::MissingAdapter
    }
}

/// Where the OCR text of a page comes from during extraction.
#[derive(Clone, Copy, PartialEq, Eq, Structural, Debug)]
pub enum OcrLoadSource {
    Skip,
    Sidecar,
    Command,
    Http,
}

/// No OCR for a page that does not need it; a rendered-image input is an
/// error here; otherwise the sidecar, the command or the endpoint, in that
/// order of precedence.
pub open spec fn load_source(run_ocr: bool, ocr: OcrOptions) -> Result<OcrLoadSource, Seq<char>> {
    if !run_ocr {
        Ok(OcrLoadSource::Skip)
    } else if ocr.command_input == OcrCommandInput::RenderedImage {
        Err("rendered-image OCR command input requires a rendering backend"@)
    } else if ocr.sidecar is Some {
        Ok(OcrLoadSource::Sidecar)
    } else if ocr.command is Some {
        Ok(OcrLoadSource::Command)
    } else if ocr.http_url is Some {
        Ok(OcrLoadSource::Http)
    } else {
        Ok(OcrLoadSource::Skip)
    }
}

pub fn ocr_load_source(run_ocr: bool, ocr: &OcrOptions) -> (r: Result<OcrLoadSource, String>)
    ensures
        match r {
            Ok(s) => load_source(run_ocr, *ocr) == Ok::<OcrLoadSource, Seq<char>>(s),
            Err(e) => load_source(run_ocr, *ocr) == Err::<OcrLoadSource, Seq<char>>(e@),
        },
{
    if !run_ocr {
        Ok(OcrLoadSource::Skip)
    } else if ocr.command_input == OcrCommandInput::RenderedImage {
        Err("rendered-image OCR command input requires a rendering backend".to_string())
    } else if ocr.sidecar.is_some() {
        Ok(OcrLoadSource::Sidecar)
    } else if ocr.command.is_some() {
        Ok(OcrLoadSource::Command)
    } else if ocr.http_url.is_some() {
        Ok(OcrLoadSource::Http)
    } else {
        Ok(OcrLoadSource::Skip)
    }
}

/// OCR text counts only when it is not empty.
pub fn ocr_text_if_present(text: String) -> (r: Option<String>)
    ensures
        match r {
            Some(t) => t@ == text@ && text@.len() > 0,
            None => text@.len() == 0,
        },
{
    if text.as_str().is_empty() {
        None
    } else {
        Some(text)
    }
}

/// A program run with a deadline: how it ended, whether the deadline passed,
/// and how long it took.
pub struct TimedProcessOutcome {
    pub output: ProcessOutcome,
    pub timed_out: bool,
    pub wall_us: u128,
}

/// The text an OCR command printed for a page, or why there is none.
pub open spec fn command_text(
    command: Seq<char>,
    page_index: nat,
    timeout_ms: nat,
    run: TimedProcessOutcome,
) -> Result<Seq<char>, Seq<char>> {
    if run.timed_out {
        Err(
            "OCR command timed out after "@ + decimal(timeout_ms) + " ms for page "@ + decimal(
                page_index,
            ) + ": "@ + command,
        )
    } else if !run.output.succeeded() {
        Err(
            "OCR command "@ + command + " failed for page "@ + decimal(page_index) + ": "@ + (
            if run.output.stderr@.len() == 0 {
                "no stderr"@
            } else {
                preview_of(run.output.stderr@)
            }),
        )
    } else {
        Ok(utf8_lossy(run.output.stdout@))
    }
}

/// The first 500 characters of decoded error output.
pub open spec fn preview_of(stderr: Seq<u8>) -> Seq<char> {
    utf8_lossy(stderr).take(
        if utf8_lossy(stderr).len() < 500 {
            utf8_lossy(stderr).len() as int
        } else {
            500int
        },
    )
}

pub fn ocr_command_text(
    command: &str,
    page_index: u32,
    timeout_ms: u64,
    run: &TimedProcessOutcome,
) -> (r: Result<String, String>)
    ensures
        match r {
            Ok(t) => command_text(command@, page_index as nat, timeout_ms as nat, *run) == Ok::<
                Seq<char>,
                Seq<char>,
            >(t@),
            Err(e) => command_text(command@, page_index as nat, timeout_ms as nat, *run) == Err::<
                Seq<char>,
                Seq<char>,
            >(e@),
        },
{
    let cmd = chars_of(command);
    if run.timed_out {
        let mut msg = lit("OCR command timed out after ");
        append_chars(&mut msg, &decimal_chars(timeout_ms));
        append_chars(&mut msg, &lit(" ms for page "));
        append_chars(&mut msg, &decimal_chars(page_index as u64));
        append_chars(&mut msg, &lit(": "));
        append_chars(&mut msg, &cmd);
        return Err(string_of(&msg));
    }
    if !run.output.success() {
        let mut msg = lit("OCR command ");
        append_chars(&mut msg, &cmd);
        append_chars(&mut msg, &lit(" failed for page "));
        append_chars(&mut msg, &decimal_chars(page_index as u64));
        append_chars(&mut msg, &lit(": "));
        let detail = match stderr_preview(run.output.stderr.as_slice()) {
            Some(p) => chars_of(p.as_str()),
            None => lit("no stderr"),
        };
        append_chars(&mut msg, &detail);
        return Err(string_of(&msg));
    }
    Ok(from_utf8_lossy(run.output.stdout.as_slice()))
}

// ---------------------------------------------------------------------------
// Check reports
// ---------------------------------------------------------------------------

/// The report of an OCR check of one page.
pub struct OcrCheckOutput {
    pub strict: bool,
    pub pdf: String,
    pub page_index: u32,
    pub adapter: String,
    pub passed: bool,
    pub success: bool,
    pub command: Option<String>,
    pub http_url: Option<String>,
    pub sidecar_path: Option<String>,
    pub exit_status: Option<i32>,
    pub timed_out: bool,
    pub timeout_ms: u64,
    pub wall_us: u128,
    pub render_us: u64,
    pub output_bytes: u64,
    pub stdout_sha256: Option<String>,
    pub stdout_line_count: usize,
    pub stdout_word_count: usize,
    pub stderr_bytes: u64,
    pub empty_output: bool,
    pub stderr_preview: Option<String>,
    pub error: Option<String>,
    pub error_kind: Option<String>,
}

/// A report with no output: what is left when the adapter could not run.
pub open spec fn is_empty_report(o: OcrCheckOutput) -> bool {
    &&& !o.passed
    &&& !o.success
    &&& o.exit_status is None
    &&& o.wall_us == 0
    &&& o.render_us == 0
    &&& o.output_bytes == 0
    &&& o.stdout_sha256 is None
    &&& o.stdout_line_count == 0
    &&& o.stdout_word_count == 0
    &&& o.stderr_bytes == 0
    &&& o.empty_output
    &&& o.stderr_preview is None
}

fn empty_report(
    pdf: &str,
    page_index: u32,
    strict: bool,
    timeout_ms: u64,
    adapter: &str,
    error: &str,
    error_kind: &str,
) -> (o: OcrCheckOutput)
    ensures
        is_empty_report(o),
        o.strict == strict,
        o.pdf@ == pdf@,
        o.page_index == page_index,
        o.adapter@ == adapter@,
        o.command is None,
        o.http_url is None,
        o.sidecar_path is None,
        !o.timed_out,
        o.timeout_ms == timeout_ms,
        string_opt_view(o.error) == Some(error@),
        string_opt_view(o.error_kind) == Some(error_kind@),
{
    OcrCheckOutput {
        strict,
        pdf: pdf.to_string(),
        page_index,
        adapter: adapter.to_string(),
        passed: false,
        success: false,
        command: None,
        http_url: None,
        sidecar_path: None,
        exit_status: None,
        timed_out: false,
        timeout_ms,
        wall_us: 0,
        render_us: 0,
        output_bytes: 0,
        stdout_sha256: None,
        stdout_line_count: 0,
        stdout_word_count: 0,
        stderr_bytes: 0,
        empty_output: true,
        stderr_preview: None,
        error: Some(error.to_string()),
        error_kind: Some(error_kind.to_string()),
    }
}

/// The report when no adapter was chosen.
pub fn ocr_missing_adapter_check_output(
    pdf: &str,
    page_index: u32,
    ocr: &OcrOptions,
    strict: bool,
) -> (o: OcrCheckOutput)
    ensures
        is_empty_report(o),
        o.strict == strict,
        o.pdf@ == pdf@,
        o.page_index == page_index,
        o.adapter@ == "none"@,
        o.command is None,
        o.timeout_ms == ocr.timeout_ms,
        string_opt_view(o.error) == Some(
            "ocr-check requires --ocr-sidecar, --ocr-command, or --ocr-http-url"@,
        ),
        string_opt_view(o.error_kind) == Some("missing_adapter"@),
{
    empty_report(
        pdf,
        page_index,
        strict,
        ocr.timeout_ms,
        "none",
        "ocr-check requires --ocr-sidecar, --ocr-command, or --ocr-http-url",
        "missing_adapter",
    )
}

/// The report when a rendered image was asked for from a backend that
/// cannot render.
pub fn ocr_render_backend_required_check_output(
    pdf: &str,
    page_index: u32,
    ocr: &OcrOptions,
    strict: bool,
) -> (o: OcrCheckOutput)
    ensures
        is_empty_report(o),
        o.strict == strict,
        o.pdf@ == pdf@,
        o.page_index == page_index,
        o.adapter@ == "ocr_command_rendered_image"@,
        string_opt_view(o.command) == string_opt_view(ocr.command),
        o.http_url is None,
        o.sidecar_path is None,
        !o.timed_out,
        o.timeout_ms == ocr.timeout_ms,
        string_opt_view(o.error) == Some(
            "rendered-image OCR command input requires a rendering backend"@,
        ),
        string_opt_view(o.error_kind) == Some("render_backend_required"@),
{
    let mut o = empty_report(
        pdf,
        page_index,
        strict,
        ocr.timeout_ms,
        "ocr_command_rendered_image",
        "rendered-image OCR command input requires a rendering backend",
        "render_backend_required",
    );
    o.command = copy_opt(&ocr.command);
    o
}

/// Why an OCR command check failed, if it did.
pub open spec fn command_check_error(
    output: ProcessOutcome,
    timed_out: bool,
    empty_output: bool,
) -> Option<Seq<char>> {
    if timed_out {
        Some("OCR command timed out"@)
    } else if !output.succeeded() {
        Some("OCR command exited with status "@ + debug_exit_code(output.exit_code))
    } else if empty_output {
        Some("OCR command output was empty"@)
    } else {
        None
    }
}

pub fn ocr_command_check_error(output: &ProcessOutcome, timed_out: bool, empty_output: bool) -> (r:
    Option<String>)
    ensures
        string_opt_view(r) == command_check_error(*output, timed_out, empty_output),
{
    if timed_out {
        Some("OCR command timed out".to_string())
    } else if !output.success() {
        let mut msg = lit("OCR command exited with status ");
        let code = crate::process::debug_exit_code_chars(output.exit_code);
        append_chars(&mut msg, &code);
        Some(string_of(&msg))
    } else if empty_output {
        Some("OCR command output was empty".to_string())
    } else {
        None
    }
}

/// The report of an OCR command run: the decision of the check from how the
/// command ended; its digest is the SHA-256 of what the command printed.
pub fn ocr_command_check_report(
    pdf: &str,
    page_index: u32,
    command: &str,
    timeout_ms: u64,
    strict: bool,
    run: &Result<TimedProcessOutcome, String>,
) -> (o: OcrCheckOutput)
    ensures
        o.strict == strict,
        o.pdf@ == pdf@,
        o.page_index == page_index,
        o.adapter@ == "ocr_command"@,
        string_opt_view(o.command) == Some(command@),
        o.http_url is None,
        o.sidecar_path is None,
        o.timeout_ms == timeout_ms,
        o.render_us == 0,
        match run {
            Ok(t) => {
                let success = t.output.succeeded() && !t.timed_out;
                let empty = success && t.output.stdout@.len() == 0;
                &&& o.success == success
                &&& o.empty_output == empty
                &&& o.passed == (success && !empty)
                &&& o.exit_status == t.output.exit_code
                &&& o.timed_out == t.timed_out
                &&& o.wall_us == t.wall_us
                &&& o.output_bytes == t.output.stdout@.len()
                &&& string_opt_view(o.stdout_sha256) == Some(sha256_hex_of(t.output.stdout@))
                &&& o.stdout_line_count == lines_of(utf8_lossy(t.output.stdout@)).len()
                &&& o.stdout_word_count == split_whitespace(utf8_lossy(t.output.stdout@)).len()
                &&& o.stderr_bytes == t.output.stderr@.len()
                &&& string_opt_view(o.stderr_preview) == (if t.output.stderr@.len() == 0 {
                    None
                } else {
                    Some(preview_of(t.output.stderr@))
                })
                &&& string_opt_view(o.error) == command_check_error(t.output, t.timed_out, empty)
                &&& string_opt_view(o.error_kind) == (if empty {
                    Some("empty_output"@)
                } else {
                    process_error_kind(t.output, t.timed_out)
                })
            },
            Err(e) => {
                &&& is_empty_report(o)
                &&& !o.timed_out
                &&& string_opt_view(o.error) == Some(command@ + ": "@ + e@)
                &&& string_opt_view(o.error_kind) == Some("spawn_failed"@)
            },
        },
{
    match run {
        Ok(t) => {
            let success = t.output.success() && !t.timed_out;
            let empty_output = success && t.output.stdout.len() == 0;
            let error_kind: Option<String> = if empty_output {
                Some("empty_output".to_string())
            } else {
                match crate::process::baseline_process_error_kind(&t.output, t.timed_out) {
                    Some(k) => Some(k.to_string()),
                    None => None,
                }
            };
            let error = ocr_command_check_error(&t.output, t.timed_out, empty_output);
            let stdout = t.output.stdout.as_slice();
            let stderr = t.output.stderr.as_slice();
            OcrCheckOutput {
                strict,
                pdf: pdf.to_string(),
                page_index,
                adapter: "ocr_command".to_string(),
                passed: success && !empty_output,
                success,
                command: Some(command.to_string()),
                http_url: None,
                sidecar_path: None,
                exit_status: t.output.exit_code,
                timed_out: t.timed_out,
                timeout_ms,
                wall_us: t.wall_us,
                render_us: 0,
                output_bytes: t.output.stdout.len() as u64,
                stdout_sha256: Some(sha256_hex(stdout)),
                stdout_line_count: stdout_line_count(stdout),
                stdout_word_count: stdout_word_count(stdout),
                stderr_bytes: t.output.stderr.len() as u64,
                empty_output,
                stderr_preview: stderr_preview(stderr),
                error,
                error_kind,
            }
        },
        Err(e) => {
            let mut msg = chars_of(command);
            append_chars(&mut msg, &lit(": "));
            append_chars(&mut msg, &chars_of(e.as_str()));
            let text = string_of(&msg);
            let mut o = empty_report(
                pdf,
                page_index,
                strict,
                timeout_ms,
                "ocr_command",
                text.as_str(),
                "spawn_failed",
            );
            o.command = Some(command.to_string());
            o
        },
    }
}

/// The report of reading a page's sidecar file; its digest is the SHA-256
/// of what was read.
pub fn ocr_sidecar_check_report(
    pdf: &str,
    page_index: u32,
    sidecar_path: &str,
    timeout_ms: u64,
    strict: bool,
    wall_us: u128,
    read: &Result<Vec<u8>, String>,
) -> (o: OcrCheckOutput)
    ensures
        o.strict == strict,
        o.pdf@ == pdf@,
        o.page_index == page_index,
        o.adapter@ == "ocr_sidecar"@,
        o.command is None,
        o.http_url is None,
        string_opt_view(o.sidecar_path) == Some(sidecar_path@),
        o.exit_status is None,
        !o.timed_out,
        o.timeout_ms == timeout_ms,
        o.wall_us == wall_us,
        o.render_us == 0,
        o.stderr_bytes == 0,
        o.stderr_preview is None,
        match read {
            Ok(bytes) => {
                let empty = bytes@.len() == 0;
                &&& o.success
                &&& o.passed == !empty
                &&& o.empty_output == empty
                &&& o.output_bytes == bytes@.len()
                &&& string_opt_view(o.stdout_sha256) == Some(sha256_hex_of(bytes@))
                &&& o.stdout_line_count == lines_of(utf8_lossy(bytes@)).len()
                &&& o.stdout_word_count == split_whitespace(utf8_lossy(bytes@)).len()
                &&& string_opt_view(o.error) == (if empty {
                    Some("OCR sidecar output was empty"@)
                } else {
                    None
                })
                &&& string_opt_view(o.error_kind) == (if empty {
                    Some("empty_output"@)
                } else {
                    None
                })
            },
            Err(e) => {
                &&& !o.success
                &&& !o.passed
                &&& o.empty_output
                &&& o.output_bytes == 0
                &&& o.stdout_sha256 is None
                &&& o.stdout_line_count == 0
                &&& o.stdout_word_count == 0
                &&& string_opt_view(o.error) == Some(
                    "read OCR sidecar "@ + sidecar_path@ + ": "@ + e@,
                )
                &&& string_opt_view(o.error_kind) == Some("sidecar_read_failed"@)
            },
        },
{
    match read {
        Ok(bytes) => {
            let empty_output = bytes.len() == 0;
            let b = bytes.as_slice();
            OcrCheckOutput {
                strict,
                pdf: pdf.to_string(),
                page_index,
                adapter: "ocr_sidecar".to_string(),
                passed: !empty_output,
                success: true,
                command: None,
                http_url: None,
                sidecar_path: Some(sidecar_path.to_string()),
                exit_status: None,
                timed_out: false,
                timeout_ms,
                wall_us,
                render_us: 0,
                output_bytes: bytes.len() as u64,
                stdout_sha256: Some(sha256_hex(b)),
                stdout_line_count: stdout_line_count(b),
                stdout_word_count: stdout_word_count(b),
                stderr_bytes: 0,
                empty_output,
                stderr_preview: None,
                error: if empty_output {
                    Some("OCR sidecar output was empty".to_string())
                } else {
                    None
                },
                error_kind: if empty_output {
                    Some("empty_output".to_string())
                } else {
                    None
                },
            }
        },
        Err(e) => {
            let mut msg = lit("read OCR sidecar ");
            append_chars(&mut msg, &chars_of(sidecar_path));
            append_chars(&mut msg, &lit(": "));
            append_chars(&mut msg, &chars_of(e.as_str()));
            let text = string_of(&msg);
            let mut o = empty_report(
                pdf,
                page_index,
                strict,
                timeout_ms,
                "ocr_sidecar",
                text.as_str(),
                "sidecar_read_failed",
            );
            o.sidecar_path = Some(sidecar_path.to_string());
            o.wall_us = wall_us;
            o
        },
    }
}

/// What an OCR endpoint answered.
pub struct OcrHttpResponse {
    pub status_code: Option<u16>,
    pub content_type: Option<String>,
    pub body: Vec<u8>,
    pub wall_us: u128,
}

/// The bytes an HTTP check reports on: the decoded text when the body was
/// decoded, else the raw body.
pub open spec fn http_output_body(response: OcrHttpResponse, decoded: Option<Result<String, String>>) -> Seq<u8> {
    match decoded {
        Some(Ok(text)) => if is_success_status(response.status_code) {
            vstd::utf8::encode_utf8(text@)
        } else {
            response.body@
        },
        _ => response.body@,
    }
}

pub fn ocr_http_output_body(
    response: &OcrHttpResponse,
    decoded: &Option<Result<String, String>>,
) -> (r: Vec<u8>)
    ensures
        r@ == http_output_body(*response, *decoded),
{
    let success = match response.status_code {
        Some(c) => 200 <= c && c < 300,
        None => false,
    };
    match decoded {
        Some(Ok(text)) => {
            if success {
                let bytes = text.as_str().as_bytes();
                copy_bytes(bytes)
            } else {
                copy_bytes(response.body.as_slice())
            }
        },
        _ => copy_bytes(response.body.as_slice()),
    }
}

fn copy_bytes(b: &[u8]) -> (r: Vec<u8>)
    ensures
        r@ == b@,
{
    let mut out: Vec<u8> = Vec::new();
    let mut i: usize = 0;
    while i < b.len()
        invariant
            i <= b@.len(),
            out@ == b@.take(i as int),
        decreases b@.len() - i,
    {
        out.push(b[i]);
        i += 1;
        assert(out@ =~= b@.take(i as int));
    }
    assert(b@.take(b@.len() as int) =~= b@);
    out
}

/// The report of an OCR HTTP request. The body is decoded only for a
/// success status; `decoded` is that decoding (ignored otherwise). The
/// digest is the SHA-256 of the bytes that `ocr_http_output_body` gives.
pub fn ocr_http_check_report(
    pdf: &str,
    page_index: u32,
    http_url: &str,
    timeout_ms: u64,
    strict: bool,
    reply: &Result<OcrHttpResponse, String>,
    decoded: &Option<Result<String, String>>,
) -> (o: OcrCheckOutput)
    ensures
        o.strict == strict,
        o.pdf@ == pdf@,
        o.page_index == page_index,
        o.adapter@ == "ocr_http"@,
        o.command is None,
        string_opt_view(o.http_url) == Some(http_url@),
        o.sidecar_path is None,
        o.timeout_ms == timeout_ms,
        o.render_us == 0,
        o.stderr_bytes == 0,
        o.stderr_preview is None,
        match reply {
            Ok(response) => {
                let success = is_success_status(response.status_code);
                let dec = if success {
                    *decoded
                } else {
                    None
                };
                let decode_failed = dec matches Some(Err(_));
                let empty = success && (dec matches Some(Ok(t)) && t@.len() == 0);
                let body = http_output_body(*response, dec);
                &&& o.success == success
                &&& o.empty_output == empty
                &&& o.passed == (success && !empty && !decode_failed)
                &&& o.exit_status == (match response.status_code {
                    Some(c) => Some(c as i32),
                    None => None::<i32>,
                })
                &&& !o.timed_out
                &&& o.wall_us == response.wall_us
                &&& o.output_bytes == body.len()
                &&& string_opt_view(o.stdout_sha256) == Some(sha256_hex_of(body))
                &&& o.stdout_line_count == lines_of(utf8_lossy(body)).len()
                &&& o.stdout_word_count == split_whitespace(utf8_lossy(body)).len()
                &&& string_opt_view(o.error) == (match dec {
                    Some(Err(e)) => Some(e@),
                    _ => if empty {
                        Some("OCR HTTP output was empty"@)
                    } else {
                        status_error(response.status_code)
                    },
                })
                &&& string_opt_view(o.error_kind) == (if decode_failed {
                    Some("http_response_decode_failed"@)
                } else if empty {
                    Some("empty_output"@)
                } else if success {
                    None
                } else {
                    Some("http_status_failed"@)
                })
            },
            Err(e) => {
                &&& is_empty_report(o)
                &&& o.timed_out == (crate::http::http_error_kind(e@) == "timeout"@)
                &&& string_opt_view(o.error) == Some(e@)
                &&& string_opt_view(o.error_kind) == Some(crate::http::http_error_kind(e@))
            },
        },
{
    match reply {
        Ok(response) => {
            let success = match response.status_code {
                Some(c) => 200 <= c && c < 300,
                None => false,
            };
            let none: Option<Result<String, String>> = None;
            let dec: &Option<Result<String, String>> = if success {
                decoded
            } else {
                &none
            };
            let decode_failed = match dec {
                Some(Err(_)) => true,
                _ => false,
            };
            let empty_output = success && match dec {
                Some(Ok(t)) => t.as_str().is_empty(),
                _ => false,
            };
            let body = ocr_http_output_body(response, dec);
            let error_kind: Option<String> = if decode_failed {
                Some("http_response_decode_failed".to_string())
            } else if empty_output {
                Some("empty_output".to_string())
            } else if success {
                None
            } else {
                Some("http_status_failed".to_string())
            };
            let error: Option<String> = match dec {
                Some(Err(e)) => Some(e.clone()),
                _ => {
                    if empty_output {
                        Some("OCR HTTP output was empty".to_string())
                    } else {
                        crate::http::ocr_http_status_error(response.status_code)
                    }
                },
            };
            let b = body.as_slice();
            OcrCheckOutput {
                strict,
                pdf: pdf.to_string(),
                page_index,
                adapter: "ocr_http".to_string(),
                passed: success && !empty_output && !decode_failed,
                success,
                command: None,
                http_url: Some(http_url.to_string()),
                sidecar_path: None,
                exit_status: match response.status_code {
                    Some(c) => Some(c as i32),
                    None => None,
                },
                timed_out: false,
                timeout_ms,
                wall_us: response.wall_us,
                render_us: 0,
                output_bytes: body.len() as u64,
                stdout_sha256: Some(sha256_hex(b)),
                stdout_line_count: stdout_line_count(b),
                stdout_word_count: stdout_word_count(b),
                stderr_bytes: 0,
                empty_output,
                stderr_preview: None,
                error,
                error_kind,
            }
        },
        Err(e) => {
            let kind = crate::http::ocr_http_error_kind(e.as_str());
            let mut o = empty_report(pdf, page_index, strict, timeout_ms, "ocr_http", e.as_str(), kind);
            o.http_url = Some(http_url.to_string());
            o.timed_out = crate::text::str_eq(kind, "timeout");
            o
        },
    }
}

/// Why an OCR check fails the command: no adapter, a rendered image that the
/// backend cannot make, or a strict check that did not pass.
pub open spec fn check_error(o: OcrCheckOutput) -> Option<Seq<char>> {
    if o.adapter@ == "none"@ {
        Some("ocr-check requires --ocr-sidecar, --ocr-command, or --ocr-http-url"@)
    } else if o.adapter@ == "ocr_command_rendered_image"@ && string_opt_view(o.error_kind) == Some(
        "render_backend_required"@,
    ) {
        string_opt_view(o.error)
    } else if o.strict && !o.passed {
        Some(
            "ocr-check strict failed: "@ + match string_opt_view(o.error_kind) {
                Some(k) => k,
                None => "unknown"@,
            },
        )
    } else {
        None
    }
}

pub fn ocr_check_error(output: &OcrCheckOutput) -> (r: Option<String>)
    ensures
        string_opt_view(r) == check_error(*output),
{
    if crate::text::str_eq(output.adapter.as_str(), "none") {
        return Some(
            "ocr-check requires --ocr-sidecar, --ocr-command, or --ocr-http-url".to_string(),
        );
    }
    let render_required = match &output.error_kind {
        Some(k) => crate::text::str_eq(k.as_str(), "render_backend_required"),
        None => false,
    };
    if crate::text::str_eq(output.adapter.as_str(), "ocr_command_rendered_image")
        && render_required {
        return copy_opt(&output.error);
    }
    if output.strict && !output.passed {
        let mut msg = lit("ocr-check strict failed: ");
        let kind = match &output.error_kind {
            Some(k) => chars_of(k.as_str()),
            None => lit("unknown"),
        };
        append_chars(&mut msg, &kind);
        return Some(string_of(&msg));
    }
    None
}

// ---------------------------------------------------------------------------
// Run configuration
// ---------------------------------------------------------------------------

/// The settings of a run that reports record.
#[derive(Clone, Copy, PartialEq, Eq, Structural, Debug)]
pub struct RunConfiguration {
    pub span_geometry: bool,
    pub ocr_sidecar: bool,
    pub ocr_command: bool,
    pub ocr_http_url: bool,
    pub ocr_command_input: OcrCommandInput,
    pub ocr_timeout_ms: u64,
}

pub fn run_configuration(ocr: &OcrOptions, options: crate::metrics::ExtractionOptions) -> (r:
    RunConfiguration)
    ensures
        r == (RunConfiguration {
            span_geometry: options.span_geometry,
            ocr_sidecar: ocr.sidecar is Some,
            ocr_command: ocr.command is Some,
            ocr_http_url: ocr.http_url is Some,
            ocr_command_input: ocr.command_input,
            ocr_timeout_ms: ocr.timeout_ms,
        }),
{
    RunConfiguration {
        span_geometry: options.span_geometry,
        ocr_sidecar: ocr.sidecar.is_some(),
        ocr_command: ocr.command.is_some(),
        ocr_http_url: ocr.http_url.is_some(),
        ocr_command_input: ocr.command_input,
        ocr_timeout_ms: ocr.timeout_ms,
    }
}

} // verus!
