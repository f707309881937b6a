//! Smoke checks of external baselines and of the PDF backends: what one run
//! of a baseline on a document reports, how the reports of several documents
//! are combined, which failures are sampled, and how errors are classified.
use vstd::prelude::*;

use crate::digest::{sha256_hex, sha256_hex_of};

use crate::categories::string_opt_view;
use crate::ocr::{preview_of, TimedProcessOutcome};
use crate::process::{debug_exit_code, process_error_kind, stderr_preview, ProcessOutcome};
use crate::text::{append_chars, chars_of, contains_chars, lines_of, lit, seq_contains, split_whitespace, string_of};
use crate::unicode::utf8_lossy;

verus! {

broadcast use crate::views::lemma_char_vec_deep_view;

fn copy_opt(s: &Option<String>) -> (r: Option<String>)
    ensures
        string_opt_view(r) == string_opt_view(*s),
{
    match s {
        Some(x) => Some(x.clone()),
        None => None,
    }
}

// ---------------------------------------------------------------------------
// One document
// ---------------------------------------------------------------------------

/// What running a baseline on one document gave.
pub struct BaselineSmokeDocument {
    pub path: String,
    pub success: bool,
    pub exit_status: Option<i32>,
    pub timed_out: bool,
    pub timeout_ms: u64,
    pub wall_us: u128,
    pub output_bytes: u64,
    pub stdout_sha256: Option<String>,
    pub stdout_line_count: usize,
    pub stdout_word_count: usize,
    pub stderr_bytes: u64,
    pub empty_output: bool,
    pub stderr_preview: Option<String>,
    pub error: Option<String>,
    pub error_kind: Option<String>,
}

/// The report of a baseline's run on one document; its digest is the
/// SHA-256 of what the baseline printed.
pub fn smoke_document_from_run(
    label: &str,
    command: &str,
    timeout_ms: u64,
    run: &Result<TimedProcessOutcome, String>,
) -> (d: BaselineSmokeDocument)
    ensures
        d.path@ == label@,
        d.timeout_ms == timeout_ms,
        match run {
            Ok(t) => {
                &&& d.success == (t.output.succeeded() && !t.timed_out)
                &&& d.exit_status == t.output.exit_code
                &&& d.timed_out == t.timed_out
                &&& d.wall_us == t.wall_us
                &&& d.output_bytes == t.output.stdout@.len()
                &&& string_opt_view(d.stdout_sha256) == Some(sha256_hex_of(t.output.stdout@))
                &&& d.stdout_line_count == lines_of(utf8_lossy(t.output.stdout@)).len()
                &&& d.stdout_word_count == split_whitespace(utf8_lossy(t.output.stdout@)).len()
                &&& d.stderr_bytes == t.output.stderr@.len()
                &&& d.empty_output == (t.output.succeeded() && t.output.stdout@.len() == 0)
                &&& string_opt_view(d.stderr_preview) == (if t.output.stderr@.len() == 0 {
                    None
                } else {
                    Some(preview_of(t.output.stderr@))
                })
                &&& string_opt_view(d.error) == (if t.timed_out {
                    Some("baseline smoke timed out"@)
                } else if !t.output.succeeded() {
                    Some("baseline smoke exited with status "@ + debug_exit_code(t.output.exit_code))
                } else {
                    None
                })
                &&& string_opt_view(d.error_kind) == process_error_kind(t.output, t.timed_out)
            },
            Err(e) => {
                &&& !d.success
                &&& d.exit_status is None
                &&& !d.timed_out
                &&& d.wall_us == 0
                &&& d.output_bytes == 0
                &&& d.stdout_sha256 is None
                &&& d.stdout_line_count == 0
                &&& d.stdout_word_count == 0
                &&& d.stderr_bytes == 0
                &&& !d.empty_output
                &&& d.stderr_preview is None
                &&& string_opt_view(d.error) == Some(command@ + ": "@ + e@)
                &&& string_opt_view(d.error_kind) == Some("spawn_failed"@)
            },
        },
{
    match run {
        Ok(t) => {
            let out = &t.output;
            let stdout = out.stdout.as_slice();
            let stderr = out.stderr.as_slice();
            let success = out.success() && !t.timed_out;
            let kind = match crate::process::baseline_process_error_kind(out, t.timed_out) {
                Some(k) => Some(k.to_string()),
                None => None,
            };
            BaselineSmokeDocument {
                path: label.to_string(),
                success,
                exit_status: out.exit_code,
                timed_out: t.timed_out,
                timeout_ms,
                wall_us: t.wall_us,
                output_bytes: out.stdout.len() as u64,
                stdout_sha256: Some(sha256_hex(stdout)),
                stdout_line_count: crate::process::stdout_line_count(stdout),
                stdout_word_count: crate::process::stdout_word_count(stdout),
                stderr_bytes: out.stderr.len() as u64,
                empty_output: out.success() && out.stdout.len() == 0,
                stderr_preview: stderr_preview(stderr),
                error: crate::process::baseline_smoke_error(out, t.timed_out),
                error_kind: kind,
            }
        },
        Err(e) => {
            let mut msg = chars_of(command);
            append_chars(&mut msg, &lit(": "));
            append_chars(&mut msg, &chars_of(e.as_str()));
            BaselineSmokeDocument {
                path: label.to_string(),
                success: false,
                exit_status: None,
                timed_out: false,
                timeout_ms,
                wall_us: 0,
                output_bytes: 0,
                stdout_sha256: None,
                stdout_line_count: 0,
                stdout_word_count: 0,
                stderr_bytes: 0,
                empty_output: false,
                stderr_preview: None,
                error: Some(string_of(&msg)),
                error_kind: Some("spawn_failed".to_string()),
            }
        },
    }
}

// ---------------------------------------------------------------------------
// Failure samples
// ---------------------------------------------------------------------------

/// A failed document, as the report samples it.
pub struct BaselineSmokeFailureSample {
    pub path: String,
    pub exit_status: Option<i32>,
    pub error_kind: Option<String>,
    pub error: Option<String>,
    pub stderr_preview: Option<String>,
}

/// The positions of the documents that failed, in order.
pub open spec fn failed_positions(success: Seq<bool>) -> Seq<int>
    decreases success.len(),
{
    if success.len() == 0 {
        Seq::empty()
    } else {
        let prev = failed_positions(success.drop_last());
        if success.last() {
            prev
        } else {
            prev.push(success.len() - 1)
        }
    }
}

/// The first three of them.
pub open spec fn sampled_positions(success: Seq<bool>) -> Seq<int> {
    let all = failed_positions(success);
    all.take(
        if all.len() < 3 {
            all.len() as int
        } else {
            3int
        },
    )
}

pub open spec fn smoke_successes(documents: Seq<BaselineSmokeDocument>) -> Seq<bool> {
    Seq::new(documents.len(), |i: int| documents[i].success)
}

pub open spec fn is_sample_of(s: BaselineSmokeFailureSample, d: BaselineSmokeDocument) -> bool {
    &&& s.path@ == d.path@
    &&& s.exit_status == d.exit_status
    &&& string_opt_view(s.error_kind) == string_opt_view(d.error_kind)
    &&& string_opt_view(s.error) == string_opt_view(d.error)
    &&& string_opt_view(s.stderr_preview) == string_opt_view(d.stderr_preview)
}

/// The positions of the `false` entries lie in the mask, point at `false`
/// entries, and ascend.
pub proof fn lemma_failed_positions_bounds(success: Seq<bool>)
    ensures
        forall|k: int|
            0 <= k < failed_positions(success).len() ==> 0 <= #[trigger] failed_positions(success)[k]
                < success.len() && !success[failed_positions(success)[k]],
        forall|k: int, m: int|
            0 <= k < m < failed_positions(success).len() ==> failed_positions(success)[k]
                < failed_positions(success)[m],
    decreases success.len(),
{
    if success.len() > 0 {
        let prev = success.drop_last();
        lemma_failed_positions_bounds(prev);
        assert forall|k: int|
            0 <= k < failed_positions(prev).len() implies #[trigger] success[failed_positions(prev)[k]]
            == prev[failed_positions(prev)[k]] by {}
    }
}

/// The first three documents that failed.
pub fn baseline_smoke_failure_samples(documents: &Vec<BaselineSmokeDocument>) -> (r: Vec<
    BaselineSmokeFailureSample,
>)
    ensures
        r@.len() == sampled_positions(smoke_successes(documents@)).len(),
        forall|k: int|
            0 <= k < r@.len() ==> is_sample_of(
                #[trigger] r@[k],
                documents@[sampled_positions(smoke_successes(documents@))[k]],
            ),
{
    let ghost succ = smoke_successes(documents@);
    let mut out: Vec<BaselineSmokeFailureSample> = Vec::new();
    let mut i: usize = 0;
    proof {
        lemma_failed_positions_bounds(succ);
    }
    while i < documents.len() && out.len() < 3
        invariant
            i <= documents.len(),
            succ == smoke_successes(documents@),
            out@.len() <= 3,
            out@.len() == (if failed_positions(succ.take(i as int)).len() < 3 {
                failed_positions(succ.take(i as int)).len() as int
            } else {
                3int
            }),
            out@.len() < 3 ==> out@.len() == failed_positions(succ.take(i as int)).len(),
            forall|k: int|
                0 <= k < out@.len() ==> is_sample_of(
                    #[trigger] out@[k],
                    documents@[failed_positions(succ.take(i as int))[k]],
                ),
            forall|k: int|
                0 <= k < failed_positions(succ.take(i as int)).len() ==> 0
                    <= #[trigger] failed_positions(succ.take(i as int))[k] < i,
        decreases documents.len() - i,
    {
        let ghost before = failed_positions(succ.take(i as int));
        proof {
            assert(succ.take(i + 1).drop_last() =~= succ.take(i as int));
            lemma_failed_positions_bounds(succ.take(i as int));
        }
        let d = &documents[i];
        if !d.success {
            let sample = BaselineSmokeFailureSample {
                path: d.path.clone(),
                exit_status: d.exit_status,
                error_kind: copy_opt(&d.error_kind),
                error: copy_opt(&d.error),
                stderr_preview: copy_opt(&d.stderr_preview),
            };
            out.push(sample);
            proof {
                let now = failed_positions(succ.take(i + 1));
                assert(now == before.push(i as int));
                assert forall|k: int| 0 <= k < out@.len() implies is_sample_of(
                    #[trigger] out@[k],
                    documents@[now[k]],
                ) by {
                    if k < out@.len() - 1 {
                        assert(now[k] == before[k]);
                    }
                }
            }
        } else {
            proof {
                assert(failed_positions(succ.take(i + 1)) == before);
            }
        }
        i += 1;
    }
    proof {
        let all = failed_positions(succ);
        let seen = failed_positions(succ.take(i as int));
        // The positions found so far start the full list.
        lemma_failed_positions_prefix(succ, i as int);
        if out@.len() < 3 {
            assert(i == documents.len());
            assert(succ.take(i as int) =~= succ);
        }
        assert forall|k: int| 0 <= k < out@.len() implies is_sample_of(
            #[trigger] out@[k],
            documents@[sampled_positions(succ)[k]],
        ) by {
            assert(seen[k] == all[k]);
        }
    }
    out
}

/// The positions of the first three `false` entries of a mask.
pub fn sample_positions(mask: &Vec<bool>) -> (r: Vec<usize>)
    ensures
        r@.len() == sampled_positions(mask@).len(),
        forall|k: int| 0 <= k < r@.len() ==> r@[k] == #[trigger] sampled_positions(mask@)[k],
{
    let mut out: Vec<usize> = Vec::new();
    let mut i: usize = 0;
    while i < mask.len() && out.len() < 3
        invariant
            i <= mask@.len(),
            out@.len() <= 3,
            out@.len() == (if failed_positions(mask@.take(i as int)).len() < 3 {
                failed_positions(mask@.take(i as int)).len() as int
            } else {
                3int
            }),
            forall|k: int|
                0 <= k < out@.len() ==> out@[k] == #[trigger] failed_positions(mask@.take(i as int))[k],
        decreases mask@.len() - i,
    {
        let ghost before = failed_positions(mask@.take(i as int));
        proof {
            assert(mask@.take(i + 1).drop_last() =~= mask@.take(i as int));
        }
        if !mask[i] {
            out.push(i);
            proof {
                let now = failed_positions(mask@.take(i + 1));
                assert(now == before.push(i as int));
                assert forall|k: int| 0 <= k < out@.len() implies out@[k] == #[trigger] now[k] by {
                    if k < out@.len() - 1 {
                        assert(now[k] == before[k]);
                    }
                }
            }
        } else {
            proof {
                assert(failed_positions(mask@.take(i + 1)) == before);
            }
        }
        i += 1;
    }
    proof {
        let all = failed_positions(mask@);
        let seen = failed_positions(mask@.take(i as int));
        lemma_failed_positions_prefix(mask@, i as int);
        if out@.len() < 3 {
            assert(i == mask.len());
            assert(mask@.take(i as int) =~= mask@);
        }
        assert forall|k: int| 0 <= k < out@.len() implies out@[k] == #[trigger] sampled_positions(
            mask@,
        )[k] by {
            assert(seen[k] == all[k]);
        }
    }
    out
}

/// The failures among the first `i` documents are the first failures of
/// all of them.
proof fn lemma_failed_positions_prefix(success: Seq<bool>, i: int)
    requires
        0 <= i <= success.len(),
    ensures
        failed_positions(success.take(i)).len() <= failed_positions(success).len(),
        forall|k: int|
            0 <= k < failed_positions(success.take(i)).len() ==> #[trigger] failed_positions(
                success.take(i),
            )[k] == failed_positions(success)[k],
    decreases success.len() - i,
{
    if i < success.len() {
        lemma_failed_positions_prefix(success, i + 1);
        assert(success.take(i + 1).drop_last() =~= success.take(i));
        let a = failed_positions(success.take(i));
        let b = failed_positions(success.take(i + 1));
        assert forall|k: int| 0 <= k < a.len() implies #[trigger] a[k] == b[k] by {}
    } else {
        assert(success.take(i) =~= success);
    }
}

// ---------------------------------------------------------------------------
// Combining documents
// ---------------------------------------------------------------------------

/// The result of a baseline's smoke check.
pub struct BaselineSmokeCheck {
    pub success: bool,
    pub exit_status: Option<i32>,
    pub timed_out: bool,
    pub timeout_ms: u64,
    pub wall_us: u128,
    pub output_bytes: u64,
    pub stdout_sha256: Option<String>,
    pub stdout_line_count: usize,
    pub stdout_word_count: usize,
    pub stderr_bytes: u64,
    pub empty_output: bool,
    pub stderr_preview: Option<String>,
    pub error: Option<String>,
    pub error_kind: Option<String>,
    pub document_count: Option<usize>,
    pub successful_documents: Option<usize>,
    pub failed_documents: Option<usize>,
    pub failure_samples: Vec<BaselineSmokeFailureSample>,
    pub documents: Vec<BaselineSmokeDocument>,
}

/// The check of a run over a single document: that document's report,
/// with no per-document counts, samples or list.
pub open spec fn single_document_check(c: BaselineSmokeCheck, document: BaselineSmokeDocument) -> bool {
    &&& c.success == document.success
    &&& c.exit_status == document.exit_status
    &&& c.timed_out == document.timed_out
    &&& c.timeout_ms == document.timeout_ms
    &&& c.wall_us == document.wall_us
    &&& c.output_bytes == document.output_bytes
    &&& string_opt_view(c.stdout_sha256) == string_opt_view(document.stdout_sha256)
    &&& c.stdout_line_count == document.stdout_line_count
    &&& c.stdout_word_count == document.stdout_word_count
    &&& c.stderr_bytes == document.stderr_bytes
    &&& c.empty_output == document.empty_output
    &&& string_opt_view(c.stderr_preview) == string_opt_view(document.stderr_preview)
    &&& string_opt_view(c.error) == string_opt_view(document.error)
    &&& string_opt_view(c.error_kind) == string_opt_view(document.error_kind)
    &&& c.document_count is None
    &&& c.successful_documents is None
    &&& c.failed_documents is None
    &&& c.failure_samples@.len() == 0
    &&& c.documents@.len() == 0
}

/// The check of a single document is that document's report.
pub fn baseline_smoke_check_from_document(document: &BaselineSmokeDocument) -> (c:
    BaselineSmokeCheck)
    ensures
        single_document_check(c, *document),
{
    BaselineSmokeCheck {
        success: document.success,
        exit_status: document.exit_status,
        timed_out: document.timed_out,
        timeout_ms: document.timeout_ms,
        wall_us: document.wall_us,
        output_bytes: document.output_bytes,
        stdout_sha256: copy_opt(&document.stdout_sha256),
        stdout_line_count: document.stdout_line_count,
        stdout_word_count: document.stdout_word_count,
        stderr_bytes: document.stderr_bytes,
        empty_output: document.empty_output,
        stderr_preview: copy_opt(&document.stderr_preview),
        error: copy_opt(&document.error),
        error_kind: copy_opt(&document.error_kind),
        document_count: None,
        successful_documents: None,
        failed_documents: None,
        failure_samples: Vec::new(),
        documents: Vec::new(),
    }
}

/// The check when the smoke targets could not be found.
pub fn invalid_smoke_target_check(error: &str, timeout_ms: u64) -> (c: BaselineSmokeCheck)
    ensures
        !c.success,
        c.exit_status is None,
        !c.timed_out,
        c.timeout_ms == timeout_ms,
        c.wall_us == 0,
        c.output_bytes == 0,
        c.stdout_sha256 is None,
        c.stdout_line_count == 0,
        c.stdout_word_count == 0,
        c.stderr_bytes == 0,
        !c.empty_output,
        c.stderr_preview is None,
        string_opt_view(c.error) == Some(error@),
        string_opt_view(c.error_kind) == Some("invalid_smoke_target"@),
        c.document_count == Some(0usize),
        c.successful_documents == Some(0usize),
        c.failed_documents == Some(0usize),
        c.failure_samples@.len() == 0,
        c.documents@.len() == 0,
{
    BaselineSmokeCheck {
        success: false,
        exit_status: None,
        timed_out: false,
        timeout_ms,
        wall_us: 0,
        output_bytes: 0,
        stdout_sha256: None,
        stdout_line_count: 0,
        stdout_word_count: 0,
        stderr_bytes: 0,
        empty_output: false,
        stderr_preview: None,
        error: Some(error.to_string()),
        error_kind: Some("invalid_smoke_target".to_string()),
        document_count: Some(0),
        successful_documents: Some(0),
        failed_documents: Some(0),
        failure_samples: Vec::new(),
        documents: Vec::new(),
    }
}

/// Totals over the documents of a smoke run.
pub open spec fn total_output_bytes(d: Seq<BaselineSmokeDocument>) -> int
    decreases d.len(),
{
    if d.len() == 0 {
        0
    } else {
        total_output_bytes(d.drop_last()) + d.last().output_bytes
    }
}

pub open spec fn total_lines(d: Seq<BaselineSmokeDocument>) -> int
    decreases d.len(),
{
    if d.len() == 0 {
        0
    } else {
        total_lines(d.drop_last()) + d.last().stdout_line_count
    }
}

pub open spec fn total_words(d: Seq<BaselineSmokeDocument>) -> int
    decreases d.len(),
{
    if d.len() == 0 {
        0
    } else {
        total_words(d.drop_last()) + d.last().stdout_word_count
    }
}

pub open spec fn total_stderr_bytes(d: Seq<BaselineSmokeDocument>) -> int
    decreases d.len(),
{
    if d.len() == 0 {
        0
    } else {
        total_stderr_bytes(d.drop_last()) + d.last().stderr_bytes
    }
}

pub open spec fn total_wall_us(d: Seq<BaselineSmokeDocument>) -> int
    decreases d.len(),
{
    if d.len() == 0 {
        0
    } else {
        total_wall_us(d.drop_last()) + d.last().wall_us
    }
}

pub open spec fn successes(d: Seq<BaselineSmokeDocument>) -> int
    decreases d.len(),
{
    if d.len() == 0 {
        0
    } else {
        successes(d.drop_last()) + if d.last().success {
            1int
        } else {
            0int
        }
    }
}

/// Whether every successful document printed nothing (false when none
/// succeeded).
pub open spec fn all_successes_empty(d: Seq<BaselineSmokeDocument>) -> bool {
    successes(d) > 0 && forall|i: int|
        0 <= i < d.len() && (#[trigger] d[i]).success ==> d[i].empty_output
}

proof fn lemma_successes_witness(d: Seq<BaselineSmokeDocument>)
    ensures
        successes(d) > 0 <==> exists|i: int| 0 <= i < d.len() && (#[trigger] d[i]).success,
    decreases d.len(),
{
    if d.len() > 0 {
        lemma_successes_witness(d.drop_last());
        lemma_successes_bound(d.drop_last());
        if exists|i: int| 0 <= i < d.len() && (#[trigger] d[i]).success {
            let i = choose|i: int| 0 <= i < d.len() && (#[trigger] d[i]).success;
            if i < d.len() - 1 {
                assert(d.drop_last()[i] == d[i]);
            }
        }
        if exists|i: int| 0 <= i < d.drop_last().len() && (#[trigger] d.drop_last()[i]).success {
            let i = choose|i: int| 0 <= i < d.drop_last().len() && (#[trigger] d.drop_last()[i]).success;
            assert(d[i] == d.drop_last()[i]);
        }
    }
}

/// A run over several documents printed nothing only when some document
/// succeeded and every document that succeeded printed nothing: one
/// successful document with output makes it false, and so does having no
/// successful document at all.
pub proof fn law_empty_output_of_a_run(d: Seq<BaselineSmokeDocument>)
    ensures
        (exists|i: int| 0 <= i < d.len() && (#[trigger] d[i]).success && !d[i].empty_output)
            ==> !all_successes_empty(d),
        (forall|i: int| 0 <= i < d.len() ==> !(#[trigger] d[i]).success) ==> !all_successes_empty(d),
        (exists|i: int| 0 <= i < d.len() && (#[trigger] d[i]).success) && (forall|i: int|
            0 <= i < d.len() && (#[trigger] d[i]).success ==> d[i].empty_output)
            ==> all_successes_empty(d),
{
    lemma_successes_witness(d);
}

/// The first present value among the documents' optional texts.
pub open spec fn first_text(d: Seq<Option<Seq<char>>>) -> Option<Seq<char>>
    decreases d.len(),
{
    if d.len() == 0 {
        None
    } else {
        match d[0] {
            Some(t) => Some(t),
            None => first_text(d.drop_first()),
        }
    }
}

pub open spec fn previews(d: Seq<BaselineSmokeDocument>) -> Seq<Option<Seq<char>>> {
    Seq::new(d.len(), |i: int| string_opt_view(d[i].stderr_preview))
}

pub open spec fn errors(d: Seq<BaselineSmokeDocument>) -> Seq<Option<Seq<char>>> {
    Seq::new(d.len(), |i: int| string_opt_view(d[i].error))
}

pub open spec fn error_kinds(d: Seq<BaselineSmokeDocument>) -> Seq<Option<Seq<char>>> {
    Seq::new(d.len(), |i: int| string_opt_view(d[i].error_kind))
}

/// The totals of a smoke run fit their types.
pub open spec fn totals_fit(d: Seq<BaselineSmokeDocument>) -> bool {
    &&& total_output_bytes(d) <= u64::MAX
    &&& total_lines(d) <= usize::MAX
    &&& total_words(d) <= usize::MAX
    &&& total_stderr_bytes(d) <= u64::MAX
    &&& total_wall_us(d) <= u128::MAX
}

proof fn lemma_totals_prefix(d: Seq<BaselineSmokeDocument>, i: int)
    requires
        0 <= i <= d.len(),
    ensures
        total_output_bytes(d.take(i)) <= total_output_bytes(d),
        total_lines(d.take(i)) <= total_lines(d),
        total_words(d.take(i)) <= total_words(d),
        total_stderr_bytes(d.take(i)) <= total_stderr_bytes(d),
        total_wall_us(d.take(i)) <= total_wall_us(d),
        0 <= successes(d.take(i)) <= i,
    decreases d.len() - i,
{
    lemma_successes_bound(d.take(i));
    if i < d.len() {
        lemma_totals_prefix(d, i + 1);
        assert(d.take(i + 1).drop_last() =~= d.take(i));
    } else {
        assert(d.take(i) =~= d);
    }
}

proof fn lemma_successes_bound(d: Seq<BaselineSmokeDocument>)
    ensures
        0 <= successes(d) <= d.len(),
    decreases d.len(),
{
    if d.len() > 0 {
        lemma_successes_bound(d.drop_last());
    }
}

fn first_present(d: &Vec<BaselineSmokeDocument>, which: u8) -> (r: Option<String>)
    requires
        which < 3,
    ensures
        string_opt_view(r) == first_text(
            if which == 0 {
                previews(d@)
            } else if which == 1 {
                errors(d@)
            } else {
                error_kinds(d@)
            },
        ),
{
    let ghost texts = if which == 0 {
        previews(d@)
    } else if which == 1 {
        errors(d@)
    } else {
        error_kinds(d@)
    };
    let mut i: usize = 0;
    assert(texts.skip(0) =~= texts);
    while i < d.len()
        invariant
            i <= d.len(),
            which < 3,
            texts.len() == d@.len(),
            texts == (if which == 0 {
                previews(d@)
            } else if which == 1 {
                errors(d@)
            } else {
                error_kinds(d@)
            }),
            first_text(texts) == first_text(texts.skip(i as int)),
        decreases d.len() - i,
    {
        proof {
            assert(texts.skip(i as int)[0] == texts[i as int]);
            assert(texts.skip(i as int).drop_first() =~= texts.skip(i + 1));
        }
        let item = if which == 0 {
            &d[i].stderr_preview
        } else if which == 1 {
            &d[i].error
        } else {
            &d[i].error_kind
        };
        if item.is_some() {
            return copy_opt(item);
        }
        i += 1;
    }
    assert(texts.skip(d.len() as int) =~= Seq::<Option<Seq<char>>>::empty());
    None
}

/// The check of a run over several documents: the totals, whether any timed
/// out, the first preview, error and kind among them, and the failure
/// samples. A run over one document is that document's check.
pub fn smoke_check_from_documents(documents: Vec<BaselineSmokeDocument>, timeout_ms: u64) -> (c:
    BaselineSmokeCheck)
    requires
        totals_fit(documents@),
    ensures
        documents@.len() == 1 ==> single_document_check(c, documents@[0]),
        documents@.len() != 1 ==> {
            &&& c.success == (successes(documents@) == documents@.len())
            &&& c.exit_status is None
            &&& c.timed_out == (exists|i: int|
                0 <= i < documents@.len() && (#[trigger] documents@[i]).timed_out)
            &&& c.timeout_ms == timeout_ms
            &&& c.wall_us == total_wall_us(documents@)
            &&& c.output_bytes == total_output_bytes(documents@)
            &&& c.stdout_sha256 is None
            &&& c.stdout_line_count == total_lines(documents@)
            &&& c.stdout_word_count == total_words(documents@)
            &&& c.stderr_bytes == total_stderr_bytes(documents@)
            &&& c.empty_output == all_successes_empty(documents@)
            &&& string_opt_view(c.stderr_preview) == first_text(previews(documents@))
            &&& string_opt_view(c.error) == first_text(errors(documents@))
            &&& string_opt_view(c.error_kind) == first_text(error_kinds(documents@))
            &&& c.document_count == Some(documents@.len() as usize)
            &&& c.successful_documents == Some(successes(documents@) as usize)
            &&& c.failed_documents == Some((documents@.len() - successes(documents@)) as usize)
            &&& c.failure_samples@.len() == sampled_positions(smoke_successes(documents@)).len()
            &&& forall|k: int|
                0 <= k < c.failure_samples@.len() ==> is_sample_of(
                    #[trigger] c.failure_samples@[k],
                    documents@[sampled_positions(smoke_successes(documents@))[k]],
                )
            &&& c.documents@ == documents@
        },
{
    if documents.len() == 1 {
        return baseline_smoke_check_from_document(&documents[0]);
    }
    let ghost d = documents@;
    let mut output_bytes: u64 = 0;
    let mut lines: usize = 0;
    let mut words: usize = 0;
    let mut stderr_bytes: u64 = 0;
    let mut wall_us: u128 = 0;
    let mut ok: usize = 0;
    let mut timed_out = false;
    let mut all_empty = true;
    let mut i: usize = 0;
    while i < documents.len()
        invariant
            i <= documents.len(),
            d == documents@,
            totals_fit(d),
            output_bytes == total_output_bytes(d.take(i as int)),
            lines == total_lines(d.take(i as int)),
            words == total_words(d.take(i as int)),
            stderr_bytes == total_stderr_bytes(d.take(i as int)),
            wall_us == total_wall_us(d.take(i as int)),
            ok == successes(d.take(i as int)),
            timed_out == (exists|j: int| 0 <= j < i && (#[trigger] d[j]).timed_out),
            all_empty == (forall|j: int| 0 <= j < i && (#[trigger] d[j]).success ==> d[j].empty_output),
        decreases documents.len() - i,
    {
        proof {
            assert(d.take(i + 1).drop_last() =~= d.take(i as int));
            assert(d.take(i + 1).last() == d[i as int]);
            lemma_totals_prefix(d, i + 1);
        }
        let doc = &documents[i];
        output_bytes = output_bytes + doc.output_bytes;
        lines = lines + doc.stdout_line_count;
        words = words + doc.stdout_word_count;
        stderr_bytes = stderr_bytes + doc.stderr_bytes;
        wall_us = wall_us + doc.wall_us;
        if doc.success {
            ok = ok + 1;
            if !doc.empty_output {
                all_empty = false;
            }
        }
        if doc.timed_out {
            timed_out = true;
        }
        i += 1;
    }
    proof {
        assert(d.take(d.len() as int) =~= d);
        lemma_totals_prefix(d, d.len() as int);
    }
    let failure_samples = baseline_smoke_failure_samples(&documents);
    let stderr_preview = first_present(&documents, 0);
    let error = first_present(&documents, 1);
    let error_kind = first_present(&documents, 2);
    let n = documents.len();
    BaselineSmokeCheck {
        success: n - ok == 0,
        exit_status: None,
        timed_out,
        timeout_ms,
        wall_us,
        output_bytes,
        stdout_sha256: None,
        stdout_line_count: lines,
        stdout_word_count: words,
        stderr_bytes,
        empty_output: ok > 0 && all_empty,
        stderr_preview,
        error,
        error_kind,
        document_count: Some(n),
        successful_documents: Some(ok),
        failed_documents: Some(n - ok),
        failure_samples,
        documents,
    }
}

// ---------------------------------------------------------------------------
// Describe probes
// ---------------------------------------------------------------------------

/// Why a baseline's `--describe` probe failed, if it did.
pub open spec fn describe_error(
    output: ProcessOutcome,
    timed_out: bool,
    valid_json_object: bool,
) -> Option<Seq<char>> {
    if timed_out {
        Some("baseline describe timed out"@)
    } else if !output.succeeded() {
        Some("baseline describe exited with status "@ + debug_exit_code(output.exit_code))
    } else if output.stdout@.len() == 0 {
        Some("baseline describe produced no stdout"@)
    } else if !valid_json_object {
        Some("baseline describe stdout was not a JSON object"@)
    } else {
        None
    }
}

pub fn baseline_describe_error(output: &ProcessOutcome, timed_out: bool, valid_json_object: bool) -> (r:
    Option<String>)
    ensures
        string_opt_view(r) == describe_error(*output, timed_out, valid_json_object),
{
    if timed_out {
        Some("baseline describe timed out".to_string())
    } else if !output.success() {
        let mut msg = lit("baseline describe exited with status ");
        append_chars(&mut msg, &crate::process::debug_exit_code_chars(output.exit_code));
        Some(string_of(&msg))
    } else if output.stdout.len() == 0 {
        Some("baseline describe produced no stdout".to_string())
    } else if !valid_json_object {
        Some("baseline describe stdout was not a JSON object".to_string())
    } else {
        None
    }
}

/// The kind of a describe probe's failure: that of the process, else an
/// empty or an invalid description.
pub open spec fn describe_error_kind(
    output: ProcessOutcome,
    timed_out: bool,
    valid_json_object: bool,
) -> Option<Seq<char>> {
    match process_error_kind(output, timed_out) {
        Some(k) => Some(k),
        None => if output.stdout@.len() == 0 {
            Some("empty_describe_output"@)
        } else if !valid_json_object {
            Some("invalid_describe_output"@)
        } else {
            None
        },
    }
}

pub fn baseline_describe_error_kind(
    output: &ProcessOutcome,
    timed_out: bool,
    valid_json_object: bool,
) -> (r: Option<&'static str>)
    ensures
        match r {
            Some(s) => describe_error_kind(*output, timed_out, valid_json_object) == Some(s@),
            None => describe_error_kind(*output, timed_out, valid_json_object) is None,
        },
{
    match crate::process::baseline_process_error_kind(output, timed_out) {
        Some(k) => Some(k),
        None => {
            if output.stdout.len() == 0 {
                Some("empty_describe_output")
            } else if !valid_json_object {
                Some("invalid_describe_output")
            } else {
                None
            }
        },
    }
}

// ---------------------------------------------------------------------------
// Backend smoke runs
// ---------------------------------------------------------------------------

/// What a backend's smoke run on one document gave, as far as sampling
/// failures needs it.
pub struct BackendSmokeOutcome {
    pub path: String,
    pub success: bool,
    pub error_kind: Option<String>,
    pub error: Option<String>,
}

/// A failed backend smoke document, as the report samples it.
pub struct BackendSmokeFailureSample {
    pub path: String,
    pub error_kind: Option<String>,
    pub error: Option<String>,
}

pub open spec fn backend_successes(documents: Seq<BackendSmokeOutcome>) -> Seq<bool> {
    Seq::new(documents.len(), |i: int| documents[i].success)
}

/// The first three documents whose backend smoke run failed.
pub fn backend_smoke_failure_samples(documents: &Vec<BackendSmokeOutcome>) -> (r: Vec<
    BackendSmokeFailureSample,
>)
    ensures
        r@.len() == sampled_positions(backend_successes(documents@)).len(),
        forall|k: int|
            0 <= k < r@.len() ==> {
                let d = documents@[sampled_positions(backend_successes(documents@))[k]];
                &&& (#[trigger] r@[k]).path@ == d.path@
                &&& string_opt_view(r@[k].error_kind) == string_opt_view(d.error_kind)
                &&& string_opt_view(r@[k].error) == string_opt_view(d.error)
            },
{
    let ghost succ = backend_successes(documents@);
    let mut out: Vec<BackendSmokeFailureSample> = Vec::new();
    let mut i: usize = 0;
    while i < documents.len() && out.len() < 3
        invariant
            i <= documents.len(),
            succ == backend_successes(documents@),
            out@.len() <= 3,
            out@.len() == (if failed_positions(succ.take(i as int)).len() < 3 {
                failed_positions(succ.take(i as int)).len() as int
            } else {
                3int
            }),
            forall|k: int|
                0 <= k < out@.len() ==> {
                    let d = documents@[failed_positions(succ.take(i as int))[k]];
                    &&& (#[trigger] out@[k]).path@ == d.path@
                    &&& string_opt_view(out@[k].error_kind) == string_opt_view(d.error_kind)
                    &&& string_opt_view(out@[k].error) == string_opt_view(d.error)
                },
        decreases documents.len() - i,
    {
        let ghost before = failed_positions(succ.take(i as int));
        proof {
            assert(succ.take(i + 1).drop_last() =~= succ.take(i as int));
        }
        let d = &documents[i];
        if !d.success {
            out.push(
                BackendSmokeFailureSample {
                    path: d.path.clone(),
                    error_kind: copy_opt(&d.error_kind),
                    error: copy_opt(&d.error),
                },
            );
            proof {
                let now = failed_positions(succ.take(i + 1));
                assert(now == before.push(i as int));
                assert forall|k: int| 0 <= k < out@.len() implies {
                    let d = documents@[now[k]];
                    &&& (#[trigger] out@[k]).path@ == d.path@
                    &&& string_opt_view(out@[k].error_kind) == string_opt_view(d.error_kind)
                    &&& string_opt_view(out@[k].error) == string_opt_view(d.error)
                } by {
                    if k < out@.len() - 1 {
                        assert(now[k] == before[k]);
                    }
                }
            }
        } else {
            proof {
                assert(failed_positions(succ.take(i + 1)) == before);
            }
        }
        i += 1;
    }
    proof {
        let all = failed_positions(succ);
        let seen = failed_positions(succ.take(i as int));
        lemma_failed_positions_prefix(succ, i as int);
        if out@.len() < 3 {
            assert(i == documents.len());
            assert(succ.take(i as int) =~= succ);
        }
        assert forall|k: int| 0 <= k < out@.len() implies {
            let d = documents@[sampled_positions(succ)[k]];
            &&& (#[trigger] out@[k]).path@ == d.path@
            &&& string_opt_view(out@[k].error_kind) == string_opt_view(d.error_kind)
            &&& string_opt_view(out@[k].error) == string_opt_view(d.error)
        } by {
            assert(seen[k] == all[k]);
        }
    }
    out
}

/// An encrypted document is reported as needing a password.
pub open spec fn backend_error_kind(error: Seq<char>) -> Option<Seq<char>> {
    if seq_contains(error, "encrypted PDFs are not supported"@) {
        Some("encrypted_pdf_requires_password"@)
    } else {
        None
    }
}

pub fn backend_smoke_error_kind(error: &str) -> (r: Option<&'static str>)
    ensures
        match r {
            Some(s) => backend_error_kind(error@) == Some(s@),
            None => backend_error_kind(error@) is None,
        },
{
    if contains_chars(&chars_of(error), &lit("encrypted PDFs are not supported")) {
        Some("encrypted_pdf_requires_password")
    } else {
        None
    }
}

/// A missing page is reported as such; any other rendering failure as a
/// failed render.
pub open spec fn rendered_ocr_error_kind(error: Seq<char>) -> Seq<char> {
    if seq_contains(error, "page index"@) && seq_contains(error, "not found"@) {
        "page_not_found"@
    } else {
        "render_failed"@
    }
}

pub fn pdfium_rendered_ocr_check_error_kind(error: &str) -> (r: &'static str)
    ensures
        r@ == rendered_ocr_error_kind(error@),
{
    let e = chars_of(error);
    if contains_chars(&e, &lit("page index")) && contains_chars(&e, &lit("not found")) {
        "page_not_found"
    } else {
        "render_failed"
    }
}

/// Text segments are taken from a page with at most 256 KiB of native text
/// and no rotation.
pub fn should_extract_pdfium_text_segments(native_text_bytes: u32, rotation_degrees: i16) -> (r:
    bool)
    ensures
        r == (native_text_bytes <= 262144 && (rotation_degrees as int) % 360 == 0),
{
    native_text_bytes <= 262144 && rotation_degrees % 360 == 0
}

// ---------------------------------------------------------------------------
// Baseline quality per category
// ---------------------------------------------------------------------------

/// Whether a baseline's output could be checked against the expectations.
#[derive(Clone, Copy, PartialEq, Eq, Structural, Debug)]
pub enum BaselineQualityStatus {
    Checked,
    NotCheckedNoExpectations,
    NotCheckedTimedOut,
    NotCheckedExecutionFailed,
}

/// Whether a baseline's output on a document can be quality-checked: only
/// with expectations, and only when the run neither timed out nor failed.
pub open spec fn quality_status_of(has_expectations: bool, timed_out: bool, success: bool) -> BaselineQualityStatus {
    if !has_expectations {
        BaselineQualityStatus::NotCheckedNoExpectations
    } else if timed_out {
        BaselineQualityStatus::NotCheckedTimedOut
    } else if !success {
        BaselineQualityStatus::NotCheckedExecutionFailed
    } else {
        BaselineQualityStatus::Checked
    }
}

pub fn baseline_quality_status(has_expectations: bool, timed_out: bool, success: bool) -> (r:
    BaselineQualityStatus)
    ensures
        r == quality_status_of(has_expectations, timed_out, success),
{
    if !has_expectations {
        BaselineQualityStatus::NotCheckedNoExpectations
    } else if timed_out {
        BaselineQualityStatus::NotCheckedTimedOut
    } else if !success {
        BaselineQualityStatus::NotCheckedExecutionFailed
    } else {
        BaselineQualityStatus::Checked
    }
}

/// The documents of a category whose baseline quality was not checked.
#[derive(Clone, Copy, PartialEq, Eq, Structural, Debug)]
pub struct CorpusBaselineQualityUncheckedCategorySummary {
    pub document_count: usize,
    pub page_count: usize,
    pub not_checked_no_expectations_documents: usize,
    pub not_checked_timed_out_documents: usize,
    pub not_checked_execution_failed_documents: usize,
}

impl CorpusBaselineQualityUncheckedCategorySummary {
    /// Counts one more document with its pages under its status.
    pub fn add_document(&mut self, page_count: usize, status: BaselineQualityStatus)
        requires
            old(self).document_count < usize::MAX,
            old(self).page_count + page_count <= usize::MAX,
            old(self).not_checked_no_expectations_documents < usize::MAX,
            old(self).not_checked_timed_out_documents < usize::MAX,
            old(self).not_checked_execution_failed_documents < usize::MAX,
        ensures
            final(self).document_count == old(self).document_count + 1,
            final(self).page_count == old(self).page_count + page_count,
            final(self).not_checked_no_expectations_documents == old(
                self,
            ).not_checked_no_expectations_documents + if status
                == BaselineQualityStatus::NotCheckedNoExpectations {
                1int
            } else {
                0int
            },
            final(self).not_checked_timed_out_documents == old(self).not_checked_timed_out_documents
                + if status == BaselineQualityStatus::NotCheckedTimedOut {
                1int
            } else {
                0int
            },
            final(self).not_checked_execution_failed_documents == old(
                self,
            ).not_checked_execution_failed_documents + if status
                == BaselineQualityStatus::NotCheckedExecutionFailed {
                1int
            } else {
                0int
            },
    {
        self.document_count += 1;
        self.page_count += page_count;
        match status {
            BaselineQualityStatus::Checked => {},
            BaselineQualityStatus::NotCheckedNoExpectations => {
                self.not_checked_no_expectations_documents += 1;
            },
            BaselineQualityStatus::NotCheckedTimedOut => {
                self.not_checked_timed_out_documents += 1;
            },
            BaselineQualityStatus::NotCheckedExecutionFailed => {
                self.not_checked_execution_failed_documents += 1;
            },
        }
    }
}

} // verus!
