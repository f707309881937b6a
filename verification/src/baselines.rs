//! The `baseline-check` command's logic: what asking a baseline to describe
//! itself reports, how the probes of all baselines are summed up, and when
//! the command fails.
use vstd::prelude::*;

use crate::categories::string_opt_view;
use crate::json::{describes_json_object, stdout_is_json_object};
use crate::numbers::{decimal, decimal_chars};
use crate::ocr::{preview_of, TimedProcessOutcome};
use crate::process::stderr_preview;
use crate::smoke::{
    baseline_describe_error, baseline_describe_error_kind, describe_error, describe_error_kind,
    BaselineSmokeCheck,
};
use crate::text::{append_chars, chars_of, lit, string_of};

verus! {

/// The result of asking a baseline to describe itself (`--describe`).
pub struct BaselineDescribeCheck {
    pub success: bool,
    pub exit_status: Option<i32>,
    pub timed_out: bool,
    pub timeout_ms: u64,
    pub wall_us: u128,
    pub stdout_bytes: u64,
    pub stderr_bytes: u64,
    pub stderr_preview: Option<String>,
    pub valid_json_object: bool,
    pub error: Option<String>,
    pub error_kind: Option<String>,
}

/// The describe check of a run that finished: the description counts only
/// when the run neither timed out nor failed, and passes when it is a JSON
/// object.
pub fn baseline_describe_check(run: &TimedProcessOutcome, timeout_ms: u64) -> (c: BaselineDescribeCheck)
    ensures
        c.valid_json_object == (!run.timed_out && run.output.succeeded() && describes_json_object(
            run.output.stdout@,
        )),
        c.success == c.valid_json_object,
        c.exit_status == run.output.exit_code,
        c.timed_out == run.timed_out,
        c.timeout_ms == timeout_ms,
        c.wall_us == run.wall_us,
        c.stdout_bytes == run.output.stdout@.len(),
        c.stderr_bytes == run.output.stderr@.len(),
        string_opt_view(c.stderr_preview) == (if run.output.stderr@.len() == 0 {
            None
        } else {
            Some(preview_of(run.output.stderr@))
        }),
        string_opt_view(c.error) == describe_error(run.output, run.timed_out, c.valid_json_object),
        string_opt_view(c.error_kind) == describe_error_kind(
            run.output,
            run.timed_out,
            c.valid_json_object,
        ),
{
    let output = &run.output;
    let valid = if !run.timed_out && output.success() {
        stdout_is_json_object(output.stdout.as_slice())
    } else {
        false
    };
    let kind = match baseline_describe_error_kind(output, run.timed_out, valid) {
        Some(k) => Some(k.to_string()),
        None => None,
    };
    BaselineDescribeCheck {
        success: valid,
        exit_status: output.exit_code,
        timed_out: run.timed_out,
        timeout_ms,
        wall_us: run.wall_us,
        stdout_bytes: output.stdout.len() as u64,
        stderr_bytes: output.stderr.len() as u64,
        stderr_preview: stderr_preview(output.stderr.as_slice()),
        valid_json_object: valid,
        error: baseline_describe_error(output, run.timed_out, valid),
        error_kind: kind,
    }
}

/// The describe check when the baseline could not be started.
pub fn describe_spawn_failed_check(command: &str, error: &str, timeout_ms: u64) -> (c:
    BaselineDescribeCheck)
    ensures
        !c.success,
        c.exit_status is None,
        !c.timed_out,
        c.timeout_ms == timeout_ms,
        c.wall_us == 0,
        c.stdout_bytes == 0,
        c.stderr_bytes == 0,
        c.stderr_preview is None,
        !c.valid_json_object,
        string_opt_view(c.error) == Some(command@ + ": "@ + error@),
        string_opt_view(c.error_kind) == Some("spawn_failed"@),
{
    let mut msg = chars_of(command);
    append_chars(&mut msg, &lit(": "));
    append_chars(&mut msg, &chars_of(error));
    BaselineDescribeCheck {
        success: false,
        exit_status: None,
        timed_out: false,
        timeout_ms,
        wall_us: 0,
        stdout_bytes: 0,
        stderr_bytes: 0,
        stderr_preview: None,
        valid_json_object: false,
        error: Some(string_of(&msg)),
        error_kind: Some("spawn_failed".to_string()),
    }
}


/// What was checked of one baseline.
pub struct BaselineCheckResult {
    pub name: String,
    pub command: String,
    pub describe: BaselineDescribeCheck,
    pub smoke: Option<BaselineSmokeCheck>,
}

/// The number of baselines whose describe probe passed.
pub open spec fn described_count(results: Seq<BaselineCheckResult>) -> nat
    decreases results.len(),
{
    if results.len() == 0 {
        0
    } else {
        described_count(results.drop_last()) + if results.last().describe.success {
            1nat
        } else {
            0nat
        }
    }
}

/// The number of baselines whose smoke probe ran and passed.
pub open spec fn smoke_passed_count(results: Seq<BaselineCheckResult>) -> nat
    decreases results.len(),
{
    if results.len() == 0 {
        0
    } else {
        smoke_passed_count(results.drop_last()) + if results.last().smoke matches Some(s)
            && s.success {
            1nat
        } else {
            0nat
        }
    }
}

proof fn lemma_counts_bounded(results: Seq<BaselineCheckResult>)
    ensures
        described_count(results) <= results.len(),
        smoke_passed_count(results) <= results.len(),
    decreases results.len(),
{
    if results.len() > 0 {
        lemma_counts_bounded(results.drop_last());
    }
}

/// The summary of a `baseline-check` run.
pub struct BaselineCheckOutput {
    pub strict: bool,
    pub baseline_count: usize,
    pub describe_success_count: usize,
    pub all_described: bool,
    pub smoke_pdf: Option<String>,
    pub smoke_document_count: Option<usize>,
    pub smoke_success_count: Option<usize>,
    pub all_smoke_passed: Option<bool>,
    pub baselines: Vec<BaselineCheckResult>,
}

/// Sums up the probes of all baselines. `smoke_pdf` is what the smoke probes
/// ran on, when they ran, and `smoke_document_count` how many documents were
/// found there, when they could be found.
pub fn baseline_check_output(
    baselines: Vec<BaselineCheckResult>,
    strict: bool,
    smoke_pdf: Option<String>,
    smoke_document_count: Option<usize>,
) -> (o: BaselineCheckOutput)
    ensures
        o.strict == strict,
        o.baseline_count == baselines@.len(),
        o.describe_success_count == described_count(baselines@),
        o.all_described == (baselines@.len() > 0 && described_count(baselines@) == baselines@.len()),
        string_opt_view(o.smoke_pdf) == string_opt_view(smoke_pdf),
        o.smoke_document_count == (if smoke_pdf is Some {
            smoke_document_count
        } else {
            None
        }),
        o.smoke_success_count == (if smoke_pdf is Some {
            Some(smoke_passed_count(baselines@) as usize)
        } else {
            None
        }),
        o.all_smoke_passed == (if smoke_pdf is Some {
            Some(baselines@.len() > 0 && smoke_passed_count(baselines@) == baselines@.len())
        } else {
            None
        }),
        o.baselines@ == baselines@,
{
    let mut described: usize = 0;
    let mut smoked: usize = 0;
    let mut i: usize = 0;
    while i < baselines.len()
        invariant
            i <= baselines@.len(),
            described == described_count(baselines@.take(i as int)),
            smoked == smoke_passed_count(baselines@.take(i as int)),
            described <= i,
            smoked <= i,
        decreases baselines@.len() - i,
    {
        proof {
            assert(baselines@.take(i + 1).drop_last() =~= baselines@.take(i as int));
        }
        if baselines[i].describe.success {
            described = described + 1;
        }
        match &baselines[i].smoke {
            Some(s) => {
                if s.success {
                    smoked = smoked + 1;
                }
            },
            None => {},
        }
        i += 1;
    }
    proof {
        assert(baselines@.take(baselines@.len() as int) =~= baselines@);
    }
    let n = baselines.len();
    let ran = smoke_pdf.is_some();
    BaselineCheckOutput {
        strict,
        baseline_count: n,
        describe_success_count: described,
        all_described: n > 0 && described == n,
        smoke_pdf,
        smoke_document_count: if ran {
            smoke_document_count
        } else {
            None
        },
        smoke_success_count: if ran {
            Some(smoked)
        } else {
            None
        },
        all_smoke_passed: if ran {
            Some(n > 0 && smoked == n)
        } else {
            None
        },
        baselines,
    }
}

/// Why a strict `baseline-check` fails: not every baseline described itself,
/// or the smoke probes ran and not every one passed.
pub open spec fn strict_error(
    strict: bool,
    all_described: bool,
    described: nat,
    count: nat,
    all_smoke_passed: Option<bool>,
    smoke_success: Option<usize>,
) -> Option<Seq<char>> {
    if !strict {
        None
    } else if !all_described {
        Some(
            "baseline-check strict failed: "@ + decimal(described) + "/"@ + decimal(count)
                + " baseline describe probe(s) passed"@,
        )
    } else if all_smoke_passed == Some(false) {
        Some(
            "baseline-check strict failed: "@ + decimal(
                match smoke_success {
                    Some(n) => n as nat,
                    None => 0nat,
                },
            ) + "/"@ + decimal(count) + " baseline smoke probe(s) passed"@,
        )
    } else {
        None
    }
}

fn ratio_message(head: &str, done: usize, count: usize, tail: &str) -> (r: String)
    ensures
        r@ == head@ + decimal(done as nat) + "/"@ + decimal(count as nat) + tail@,
{
    let mut msg = chars_of(head);
    append_chars(&mut msg, &decimal_chars(done as u64));
    append_chars(&mut msg, &lit("/"));
    append_chars(&mut msg, &decimal_chars(count as u64));
    append_chars(&mut msg, &chars_of(tail));
    string_of(&msg)
}

/// The error of a strict `baseline-check`, if it failed.
pub fn baseline_check_strict_error(output: &BaselineCheckOutput) -> (r: Option<String>)
    ensures
        string_opt_view(r) == strict_error(
            output.strict,
            output.all_described,
            output.describe_success_count as nat,
            output.baseline_count as nat,
            output.all_smoke_passed,
            output.smoke_success_count,
        ),
{
    if !output.strict {
        return None;
    }
    if !output.all_described {
        return Some(
            ratio_message(
                "baseline-check strict failed: ",
                output.describe_success_count,
                output.baseline_count,
                " baseline describe probe(s) passed",
            ),
        );
    }
    match output.all_smoke_passed {
        Some(false) => {
            let done: usize = match output.smoke_success_count {
                Some(n) => n,
                None => 0,
            };
            Some(
                ratio_message(
                    "baseline-check strict failed: ",
                    done,
                    output.baseline_count,
                    " baseline smoke probe(s) passed",
                ),
            )
        },
        _ => None,
    }
}

/// The error of a `baseline-check`: it needs at least one baseline, and a
/// strict check must pass.
pub fn baseline_check_error(output: &BaselineCheckOutput) -> (r: Option<String>)
    ensures
        string_opt_view(r) == (if output.baseline_count == 0 {
            Some("baseline-check requires at least one --baseline"@)
        } else {
            strict_error(
                output.strict,
                output.all_described,
                output.describe_success_count as nat,
                output.baseline_count as nat,
                output.all_smoke_passed,
                output.smoke_success_count,
            )
        }),
{
    if output.baseline_count == 0 {
        return Some("baseline-check requires at least one --baseline".to_string());
    }
    baseline_check_strict_error(output)
}

} // verus!
