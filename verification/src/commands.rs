//! The decisions the subcommands make around their work: argument checks,
//! worker counts, and which gate of a run fails it, with the message the
//! command ends with.
use vstd::prelude::*;

use crate::categories::string_opt_view;
use crate::cli::{coverage_preset_name, CoveragePreset};
use crate::numbers::{decimal, decimal_chars};
use crate::text::{append_chars, chars_of, lit, string_of};

verus! {

broadcast use crate::views::lemma_char_vec_deep_view;

/// Page workers of a run: one for a corpus directory, else as many as
/// requested and at least one.
pub fn page_jobs_for(is_dir: bool, jobs: usize) -> (r: usize)
    ensures
        r == (if is_dir {
            1
        } else if jobs >= 1 {
            jobs
        } else {
            1
        }),
{
    if is_dir {
        1
    } else if jobs >= 1 {
        jobs
    } else {
        1
    }
}

/// `inspect --cache-dir` needs `--pages`.
pub fn inspect_arguments_error(pages: bool, cache_dir_given: bool) -> (r: Option<String>)
    ensures
        string_opt_view(r) == (if !pages && cache_dir_given {
            Some("inspect --cache-dir requires --pages"@)
        } else {
            None
        }),
{
    if !pages && cache_dir_given {
        Some("inspect --cache-dir requires --pages".to_string())
    } else {
        None
    }
}

/// The message of a failed evaluation.
pub open spec fn eval_failure(passed: bool, failed_checks: nat) -> Option<Seq<char>> {
    if passed {
        None
    } else {
        Some("eval failed: "@ + decimal(failed_checks) + " check(s) failed"@)
    }
}

pub fn eval_failure_error(passed: bool, failed_checks: u64) -> (r: Option<String>)
    ensures
        string_opt_view(r) == eval_failure(passed, failed_checks as nat),
{
    if passed {
        return None;
    }
    let mut msg = lit("eval failed: ");
    append_chars(&mut msg, &decimal_chars(failed_checks));
    append_chars(&mut msg, &lit(" check(s) failed"));
    Some(string_of(&msg))
}

/// A backend check fails when its smoke run, if there was one, failed.
pub fn backend_check_error(smoke_success: Option<bool>) -> (r: Option<String>)
    ensures
        string_opt_view(r) == (if smoke_success == Some(false) {
            Some("backend smoke failed"@)
        } else {
            None
        }),
{
    match smoke_success {
        Some(false) => Some("backend smoke failed".to_string()),
        _ => None,
    }
}

/// The first gate of a feature-parity run that fails: speed evidence, then
/// speed advantage, then coverage of the required preset.
pub open spec fn feature_parity_gate(
    require_speed_evidence: bool,
    evidence_passed: Option<bool>,
    require_speed_advantage: bool,
    advantage_ready: bool,
    require_coverage_preset: Option<CoveragePreset>,
    coverage_passed: Option<bool>,
) -> Option<Seq<char>> {
    if require_speed_evidence && evidence_passed != Some(true) {
        Some("feature-parity speed evidence did not satisfy quality-backed LiteParse claims"@)
    } else if require_speed_advantage && !advantage_ready {
        Some("feature-parity speed evidence did not satisfy native-text speed advantage evidence"@)
    } else {
        match require_coverage_preset {
            Some(p) => if coverage_passed != Some(true) {
                Some(
                    "feature-parity benchmark evidence did not satisfy coverage preset "@
                        + coverage_preset_name(p),
                )
            } else {
                None
            },
            None => None,
        }
    }
}

pub fn feature_parity_gate_error(
    require_speed_evidence: bool,
    evidence_passed: Option<bool>,
    require_speed_advantage: bool,
    advantage_ready: bool,
    require_coverage_preset: Option<CoveragePreset>,
    coverage_passed: Option<bool>,
) -> (r: Option<String>)
    ensures
        string_opt_view(r) == feature_parity_gate(
            require_speed_evidence,
            evidence_passed,
            require_speed_advantage,
            advantage_ready,
            require_coverage_preset,
            coverage_passed,
        ),
{
    if require_speed_evidence && evidence_passed != Some(true) {
        return Some(
            "feature-parity speed evidence did not satisfy quality-backed LiteParse claims".to_string(),
        );
    }
    if require_speed_advantage && !advantage_ready {
        return Some(
            "feature-parity speed evidence did not satisfy native-text speed advantage evidence".to_string(),
        );
    }
    match require_coverage_preset {
        Some(p) => {
            if coverage_passed != Some(true) {
                let mut msg = lit("feature-parity benchmark evidence did not satisfy coverage preset ");
                append_chars(&mut msg, &chars_of(p.name()));
                Some(string_of(&msg))
            } else {
                None
            }
        },
        None => None,
    }
}

/// What the gates of a benchmark run are given: the errors found by the
/// checks of coverage, baselines and speedups, and the quality outcome.
pub struct BenchGateInputs {
    pub coverage_error: Option<String>,
    pub failed_checks: u64,
    pub require_quality: bool,
    pub quality_checked: bool,
    pub require_baselines: bool,
    pub baseline_error: Option<String>,
    pub require_baseline_quality: bool,
    pub baseline_quality_error: Option<String>,
    pub speedup_error: Option<String>,
    pub speedup_claim_error: Option<String>,
}

/// The first gate of a benchmark run that fails, in the order the run
/// checks them.
pub open spec fn bench_gate(g: BenchGateInputs) -> Option<Seq<char>> {
    if g.coverage_error is Some {
        string_opt_view(g.coverage_error)
    } else if g.failed_checks > 0 {
        Some("bench quality failed: "@ + decimal(g.failed_checks as nat) + " check(s) failed"@)
    } else if g.require_quality && !g.quality_checked {
        Some("bench quality required: no eval manifest quality report was checked"@)
    } else if g.require_baselines && g.baseline_error is Some {
        string_opt_view(g.baseline_error)
    } else if g.require_baseline_quality && g.baseline_quality_error is Some {
        string_opt_view(g.baseline_quality_error)
    } else if g.speedup_error is Some {
        string_opt_view(g.speedup_error)
    } else {
        string_opt_view(g.speedup_claim_error)
    }
}

fn copy_opt(s: &Option<String>) -> (r: Option<String>)
    ensures
        string_opt_view(r) == string_opt_view(*s),
{
    match s {
        Some(x) => Some(x.clone()),
        None => None,
    }
}

pub fn enforce_bench_gates(g: &BenchGateInputs) -> (r: Result<(), String>)
    ensures
        match r {
            Ok(()) => bench_gate(*g) is None,
            Err(e) => bench_gate(*g) == Some(e@),
        },
{
    if g.coverage_error.is_some() {
        return match copy_opt(&g.coverage_error) {
            Some(e) => Err(e),
            None => Ok(()),
        };
    }
    if g.failed_checks > 0 {
        let mut msg = lit("bench quality failed: ");
        append_chars(&mut msg, &decimal_chars(g.failed_checks));
        append_chars(&mut msg, &lit(" check(s) failed"));
        return Err(string_of(&msg));
    }
    if g.require_quality && !g.quality_checked {
        return Err("bench quality required: no eval manifest quality report was checked".to_string());
    }
    let next: Option<String> = if g.require_baselines && g.baseline_error.is_some() {
        copy_opt(&g.baseline_error)
    } else if g.require_baseline_quality && g.baseline_quality_error.is_some() {
        copy_opt(&g.baseline_quality_error)
    } else if g.speedup_error.is_some() {
        copy_opt(&g.speedup_error)
    } else {
        copy_opt(&g.speedup_claim_error)
    };
    match next {
        Some(e) => Err(e),
        None => Ok(()),
    }
}

/// A run passes its gates exactly when nothing is reported against it.
pub proof fn lemma_bench_gates_pass_iff(g: BenchGateInputs)
    ensures
        bench_gate(g) is None <==> (g.coverage_error is None && g.failed_checks == 0 && (
        !g.require_quality || g.quality_checked) && (!g.require_baselines || g.baseline_error is None)
            && (!g.require_baseline_quality || g.baseline_quality_error is None)
            && g.speedup_error is None && g.speedup_claim_error is None),
{
}

} // verus!
