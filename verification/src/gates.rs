//! The requirements a benchmark run can be held to: that its baselines ran,
//! that their quality was checked and passed, that the corpus covered a
//! preset, and that each required speed-up claim passed; and how one claim
//! is judged from what the run measured.
use vstd::prelude::*;

use crate::categories::string_opt_view;
use crate::cli::{coverage_preset_name, CoveragePreset};
use crate::metrics::{claim_status_label, speedup_claim_status_label, BenchmarkSpeedupClaimStatus};
use crate::numbers::{decimal, decimal_chars};
use crate::text::{append_chars, chars_of, join_strings, join_with, lit, string_of};

verus! {

broadcast use crate::views::lemma_char_vec_deep_view;

// ---------------------------------------------------------------------------
// One speed-up claim
// ---------------------------------------------------------------------------

/// What keeps a claim's quality from backing it.
#[derive(Clone, Copy, PartialEq, Eq, Structural, Debug)]
pub enum BenchmarkSpeedupClaimQualityBlocker {
    GlyphrushQualityNotChecked,
    GlyphrushQualityFailed,
    BaselineQualityNotChecked,
    BaselineQualityFailed,
}

/// What a run measured for a claim against a baseline. `speed_passed` is
/// whether the measured speed-up reached the required one.
#[derive(Clone, Copy, PartialEq, Eq, Structural, Debug)]
pub struct BenchmarkSpeedupClaimInput {
    pub baseline_was_run: bool,
    pub speed_comparable: bool,
    pub speed_passed: bool,
    pub glyphrush_quality_checked: bool,
    pub glyphrush_quality_passed: bool,
    pub baseline_quality_checked: bool,
    pub baseline_quality_passed: bool,
}

/// How a claim is judged.
#[derive(Clone, Copy, PartialEq, Eq, Structural, Debug)]
pub struct BenchmarkSpeedupClaimDecision {
    pub glyphrush_quality_backed: bool,
    pub quality_backed: bool,
    pub quality_blocker: Option<BenchmarkSpeedupClaimQualityBlocker>,
    pub status: BenchmarkSpeedupClaimStatus,
    pub claim_passed: bool,
}

/// The first missing or failed quality check, this tool's first.
pub open spec fn claim_quality_blocker(i: BenchmarkSpeedupClaimInput) -> Option<BenchmarkSpeedupClaimQualityBlocker> {
    if !i.glyphrush_quality_checked {
        Some(BenchmarkSpeedupClaimQualityBlocker::GlyphrushQualityNotChecked)
    } else if !i.glyphrush_quality_passed {
        Some(BenchmarkSpeedupClaimQualityBlocker::GlyphrushQualityFailed)
    } else if !i.baseline_quality_checked {
        Some(BenchmarkSpeedupClaimQualityBlocker::BaselineQualityNotChecked)
    } else if !i.baseline_quality_passed {
        Some(BenchmarkSpeedupClaimQualityBlocker::BaselineQualityFailed)
    } else {
        None
    }
}

/// The claim's status: the first of a baseline that did not run, speeds that
/// cannot be compared, a speed-up that fell short, quality not checked on
/// both sides, and quality that failed; else passed.
pub open spec fn claim_status(i: BenchmarkSpeedupClaimInput) -> BenchmarkSpeedupClaimStatus {
    let quality_checked = i.glyphrush_quality_checked && i.baseline_quality_checked;
    let quality_backed = i.glyphrush_quality_checked && i.glyphrush_quality_passed
        && i.baseline_quality_checked && i.baseline_quality_passed;
    if !i.baseline_was_run {
        BenchmarkSpeedupClaimStatus::BaselineNotRun
    } else if !i.speed_comparable {
        BenchmarkSpeedupClaimStatus::NotSpeedComparable
    } else if !i.speed_passed {
        BenchmarkSpeedupClaimStatus::SpeedupFailed
    } else if !quality_checked {
        BenchmarkSpeedupClaimStatus::QualityNotChecked
    } else if !quality_backed {
        BenchmarkSpeedupClaimStatus::QualityFailed
    } else {
        BenchmarkSpeedupClaimStatus::Passed
    }
}

/// Judges a speed-up claim.
pub fn speedup_claim(i: BenchmarkSpeedupClaimInput) -> (d: BenchmarkSpeedupClaimDecision)
    ensures
        d.glyphrush_quality_backed == (i.glyphrush_quality_checked && i.glyphrush_quality_passed),
        d.quality_backed == (i.glyphrush_quality_checked && i.glyphrush_quality_passed
            && i.baseline_quality_checked && i.baseline_quality_passed),
        d.quality_blocker == claim_quality_blocker(i),
        d.status == claim_status(i),
        d.claim_passed == (d.status == BenchmarkSpeedupClaimStatus::Passed),
{
    let glyphrush_quality_backed = i.glyphrush_quality_checked && i.glyphrush_quality_passed;
    let quality_checked = i.glyphrush_quality_checked && i.baseline_quality_checked;
    let quality_backed = glyphrush_quality_backed && i.baseline_quality_checked
        && i.baseline_quality_passed;
    let quality_blocker = if !i.glyphrush_quality_checked {
        Some(BenchmarkSpeedupClaimQualityBlocker::GlyphrushQualityNotChecked)
    } else if !i.glyphrush_quality_passed {
        Some(BenchmarkSpeedupClaimQualityBlocker::GlyphrushQualityFailed)
    } else if !i.baseline_quality_checked {
        Some(BenchmarkSpeedupClaimQualityBlocker::BaselineQualityNotChecked)
    } else if !i.baseline_quality_passed {
        Some(BenchmarkSpeedupClaimQualityBlocker::BaselineQualityFailed)
    } else {
        None
    };
    let status = if !i.baseline_was_run {
        BenchmarkSpeedupClaimStatus::BaselineNotRun
    } else if !i.speed_comparable {
        BenchmarkSpeedupClaimStatus::NotSpeedComparable
    } else if !i.speed_passed {
        BenchmarkSpeedupClaimStatus::SpeedupFailed
    } else if !quality_checked {
        BenchmarkSpeedupClaimStatus::QualityNotChecked
    } else if !quality_backed {
        BenchmarkSpeedupClaimStatus::QualityFailed
    } else {
        BenchmarkSpeedupClaimStatus::Passed
    };
    BenchmarkSpeedupClaimDecision {
        glyphrush_quality_backed,
        quality_backed,
        quality_blocker,
        claim_passed: status == BenchmarkSpeedupClaimStatus::Passed,
        status,
    }
}

/// A claim passes exactly when the baseline ran, speeds compare, the
/// speed-up was reached, and both sides' quality was checked and passed.
pub proof fn lemma_claim_passes_iff(i: BenchmarkSpeedupClaimInput)
    ensures
        claim_status(i) == BenchmarkSpeedupClaimStatus::Passed <==> (i.baseline_was_run
            && i.speed_comparable && i.speed_passed && i.glyphrush_quality_checked
            && i.glyphrush_quality_passed && i.baseline_quality_checked && i.baseline_quality_passed),
        claim_status(i) == BenchmarkSpeedupClaimStatus::Passed ==> claim_quality_blocker(i) is None,
{
}

/// The label of a quality blocker in reports.
pub open spec fn quality_blocker_label(b: BenchmarkSpeedupClaimQualityBlocker) -> Seq<char> {
    match b {
        BenchmarkSpeedupClaimQualityBlocker::GlyphrushQualityNotChecked => "glyphrush_quality_not_checked"@,
        BenchmarkSpeedupClaimQualityBlocker::GlyphrushQualityFailed => "glyphrush_quality_failed"@,
        BenchmarkSpeedupClaimQualityBlocker::BaselineQualityNotChecked => "baseline_quality_not_checked"@,
        BenchmarkSpeedupClaimQualityBlocker::BaselineQualityFailed => "baseline_quality_failed"@,
    }
}

pub fn speedup_claim_quality_blocker_label(b: BenchmarkSpeedupClaimQualityBlocker) -> (r: &'static str)
    ensures
        r@ == quality_blocker_label(b),
{
    match b {
        BenchmarkSpeedupClaimQualityBlocker::GlyphrushQualityNotChecked => "glyphrush_quality_not_checked",
        BenchmarkSpeedupClaimQualityBlocker::GlyphrushQualityFailed => "glyphrush_quality_failed",
        BenchmarkSpeedupClaimQualityBlocker::BaselineQualityNotChecked => "baseline_quality_not_checked",
        BenchmarkSpeedupClaimQualityBlocker::BaselineQualityFailed => "baseline_quality_failed",
    }
}

// ---------------------------------------------------------------------------
// Required claims
// ---------------------------------------------------------------------------

/// A required claim: the baseline, and the evaluated claim for the same
/// baseline and ratio if there is one (whether it passed, and its status).
pub struct RequiredSpeedupClaim {
    pub baseline: String,
    pub claim: Option<(bool, BenchmarkSpeedupClaimStatus)>,
}

/// The first required claim that was not evaluated or did not pass.
pub open spec fn claim_requirement_error(reqs: Seq<RequiredSpeedupClaim>) -> Option<Seq<char>>
    decreases reqs.len(),
{
    if reqs.len() == 0 {
        None
    } else {
        let r = reqs[0];
        match r.claim {
            None => Some(
                "bench speedup claim required: baseline "@ + r.baseline@ + " claim was not evaluated"@,
            ),
            Some((passed, status)) => if !passed {
                Some("bench speedup claim required: baseline "@ + r.baseline@ + " status "@ + claim_status_label(status))
            } else {
                claim_requirement_error(reqs.drop_first())
            },
        }
    }
}

pub fn speedup_claim_requirement_error(reqs: &Vec<RequiredSpeedupClaim>) -> (r: Option<String>)
    ensures
        string_opt_view(r) == claim_requirement_error(reqs@),
{
    let mut i: usize = 0;
    proof {
        assert(reqs@.skip(0) =~= reqs@);
    }
    while i < reqs.len()
        invariant
            i <= reqs@.len(),
            claim_requirement_error(reqs@) == claim_requirement_error(reqs@.skip(i as int)),
        decreases reqs@.len() - i,
    {
        proof {
            assert(reqs@.skip(i as int).drop_first() =~= reqs@.skip(i + 1));
            assert(reqs@.skip(i as int)[0] == reqs@[i as int]);
        }
        let r = &reqs[i];
        match r.claim {
            None => {
                let mut msg = lit("bench speedup claim required: baseline ");
                append_chars(&mut msg, &chars_of(r.baseline.as_str()));
                append_chars(&mut msg, &lit(" claim was not evaluated"));
                return Some(string_of(&msg));
            },
            Some((passed, status)) => {
                if !passed {
                    let mut msg = lit("bench speedup claim required: baseline ");
                    append_chars(&mut msg, &chars_of(r.baseline.as_str()));
                    append_chars(&mut msg, &lit(" status "));
                    append_chars(&mut msg, &chars_of(speedup_claim_status_label(status)));
                    return Some(string_of(&msg));
                }
            },
        }
        i += 1;
    }
    proof {
        assert(reqs@.skip(i as int).len() == 0);
    }
    None
}

// ---------------------------------------------------------------------------
// Baselines
// ---------------------------------------------------------------------------

/// The number of `false` entries.
pub open spec fn count_false(s: Seq<bool>) -> nat
    decreases s.len(),
{
    if s.len() == 0 {
        0
    } else {
        count_false(s.drop_last()) + if s.last() {
            0nat
        } else {
            1nat
        }
    }
}

proof fn lemma_count_false_bound(s: Seq<bool>)
    ensures
        count_false(s) <= s.len(),
    decreases s.len(),
{
    if s.len() > 0 {
        lemma_count_false_bound(s.drop_last());
    }
}

fn falses(s: &Vec<bool>) -> (n: usize)
    ensures
        n == count_false(s@),
{
    let mut n: usize = 0;
    let mut i: usize = 0;
    while i < s.len()
        invariant
            i <= s@.len(),
            n == count_false(s@.take(i as int)),
        decreases s@.len() - i,
    {
        proof {
            assert(s@.take(i + 1).drop_last() =~= s@.take(i as int));
            lemma_count_false_bound(s@.take(i as int));
        }
        if !s[i] {
            n = n + 1;
        }
        i += 1;
    }
    proof {
        assert(s@.take(s@.len() as int) =~= s@);
    }
    n
}

/// The sum of some counts.
pub open spec fn total(s: Seq<usize>) -> nat
    decreases s.len(),
{
    if s.len() == 0 {
        0
    } else {
        total(s.drop_last()) + s.last() as nat
    }
}

proof fn lemma_total_prefix(s: Seq<usize>, i: int)
    requires
        0 <= i <= s.len(),
    ensures
        total(s.take(i)) <= total(s),
    decreases s.len() - i,
{
    if i < s.len() {
        lemma_total_prefix(s, i + 1);
        assert(s.take(i + 1).drop_last() =~= s.take(i));
    } else {
        assert(s.take(i) =~= s);
    }
}

fn sum_counts(s: &Vec<usize>) -> (n: usize)
    requires
        total(s@) <= usize::MAX,
    ensures
        n == total(s@),
{
    let mut n: usize = 0;
    let mut i: usize = 0;
    while i < s.len()
        invariant
            i <= s@.len(),
            total(s@) <= usize::MAX,
            n == total(s@.take(i as int)),
        decreases s@.len() - i,
    {
        proof {
            assert(s@.take(i + 1).drop_last() =~= s@.take(i as int));
            lemma_total_prefix(s@, i + 1);
        }
        n = n + s[i];
        i += 1;
    }
    proof {
        assert(s@.take(s@.len() as int) =~= s@);
    }
    n
}

fn counted_message(head: &str, n: usize, tail: &str) -> (r: String)
    ensures
        r@ == head@ + decimal(n as nat) + tail@,
{
    let mut msg = chars_of(head);
    append_chars(&mut msg, &decimal_chars(n as u64));
    append_chars(&mut msg, &chars_of(tail));
    string_of(&msg)
}

/// Baselines are required to have run, and to have succeeded on the
/// document; `successes` says for each baseline whether it did.
pub open spec fn baseline_requirement(successes: Seq<bool>) -> Option<Seq<char>> {
    if successes.len() == 0 {
        Some("bench baselines required: no baselines were requested"@)
    } else if count_false(successes) > 0 {
        Some("bench baselines required: "@ + decimal(count_false(successes)) + " baseline run(s) failed"@)
    } else {
        None
    }
}

pub fn baseline_requirement_error(successes: &Vec<bool>) -> (r: Option<String>)
    ensures
        string_opt_view(r) == baseline_requirement(successes@),
{
    if successes.len() == 0 {
        return Some("bench baselines required: no baselines were requested".to_string());
    }
    let failed = falses(successes);
    if failed > 0 {
        Some(counted_message("bench baselines required: ", failed, " baseline run(s) failed"))
    } else {
        None
    }
}

/// Over a corpus, baselines are required to have run and to have failed on
/// no document; `failed_documents` gives each baseline's failures.
pub open spec fn corpus_baseline_requirement(failed_documents: Seq<usize>) -> Option<Seq<char>> {
    if failed_documents.len() == 0 {
        Some("bench baselines required: no baselines were requested"@)
    } else if total(failed_documents) > 0 {
        Some(
            "bench baselines required: "@ + decimal(total(failed_documents))
                + " baseline document run(s) failed"@,
        )
    } else {
        None
    }
}

pub fn corpus_baseline_requirement_error(failed_documents: &Vec<usize>) -> (r: Option<String>)
    requires
        total(failed_documents@) <= usize::MAX,
    ensures
        string_opt_view(r) == corpus_baseline_requirement(failed_documents@),
{
    if failed_documents.len() == 0 {
        return Some("bench baselines required: no baselines were requested".to_string());
    }
    let failed = sum_counts(failed_documents);
    if failed > 0 {
        Some(counted_message("bench baselines required: ", failed, " baseline document run(s) failed"))
    } else {
        None
    }
}

/// What a baseline run on one document shows of its quality: whether it was
/// checked, and whether a check failed.
#[derive(Clone, Copy, PartialEq, Eq, Structural, Debug)]
pub struct BaselineRunQuality {
    pub checked: bool,
    pub failed: bool,
}

pub open spec fn checked_flags(runs: Seq<BaselineRunQuality>) -> Seq<bool> {
    Seq::new(runs.len(), |i: int| runs[i].checked)
}

pub open spec fn passed_flags(runs: Seq<BaselineRunQuality>) -> Seq<bool> {
    Seq::new(runs.len(), |i: int| !runs[i].failed)
}

/// Baseline quality is required to have been checked on every run and to
/// have passed.
pub open spec fn baseline_quality_requirement(runs: Seq<BaselineRunQuality>) -> Option<Seq<char>> {
    if runs.len() == 0 {
        Some("bench baseline quality required: no baselines were requested"@)
    } else if count_false(checked_flags(runs)) > 0 {
        Some(
            "bench baseline quality required: "@ + decimal(count_false(checked_flags(runs)))
                + " baseline run(s) were not quality-checked"@,
        )
    } else if count_false(passed_flags(runs)) > 0 {
        Some(
            "bench baseline quality required: "@ + decimal(count_false(passed_flags(runs)))
                + " baseline quality run(s) failed"@,
        )
    } else {
        None
    }
}

pub fn baseline_quality_requirement_error(runs: &Vec<BaselineRunQuality>) -> (r: Option<String>)
    ensures
        string_opt_view(r) == baseline_quality_requirement(runs@),
{
    if runs.len() == 0 {
        return Some("bench baseline quality required: no baselines were requested".to_string());
    }
    let mut checked: Vec<bool> = Vec::new();
    let mut passed: Vec<bool> = Vec::new();
    let mut i: usize = 0;
    while i < runs.len()
        invariant
            i <= runs@.len(),
            checked@ == checked_flags(runs@).take(i as int),
            passed@ == passed_flags(runs@).take(i as int),
        decreases runs@.len() - i,
    {
        checked.push(runs[i].checked);
        passed.push(!runs[i].failed);
        i += 1;
        proof {
            assert(checked@ =~= checked_flags(runs@).take(i as int));
            assert(passed@ =~= passed_flags(runs@).take(i as int));
        }
    }
    proof {
        assert(checked@ =~= checked_flags(runs@));
        assert(passed@ =~= passed_flags(runs@));
    }
    let unchecked = falses(&checked);
    if unchecked > 0 {
        return Some(
            counted_message(
                "bench baseline quality required: ",
                unchecked,
                " baseline run(s) were not quality-checked",
            ),
        );
    }
    let failed = falses(&passed);
    if failed > 0 {
        Some(counted_message("bench baseline quality required: ", failed, " baseline quality run(s) failed"))
    } else {
        None
    }
}

/// Over a corpus, baseline quality is required to have been checked on every
/// document run and to have passed; the counts are per baseline.
pub open spec fn corpus_baseline_quality_requirement(
    unchecked_documents: Seq<usize>,
    failed_documents: Seq<usize>,
) -> Option<Seq<char>> {
    if unchecked_documents.len() == 0 {
        Some("bench baseline quality required: no baselines were requested"@)
    } else if total(unchecked_documents) > 0 {
        Some(
            "bench baseline quality required: "@ + decimal(total(unchecked_documents))
                + " baseline document run(s) were not quality-checked"@,
        )
    } else if total(failed_documents) > 0 {
        Some(
            "bench baseline quality required: "@ + decimal(total(failed_documents))
                + " baseline quality document run(s) failed"@,
        )
    } else {
        None
    }
}

pub fn corpus_baseline_quality_requirement_error(
    unchecked_documents: &Vec<usize>,
    failed_documents: &Vec<usize>,
) -> (r: Option<String>)
    requires
        total(unchecked_documents@) <= usize::MAX,
        total(failed_documents@) <= usize::MAX,
    ensures
        string_opt_view(r) == corpus_baseline_quality_requirement(unchecked_documents@, failed_documents@),
{
    if unchecked_documents.len() == 0 {
        return Some("bench baseline quality required: no baselines were requested".to_string());
    }
    let unchecked = sum_counts(unchecked_documents);
    if unchecked > 0 {
        return Some(
            counted_message(
                "bench baseline quality required: ",
                unchecked,
                " baseline document run(s) were not quality-checked",
            ),
        );
    }
    let failed = sum_counts(failed_documents);
    if failed > 0 {
        Some(
            counted_message(
                "bench baseline quality required: ",
                failed,
                " baseline quality document run(s) failed",
            ),
        )
    } else {
        None
    }
}

// ---------------------------------------------------------------------------
// Coverage
// ---------------------------------------------------------------------------

/// A required coverage preset needs a quality report with a category
/// coverage that passed. `coverage` is absent without a quality report, and
/// holds nothing when the report has no coverage; else whether it passed and
/// the missing categories.
pub open spec fn coverage_requirement(
    preset: Option<CoveragePreset>,
    coverage: Option<Option<(bool, Seq<Seq<char>>)>>,
) -> Option<Seq<char>> {
    match preset {
        None => None,
        Some(p) => match coverage {
            None => Some(
                "bench coverage preset "@ + coverage_preset_name(p)
                    + " required: no eval manifest quality report was checked"@,
            ),
            Some(None) => Some(
                "bench coverage preset "@ + coverage_preset_name(p) + " required: no category coverage was checked"@,
            ),
            Some(Some((passed, missing))) => if passed {
                None
            } else {
                Some(
                    "bench coverage preset "@ + coverage_preset_name(p) + " failed: missing categories "@
                        + (if missing.len() == 0 {
                        "none"@
                    } else {
                        join_with(missing, ","@)
                    }),
                )
            },
        },
    }
}

pub open spec fn coverage_view(coverage: Option<Option<(bool, Vec<String>)>>) -> Option<Option<(bool, Seq<Seq<char>>)>> {
    match coverage {
        None => None,
        Some(None) => Some(None),
        Some(Some((passed, missing))) => Some(Some((passed, missing.deep_view()))),
    }
}

pub fn benchmark_coverage_requirement_error(
    preset: Option<CoveragePreset>,
    coverage: &Option<Option<(bool, Vec<String>)>>,
) -> (r: Option<String>)
    ensures
        string_opt_view(r) == coverage_requirement(preset, coverage_view(*coverage)),
{
    let p = match preset {
        Some(p) => p,
        None => {
            return None;
        },
    };
    let mut msg = lit("bench coverage preset ");
    append_chars(&mut msg, &chars_of(p.name()));
    match coverage {
        None => {
            append_chars(&mut msg, &lit(" required: no eval manifest quality report was checked"));
            Some(string_of(&msg))
        },
        Some(None) => {
            append_chars(&mut msg, &lit(" required: no category coverage was checked"));
            Some(string_of(&msg))
        },
        Some(Some((passed, missing))) => {
            if *passed {
                None
            } else {
                append_chars(&mut msg, &lit(" failed: missing categories "));
                if missing.len() == 0 {
                    append_chars(&mut msg, &lit("none"));
                } else {
                    let joined = join_strings(missing, ",");
                    append_chars(&mut msg, &chars_of(joined.as_str()));
                }
                Some(string_of(&msg))
            }
        },
    }
}

// ---------------------------------------------------------------------------
// Corpus fingerprint
// ---------------------------------------------------------------------------

/// A benchmarked document as the corpus fingerprint reads it.
pub struct CorpusFingerprintEntry {
    pub path: String,
    pub document_fingerprint: String,
    pub page_count: usize,
}

/// The text whose digest fingerprints a corpus: a version line, then one
/// tab-separated line per document.
pub open spec fn corpus_payload(entries: Seq<CorpusFingerprintEntry>) -> Seq<char>
    decreases entries.len(),
{
    if entries.len() == 0 {
        "glyphrush-corpus-v1\n"@
    } else {
        let e = entries.last();
        corpus_payload(entries.drop_last()) + e.path@ + "\t"@ + e.document_fingerprint@ + "\t"@ + decimal(
            e.page_count as nat,
        ) + "\n"@
    }
}

pub fn corpus_fingerprint_payload(entries: &Vec<CorpusFingerprintEntry>) -> (r: String)
    ensures
        r@ == corpus_payload(entries@),
{
    let mut out = lit("glyphrush-corpus-v1\n");
    let mut i: usize = 0;
    while i < entries.len()
        invariant
            i <= entries@.len(),
            out@ == corpus_payload(entries@.take(i as int)),
        decreases entries@.len() - i,
    {
        proof {
            assert(entries@.take(i + 1).drop_last() =~= entries@.take(i as int));
            assert(entries@.take(i + 1).last() == entries@[i as int]);
        }
        let e = &entries[i];
        append_chars(&mut out, &chars_of(e.path.as_str()));
        append_chars(&mut out, &lit("\t"));
        append_chars(&mut out, &chars_of(e.document_fingerprint.as_str()));
        append_chars(&mut out, &lit("\t"));
        append_chars(&mut out, &decimal_chars(e.page_count as u64));
        append_chars(&mut out, &lit("\n"));
        i += 1;
    }
    proof {
        assert(entries@.take(entries@.len() as int) =~= entries@);
    }
    string_of(&out)
}

} // verus!
