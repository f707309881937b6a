//! The cache probe of a corpus benchmark: each document is parsed cold and
//! then warm from the artifact cache, and the probes of all documents are
//! summed up. Rates and the warm speed-up, ratios of these sums, are left to
//! the caller.
use vstd::prelude::*;

use crate::eval_summary::{fallback_total, ArtifactCacheOutcome};
use crate::metrics::{BenchStageTimings, FallbackActionCounts};

verus! {

/// One parse of a document in the probe.
#[derive(Clone, Copy, PartialEq, Eq, Structural, Debug)]
pub struct CacheProbeRun {
    pub cache: ArtifactCacheOutcome,
    pub wall_us: u128,
    pub allocated_bytes: u64,
    pub fallback_action_counts: FallbackActionCounts,
    pub stage_timings_us: BenchStageTimings,
}

/// The cold and the warm parse of a document.
#[derive(Clone, Copy, PartialEq, Eq, Structural, Debug)]
pub struct CacheProbe {
    pub cold: CacheProbeRun,
    pub warm: CacheProbeRun,
}

/// The probed documents' runs, cold or warm, in document order.
pub open spec fn probe_runs(probes: Seq<Option<CacheProbe>>, warm: bool) -> Seq<CacheProbeRun>
    decreases probes.len(),
{
    if probes.len() == 0 {
        seq![]
    } else {
        let prev = probe_runs(probes.drop_last(), warm);
        match probes.last() {
            Some(p) => prev.push(
                if warm {
                    p.warm
                } else {
                    p.cold
                },
            ),
            None => prev,
        }
    }
}

/// The stage timings of some runs added up.
pub open spec fn stage_total(runs: Seq<CacheProbeRun>) -> BenchStageTimings
    decreases runs.len(),
{
    if runs.len() == 0 {
        BenchStageTimings {
            open_us: 0,
            classify_us: 0,
            native_extract_us: 0,
            layout_us: 0,
            table_us: 0,
            render_us: 0,
            ocr_us: 0,
            merge_us: 0,
            total_us: 0,
        }
    } else {
        stage_total(runs.drop_last()).plus(runs.last().stage_timings_us)
    }
}

pub open spec fn run_fallbacks(runs: Seq<CacheProbeRun>) -> Seq<FallbackActionCounts> {
    Seq::new(runs.len(), |i: int| runs[i].fallback_action_counts)
}

/// A total over some runs: wall time, allocated bytes, or runs with a cache
/// outcome.
pub open spec fn wall_total(runs: Seq<CacheProbeRun>) -> nat
    decreases runs.len(),
{
    if runs.len() == 0 {
        0
    } else {
        wall_total(runs.drop_last()) + runs.last().wall_us as nat
    }
}

pub open spec fn allocated_total(runs: Seq<CacheProbeRun>) -> nat
    decreases runs.len(),
{
    if runs.len() == 0 {
        0
    } else {
        allocated_total(runs.drop_last()) + runs.last().allocated_bytes as nat
    }
}

pub open spec fn cache_count(runs: Seq<CacheProbeRun>, outcome: ArtifactCacheOutcome) -> nat
    decreases runs.len(),
{
    if runs.len() == 0 {
        0
    } else {
        cache_count(runs.drop_last(), outcome) + if runs.last().cache == outcome {
            1nat
        } else {
            0nat
        }
    }
}

/// Adding a run's stage timings to those before it does not overflow.
pub open spec fn stage_step_fits(runs: Seq<CacheProbeRun>, i: int) -> bool {
    stage_total(runs.take(i)).can_add(runs[i].stage_timings_us)
}

/// Adding a run's fallback counts to those before it does not overflow.
pub open spec fn fallback_step_fits_at(runs: Seq<CacheProbeRun>, i: int) -> bool {
    fallback_total(run_fallbacks(runs).take(i)).can_add(runs[i].fallback_action_counts)
}

/// The sums over the cold or the warm runs fit their types.
pub open spec fn runs_fit(runs: Seq<CacheProbeRun>) -> bool {
    &&& runs.len() <= u32::MAX
    &&& wall_total(runs) <= u128::MAX
    &&& allocated_total(runs) <= u64::MAX
    &&& forall|i: int| 0 <= i < runs.len() ==> #[trigger] stage_step_fits(runs, i)
    &&& forall|i: int| 0 <= i < runs.len() ==> #[trigger] fallback_step_fits_at(runs, i)
}

/// What the runs of one temperature add up to.
#[derive(Clone, Copy, PartialEq, Eq, Structural, Debug)]
pub struct CacheProbeRunTotals {
    pub wall_us: u128,
    pub allocated_bytes: u64,
    pub fallback_action_counts: FallbackActionCounts,
    pub stage_timings_us: BenchStageTimings,
    pub cache_hits: u32,
    pub cache_misses: u32,
}

proof fn lemma_totals_prefix(runs: Seq<CacheProbeRun>, i: int)
    requires
        0 <= i <= runs.len(),
    ensures
        wall_total(runs.take(i)) <= wall_total(runs),
        allocated_total(runs.take(i)) <= allocated_total(runs),
        cache_count(runs.take(i), ArtifactCacheOutcome::Hit) <= i,
        cache_count(runs.take(i), ArtifactCacheOutcome::Miss) <= i,
    decreases runs.len() - i,
{
    if i < runs.len() {
        lemma_totals_prefix(runs, i + 1);
        assert(runs.take(i + 1).drop_last() =~= runs.take(i));
    } else {
        assert(runs.take(i) =~= runs);
    }
    lemma_cache_count_bound(runs.take(i), ArtifactCacheOutcome::Hit);
    lemma_cache_count_bound(runs.take(i), ArtifactCacheOutcome::Miss);
}

proof fn lemma_cache_count_bound(runs: Seq<CacheProbeRun>, outcome: ArtifactCacheOutcome)
    ensures
        cache_count(runs, outcome) <= runs.len(),
    decreases runs.len(),
{
    if runs.len() > 0 {
        lemma_cache_count_bound(runs.drop_last(), outcome);
    }
}

/// Sums up runs of one temperature.
pub fn sum_probe_runs(runs: &Vec<CacheProbeRun>) -> (t: CacheProbeRunTotals)
    requires
        runs_fit(runs@),
    ensures
        t.wall_us == wall_total(runs@),
        t.allocated_bytes == allocated_total(runs@),
        t.fallback_action_counts == fallback_total(run_fallbacks(runs@)),
        t.stage_timings_us == stage_total(runs@),
        t.cache_hits == cache_count(runs@, ArtifactCacheOutcome::Hit),
        t.cache_misses == cache_count(runs@, ArtifactCacheOutcome::Miss),
{
    let mut t = CacheProbeRunTotals {
        wall_us: 0,
        allocated_bytes: 0,
        fallback_action_counts: FallbackActionCounts {
            ocr_requested_pages: 0,
            ocr_applied_pages: 0,
            heavy_layout_pages: 0,
            table_recovery_pages: 0,
            render_pages: 0,
        },
        stage_timings_us: BenchStageTimings {
            open_us: 0,
            classify_us: 0,
            native_extract_us: 0,
            layout_us: 0,
            table_us: 0,
            render_us: 0,
            ocr_us: 0,
            merge_us: 0,
            total_us: 0,
        },
        cache_hits: 0,
        cache_misses: 0,
    };
    let mut i: usize = 0;
    while i < runs.len()
        invariant
            i <= runs@.len(),
            runs_fit(runs@),
            t.wall_us == wall_total(runs@.take(i as int)),
            t.allocated_bytes == allocated_total(runs@.take(i as int)),
            t.fallback_action_counts == fallback_total(run_fallbacks(runs@).take(i as int)),
            t.stage_timings_us == stage_total(runs@.take(i as int)),
            t.cache_hits == cache_count(runs@.take(i as int), ArtifactCacheOutcome::Hit),
            t.cache_misses == cache_count(runs@.take(i as int), ArtifactCacheOutcome::Miss),
        decreases runs@.len() - i,
    {
        let ghost pre = runs@.take(i as int);
        proof {
            assert(runs@.take(i + 1).drop_last() =~= pre);
            assert(runs@.take(i + 1).last() == runs@[i as int]);
            assert(run_fallbacks(runs@).take(i + 1).drop_last() =~= run_fallbacks(runs@).take(i as int));
            assert(run_fallbacks(runs@).take(i + 1).last() == runs@[i as int].fallback_action_counts);
            lemma_totals_prefix(runs@, i + 1);
            lemma_totals_prefix(runs@, i as int);
            assert(stage_step_fits(runs@, i as int));
            assert(fallback_step_fits_at(runs@, i as int));
            assert(run_fallbacks(runs@).take(i as int) =~= run_fallbacks(pre));
        }
        let r = runs[i];
        t.wall_us = t.wall_us + r.wall_us;
        t.allocated_bytes = t.allocated_bytes + r.allocated_bytes;
        t.fallback_action_counts.add(r.fallback_action_counts);
        t.stage_timings_us.add(r.stage_timings_us);
        if r.cache == ArtifactCacheOutcome::Hit {
            t.cache_hits = t.cache_hits + 1;
        }
        if r.cache == ArtifactCacheOutcome::Miss {
            t.cache_misses = t.cache_misses + 1;
        }
        i += 1;
    }
    proof {
        assert(runs@.take(runs@.len() as int) =~= runs@);
        assert(run_fallbacks(runs@).take(runs@.len() as int) =~= run_fallbacks(runs@));
    }
    t
}

/// What the probes of a corpus add up to.
#[derive(Clone, Copy, PartialEq, Eq, Structural, Debug)]
pub struct CorpusCacheProbeTotals {
    pub document_count: usize,
    pub cold: CacheProbeRunTotals,
    pub warm: CacheProbeRunTotals,
}

fn probe_runs_of(probes: &Vec<Option<CacheProbe>>, warm: bool) -> (r: Vec<CacheProbeRun>)
    ensures
        r@ == probe_runs(probes@, warm),
{
    let mut out: Vec<CacheProbeRun> = Vec::new();
    let mut i: usize = 0;
    while i < probes.len()
        invariant
            i <= probes@.len(),
            out@ == probe_runs(probes@.take(i as int), warm),
        decreases probes@.len() - i,
    {
        proof {
            assert(probes@.take(i + 1).drop_last() =~= probes@.take(i as int));
            assert(probes@.take(i + 1).last() == probes@[i as int]);
        }
        match probes[i] {
            Some(p) => {
                out.push(
                    if warm {
                        p.warm
                    } else {
                        p.cold
                    },
                );
            },
            None => {},
        }
        i += 1;
    }
    proof {
        assert(probes@.take(probes@.len() as int) =~= probes@);
    }
    out
}

proof fn lemma_probe_runs_len(probes: Seq<Option<CacheProbe>>)
    ensures
        probe_runs(probes, true).len() == probe_runs(probes, false).len(),
        probe_runs(probes, false).len() <= probes.len(),
    decreases probes.len(),
{
    if probes.len() > 0 {
        lemma_probe_runs_len(probes.drop_last());
    }
}

/// Sums up the cache probes of the documents that were probed; nothing when
/// none was.
pub fn aggregate_corpus_cache_probe(probes: &Vec<Option<CacheProbe>>) -> (r: Option<CorpusCacheProbeTotals>)
    requires
        runs_fit(probe_runs(probes@, false)),
        runs_fit(probe_runs(probes@, true)),
    ensures
        r is None <==> probe_runs(probes@, false).len() == 0,
        r matches Some(t) ==> {
            let cold = probe_runs(probes@, false);
            let warm = probe_runs(probes@, true);
            &&& t.document_count == cold.len()
            &&& t.cold.wall_us == wall_total(cold)
            &&& t.warm.wall_us == wall_total(warm)
            &&& t.cold.allocated_bytes == allocated_total(cold)
            &&& t.warm.allocated_bytes == allocated_total(warm)
            &&& t.cold.fallback_action_counts == fallback_total(run_fallbacks(cold))
            &&& t.warm.fallback_action_counts == fallback_total(run_fallbacks(warm))
            &&& t.cold.stage_timings_us == stage_total(cold)
            &&& t.warm.stage_timings_us == stage_total(warm)
            &&& t.cold.cache_misses == cache_count(cold, ArtifactCacheOutcome::Miss)
            &&& t.warm.cache_hits == cache_count(warm, ArtifactCacheOutcome::Hit)
        },
{
    let cold = probe_runs_of(probes, false);
    let warm = probe_runs_of(probes, true);
    if cold.len() == 0 {
        return None;
    }
    Some(
        CorpusCacheProbeTotals {
            document_count: cold.len(),
            cold: sum_probe_runs(&cold),
            warm: sum_probe_runs(&warm),
        },
    )
}

} // verus!
