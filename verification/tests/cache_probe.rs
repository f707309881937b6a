use glyphrush::cache_probe::{aggregate_corpus_cache_probe, sum_probe_runs, CacheProbe, CacheProbeRun};
use glyphrush::eval_summary::ArtifactCacheOutcome;
use glyphrush::metrics::{BenchStageTimings, FallbackActionCounts};

fn timings(base: u64) -> BenchStageTimings {
    BenchStageTimings {
        open_us: base,
        classify_us: base + 1,
        native_extract_us: base + 2,
        layout_us: base + 3,
        table_us: base + 4,
        render_us: base + 5,
        ocr_us: base + 6,
        merge_us: base + 7,
        total_us: base * 10,
    }
}

fn fallbacks(n: u32) -> FallbackActionCounts {
    FallbackActionCounts {
        ocr_requested_pages: n,
        ocr_applied_pages: n,
        heavy_layout_pages: 0,
        table_recovery_pages: n * 2,
        render_pages: 1,
    }
}

fn run(cache: ArtifactCacheOutcome, wall: u128, bytes: u64, n: u32) -> CacheProbeRun {
    CacheProbeRun {
        cache,
        wall_us: wall,
        allocated_bytes: bytes,
        fallback_action_counts: fallbacks(n),
        stage_timings_us: timings(n as u64),
    }
}

#[test]
fn no_probed_document_gives_no_summary() {
    assert!(aggregate_corpus_cache_probe(&vec![]).is_none());
    assert!(aggregate_corpus_cache_probe(&vec![None, None]).is_none());
}

#[test]
fn probes_are_summed_per_temperature() {
    let probes = vec![
        Some(CacheProbe {
            cold: run(ArtifactCacheOutcome::Miss, 1_000, 4_096, 1),
            warm: run(ArtifactCacheOutcome::Hit, 100, 512, 0),
        }),
        None,
        Some(CacheProbe {
            cold: run(ArtifactCacheOutcome::NotCached, 3_000, 1_024, 2),
            warm: run(ArtifactCacheOutcome::Miss, 2_500, 1_000, 2),
        }),
    ];
    let totals = aggregate_corpus_cache_probe(&probes).expect("two probed documents");
    assert_eq!(totals.document_count, 2);
    assert_eq!(totals.cold.wall_us, 4_000);
    assert_eq!(totals.warm.wall_us, 2_600);
    assert_eq!(totals.cold.allocated_bytes, 5_120);
    assert_eq!(totals.warm.allocated_bytes, 1_512);
    assert_eq!(totals.cold.cache_misses, 1);
    assert_eq!(totals.warm.cache_hits, 1);
    assert_eq!(totals.warm.cache_misses, 1);
    assert_eq!(totals.cold.fallback_action_counts.table_recovery_pages, 6);
    assert_eq!(totals.cold.fallback_action_counts.render_pages, 2);
    assert_eq!(totals.warm.fallback_action_counts.ocr_requested_pages, 2);
    assert_eq!(totals.cold.stage_timings_us.total_us, 30);
    assert_eq!(totals.cold.stage_timings_us.merge_us, 8 + 9);
    assert_eq!(totals.warm.stage_timings_us.open_us, 2);
}

#[test]
fn runs_with_no_entries_sum_to_zero() {
    let totals = sum_probe_runs(&vec![]);
    assert_eq!(totals.wall_us, 0);
    assert_eq!(totals.cache_hits, 0);
    assert_eq!(totals.stage_timings_us.total_us, 0);
}
