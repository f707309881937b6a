//! The counters and summaries of a benchmark run: per-page quality flags,
//! fallback actions, routes and stage timings added up over documents,
//! latency percentiles, text output measures and worker counts.
use vstd::prelude::*;

use crate::countmap::CountMap;
use crate::numbers::{decimal, zero_padded, zero_padded_chars};
use crate::order::{is_sorted, sort_items};
use crate::text::{
    append_chars, chars_of, copy_string, lines_chars, lines_of, lit, split_whitespace, split_ws,
    starts_with, starts_with_chars,
};

verus! {

broadcast use crate::views::lemma_char_vec_deep_view;

// ---------------------------------------------------------------------------
// Counters
// ---------------------------------------------------------------------------

/// How many pages carried each quality flag.
#[derive(Clone, Copy, PartialEq, Eq, Structural, Debug)]
pub struct QualityFlagCounts {
    pub requires_ocr: u32,
    pub low_confidence_text: u32,
    pub broken_encoding: u32,
    pub layout_uncertain: u32,
    pub table_uncertain: u32,
    pub unsupported_feature: u32,
}

impl QualityFlagCounts {
    /// The two counts added field by field, without overflow.
    pub open spec fn can_add(self, other: Self) -> bool {
        &&& self.requires_ocr + other.requires_ocr <= u32::MAX
        &&& self.low_confidence_text + other.low_confidence_text <= u32::MAX
        &&& self.broken_encoding + other.broken_encoding <= u32::MAX
        &&& self.layout_uncertain + other.layout_uncertain <= u32::MAX
        &&& self.table_uncertain + other.table_uncertain <= u32::MAX
        &&& self.unsupported_feature + other.unsupported_feature <= u32::MAX
    }

    pub open spec fn plus(self, other: Self) -> Self {
        QualityFlagCounts {
            requires_ocr: (self.requires_ocr + other.requires_ocr) as u32,
            low_confidence_text: (self.low_confidence_text + other.low_confidence_text) as u32,
            broken_encoding: (self.broken_encoding + other.broken_encoding) as u32,
            layout_uncertain: (self.layout_uncertain + other.layout_uncertain) as u32,
            table_uncertain: (self.table_uncertain + other.table_uncertain) as u32,
            unsupported_feature: (self.unsupported_feature + other.unsupported_feature) as u32,
        }
    }

    pub fn add(&mut self, other: QualityFlagCounts)
        requires
            old(self).can_add(other),
        ensures
            *final(self) == old(self).plus(other),
    {
        self.requires_ocr += other.requires_ocr;
        self.low_confidence_text += other.low_confidence_text;
        self.broken_encoding += other.broken_encoding;
        self.layout_uncertain += other.layout_uncertain;
        self.table_uncertain += other.table_uncertain;
        self.unsupported_feature += other.unsupported_feature;
    }
}

impl Default for QualityFlagCounts {
    fn default() -> (r: QualityFlagCounts)
        ensures
            r == (QualityFlagCounts {
                requires_ocr: 0,
                low_confidence_text: 0,
                broken_encoding: 0,
                layout_uncertain: 0,
                table_uncertain: 0,
                unsupported_feature: 0,
            }),
    {
        QualityFlagCounts {
            requires_ocr: 0,
            low_confidence_text: 0,
            broken_encoding: 0,
            layout_uncertain: 0,
            table_uncertain: 0,
            unsupported_feature: 0,
        }
    }
}

/// How many pages each fallback action ran on.
#[derive(Clone, Copy, PartialEq, Eq, Structural, Debug)]
pub struct FallbackActionCounts {
    pub ocr_requested_pages: u32,
    pub ocr_applied_pages: u32,
    pub heavy_layout_pages: u32,
    pub table_recovery_pages: u32,
    pub render_pages: u32,
}

impl FallbackActionCounts {
    pub open spec fn can_add(self, other: Self) -> bool {
        &&& self.ocr_requested_pages + other.ocr_requested_pages <= u32::MAX
        &&& self.ocr_applied_pages + other.ocr_applied_pages <= u32::MAX
        &&& self.heavy_layout_pages + other.heavy_layout_pages <= u32::MAX
        &&& self.table_recovery_pages + other.table_recovery_pages <= u32::MAX
        &&& self.render_pages + other.render_pages <= u32::MAX
    }

    pub open spec fn plus(self, other: Self) -> Self {
        FallbackActionCounts {
            ocr_requested_pages: (self.ocr_requested_pages + other.ocr_requested_pages) as u32,
            ocr_applied_pages: (self.ocr_applied_pages + other.ocr_applied_pages) as u32,
            heavy_layout_pages: (self.heavy_layout_pages + other.heavy_layout_pages) as u32,
            table_recovery_pages: (self.table_recovery_pages + other.table_recovery_pages) as u32,
            render_pages: (self.render_pages + other.render_pages) as u32,
        }
    }

    pub fn add(&mut self, other: FallbackActionCounts)
        requires
            old(self).can_add(other),
        ensures
            *final(self) == old(self).plus(other),
    {
        self.ocr_requested_pages += other.ocr_requested_pages;
        self.ocr_applied_pages += other.ocr_applied_pages;
        self.heavy_layout_pages += other.heavy_layout_pages;
        self.table_recovery_pages += other.table_recovery_pages;
        self.render_pages += other.render_pages;
    }
}

impl Default for FallbackActionCounts {
    fn default() -> (r: FallbackActionCounts)
        ensures
            r == (FallbackActionCounts {
                ocr_requested_pages: 0,
                ocr_applied_pages: 0,
                heavy_layout_pages: 0,
                table_recovery_pages: 0,
                render_pages: 0,
            }),
    {
        FallbackActionCounts {
            ocr_requested_pages: 0,
            ocr_applied_pages: 0,
            heavy_layout_pages: 0,
            table_recovery_pages: 0,
            render_pages: 0,
        }
    }
}

/// How many pages took each route.
#[derive(Clone, Copy, PartialEq, Eq, Structural, Debug)]
pub struct RouteCounts {
    pub native_fast_path: u32,
    pub needs_fallback: u32,
    pub ocr_fallback: u32,
    pub unsupported: u32,
}

impl RouteCounts {
    pub open spec fn can_add(self, other: Self) -> bool {
        &&& self.native_fast_path + other.native_fast_path <= u32::MAX
        &&& self.needs_fallback + other.needs_fallback <= u32::MAX
        &&& self.ocr_fallback + other.ocr_fallback <= u32::MAX
        &&& self.unsupported + other.unsupported <= u32::MAX
    }

    pub open spec fn plus(self, other: Self) -> Self {
        RouteCounts {
            native_fast_path: (self.native_fast_path + other.native_fast_path) as u32,
            needs_fallback: (self.needs_fallback + other.needs_fallback) as u32,
            ocr_fallback: (self.ocr_fallback + other.ocr_fallback) as u32,
            unsupported: (self.unsupported + other.unsupported) as u32,
        }
    }

    pub fn add(&mut self, other: RouteCounts)
        requires
            old(self).can_add(other),
        ensures
            *final(self) == old(self).plus(other),
    {
        self.native_fast_path += other.native_fast_path;
        self.needs_fallback += other.needs_fallback;
        self.ocr_fallback += other.ocr_fallback;
        self.unsupported += other.unsupported;
    }
}

impl Default for RouteCounts {
    fn default() -> (r: RouteCounts)
        ensures
            r == (RouteCounts { native_fast_path: 0, needs_fallback: 0, ocr_fallback: 0, unsupported: 0 }),
    {
        RouteCounts { native_fast_path: 0, needs_fallback: 0, ocr_fallback: 0, unsupported: 0 }
    }
}

/// Microseconds spent in each stage.
#[derive(Clone, Copy, PartialEq, Eq, Structural, Debug)]
pub struct BenchStageTimings {
    pub open_us: u64,
    pub classify_us: u64,
    pub native_extract_us: u64,
    pub layout_us: u64,
    pub table_us: u64,
    pub render_us: u64,
    pub ocr_us: u64,
    pub merge_us: u64,
    pub total_us: u64,
}

impl BenchStageTimings {
    pub open spec fn can_add(self, other: Self) -> bool {
        &&& self.open_us + other.open_us <= u64::MAX
        &&& self.classify_us + other.classify_us <= u64::MAX
        &&& self.native_extract_us + other.native_extract_us <= u64::MAX
        &&& self.layout_us + other.layout_us <= u64::MAX
        &&& self.table_us + other.table_us <= u64::MAX
        &&& self.render_us + other.render_us <= u64::MAX
        &&& self.ocr_us + other.ocr_us <= u64::MAX
        &&& self.merge_us + other.merge_us <= u64::MAX
        &&& self.total_us + other.total_us <= u64::MAX
    }

    pub open spec fn plus(self, other: Self) -> Self {
        BenchStageTimings {
            open_us: (self.open_us + other.open_us) as u64,
            classify_us: (self.classify_us + other.classify_us) as u64,
            native_extract_us: (self.native_extract_us + other.native_extract_us) as u64,
            layout_us: (self.layout_us + other.layout_us) as u64,
            table_us: (self.table_us + other.table_us) as u64,
            render_us: (self.render_us + other.render_us) as u64,
            ocr_us: (self.ocr_us + other.ocr_us) as u64,
            merge_us: (self.merge_us + other.merge_us) as u64,
            total_us: (self.total_us + other.total_us) as u64,
        }
    }

    pub fn add(&mut self, other: BenchStageTimings)
        requires
            old(self).can_add(other),
        ensures
            *final(self) == old(self).plus(other),
    {
        self.open_us += other.open_us;
        self.classify_us += other.classify_us;
        self.native_extract_us += other.native_extract_us;
        self.layout_us += other.layout_us;
        self.table_us += other.table_us;
        self.render_us += other.render_us;
        self.ocr_us += other.ocr_us;
        self.merge_us += other.merge_us;
        self.total_us += other.total_us;
    }
}

impl Default for BenchStageTimings {
    fn default() -> (r: BenchStageTimings)
        ensures
            r == (BenchStageTimings {
                open_us: 0,
                classify_us: 0,
                native_extract_us: 0,
                layout_us: 0,
                table_us: 0,
                render_us: 0,
                ocr_us: 0,
                merge_us: 0,
                total_us: 0,
            }),
    {
        BenchStageTimings {
            open_us: 0,
            classify_us: 0,
            native_extract_us: 0,
            layout_us: 0,
            table_us: 0,
            render_us: 0,
            ocr_us: 0,
            merge_us: 0,
            total_us: 0,
        }
    }
}

/// Adding counters does not depend on the order of the documents: the sum
/// is the same either way, and adding a zero counter changes nothing.
pub proof fn lemma_counts_add_commutes(
    a: QualityFlagCounts,
    b: QualityFlagCounts,
    c: FallbackActionCounts,
    d: FallbackActionCounts,
    e: RouteCounts,
    f: RouteCounts,
    g: BenchStageTimings,
    h: BenchStageTimings,
)
    ensures
        a.can_add(b) == b.can_add(a),
        a.plus(b) == b.plus(a),
        c.can_add(d) == d.can_add(c),
        c.plus(d) == d.plus(c),
        e.can_add(f) == f.can_add(e),
        e.plus(f) == f.plus(e),
        g.can_add(h) == h.can_add(g),
        g.plus(h) == h.plus(g),
{
}

// ---------------------------------------------------------------------------
// Route reasons
// ---------------------------------------------------------------------------

/// The counts of both maps added key by key.
pub open spec fn merged_counts(a: Map<Seq<char>, u32>, b: Map<Seq<char>, u32>) -> Map<
    Seq<char>,
    u32,
> {
    Map::new(
        |k: Seq<char>| a.dom().contains(k) || b.dom().contains(k),
        |k: Seq<char>|
            ((if a.dom().contains(k) {
                a[k] as int
            } else {
                0int
            }) + (if b.dom().contains(k) {
                b[k] as int
            } else {
                0int
            })) as u32,
    )
}

/// No key's sum exceeds `u32::MAX`.
pub open spec fn can_merge(a: Map<Seq<char>, u32>, b: Map<Seq<char>, u32>) -> bool {
    forall|k: Seq<char>|
        #![trigger a.dom().contains(k), b.dom().contains(k)]
        a.dom().contains(k) && b.dom().contains(k) ==> a[k] + b[k] <= u32::MAX
}

/// The part of `m` whose keys are listed in `keys`.
pub open spec fn counts_for(m: Map<Seq<char>, u32>, keys: Seq<Seq<char>>) -> Map<Seq<char>, u32> {
    Map::new(|k: Seq<char>| m.dom().contains(k) && keys.contains(k), |k: Seq<char>| m[k])
}

/// Adds the route-reason counts of `source` to `target`.
pub fn add_reason_counts(target: &mut CountMap<u32>, source: &CountMap<u32>)
    requires
        old(target).wf(),
        source.wf(),
        can_merge(old(target).as_map(), source.as_map()),
    ensures
        final(target).wf(),
        final(target).as_map() == merged_counts(old(target).as_map(), source.as_map()),
{
    let ghost t0 = target.as_map();
    let ghost sm = source.as_map();
    let n = source.len();
    let mut i: usize = 0;
    proof {
        source.lemma_contents();
    }
    while i < n
        invariant
            i <= n,
            n == source.keys_view().len(),
            source.wf(),
            sm == source.as_map(),
            forall|k: Seq<char>|
                #![trigger sm.dom().contains(k)]
                #![trigger source.keys_view().contains(k)]
                sm.dom().contains(k) <==> source.keys_view().contains(k),
            forall|j: int|
                0 <= j < source.keys_view().len() ==> sm[#[trigger] source.keys_view()[j]]
                    == source.values_view()[j],
            crate::countmap::distinct_keys(source.keys_view()),
            can_merge(t0, sm),
            target.wf(),
            target.as_map() == merged_counts(t0, counts_for(sm, source.keys_view().take(i as int))),
        decreases n - i,
    {
        let key = source.key(i);
        let add = source.value(i);
        let ghost kv = key@;
        let ghost before = target.as_map();
        let current: u32 = match target.get(key.as_str()) {
            Some(c) => c,
            None => 0,
        };
        proof {
            let done = source.keys_view().take(i as int);
            assert(!done.contains(kv)) by {
                if done.contains(kv) {
                    let j = choose|j: int| 0 <= j < done.len() && done[j] == kv;
                    assert(source.keys_view()[j] == source.keys_view()[i as int]);
                }
            }
            assert(sm.dom().contains(kv));
            assert(sm[kv] == add);
            if t0.dom().contains(kv) {
                assert(before.dom().contains(kv));
                assert(current == t0[kv]);
                assert(current + add <= u32::MAX);
            } else {
                assert(current == 0);
            }
        }
        target.set(copy_string(key), current + add);
        proof {
            let done = source.keys_view().take(i as int);
            let done1 = source.keys_view().take(i + 1);
            assert(done1 =~= done.push(kv));
            assert forall|k: Seq<char>| #[trigger] done1.contains(k) <==> (done.contains(k) || k == kv) by {
                if done1.contains(k) && k != kv {
                    let j = choose|j: int| 0 <= j < done1.len() && done1[j] == k;
                    assert(done[j] == k);
                }
                if done.contains(k) {
                    let j = choose|j: int| 0 <= j < done.len() && done[j] == k;
                    assert(done1[j] == k);
                }
                if k == kv {
                    assert(done1[i as int] == k);
                }
            }
            let goal = merged_counts(t0, counts_for(sm, done1));
            assert(target.as_map() =~= goal) by {
                assert forall|k: Seq<char>| #[trigger] target.as_map().dom().contains(k) <==> goal.dom().contains(k) by {}
                assert forall|k: Seq<char>| #[trigger] target.as_map().dom().contains(k) implies target.as_map()[k] == goal[k] by {
                    if k != kv {
                        assert(before.dom().contains(k));
                    }
                }
            }
        }
        i += 1;
    }
    proof {
        assert(source.keys_view().take(n as int) =~= source.keys_view());
        assert(counts_for(sm, source.keys_view()) =~= sm);
    }
}

// ---------------------------------------------------------------------------
// Latency
// ---------------------------------------------------------------------------

/// The 50th and 95th percentile and the maximum of page latencies.
#[derive(Clone, Copy, PartialEq, Eq, Structural, Debug)]
pub struct PageLatencySummary {
    pub p50_us: u64,
    pub p95_us: u64,
    pub max_us: u64,
}

/// The position in `n` sorted values of the `pct`-th percentile: the
/// ceiling of `(n - 1) * pct / 100`.
pub open spec fn percentile_index(n: nat, pct: nat) -> int {
    (((n - 1) * pct + 99) / 100) as int
}

/// The summary of a list of latencies: zero for no values, else the values
/// at the percentile positions of the values in ascending order.
pub open spec fn is_latency_summary(values: Seq<u64>, r: PageLatencySummary) -> bool {
    if values.len() == 0 {
        r == PageLatencySummary { p50_us: 0, p95_us: 0, max_us: 0 }
    } else {
        exists|s: Seq<u64>|
            #![trigger s.to_multiset()]
            {
                &&& is_sorted::<u64>(s)
                &&& s.to_multiset() == values.to_multiset()
                &&& s.len() == values.len()
                &&& r.p50_us == s[percentile_index(values.len(), 50)]
                &&& r.p95_us == s[percentile_index(values.len(), 95)]
                &&& r.max_us == s[values.len() - 1]
            }
    }
}

proof fn lemma_percentile_index_bounds(n: nat, pct: nat)
    requires
        n >= 1,
        pct <= 100,
    ensures
        0 <= percentile_index(n, pct) <= n - 1,
{
    assert(((n - 1) * pct + 99) / 100 <= n - 1) by (nonlinear_arith)
        requires
            n >= 1,
            pct <= 100,
    ;
}

fn u64_vec_deep_view(v: &Vec<u64>)
    ensures
        v.deep_view() == v@,
{
    assert(v.deep_view() =~= v@);
}

/// The latency summary of page timings.
pub fn page_latency_from_values(values: Vec<u64>) -> (r: PageLatencySummary)
    ensures
        is_latency_summary(values@, r),
{
    if values.len() == 0 {
        return PageLatencySummary { p50_us: 0, p95_us: 0, max_us: 0 };
    }
    let n = values.len();
    u64_vec_deep_view(&values);
    let ghost original = values@;
    let sorted = sort_items(values);
    u64_vec_deep_view(&sorted);
    proof {
        lemma_percentile_index_bounds(n as nat, 50);
        lemma_percentile_index_bounds(n as nat, 95);
    }
    let last = (n - 1) as u128;
    assert(last * 95 + 99 <= u128::MAX) by (nonlinear_arith)
        requires
            last <= u64::MAX,
    ;
    let i50 = ((last * 50 + 99) / 100) as usize;
    let i95 = ((last * 95 + 99) / 100) as usize;
    assert(i50 == percentile_index(n as nat, 50));
    assert(i95 == percentile_index(n as nat, 95));
    let r = PageLatencySummary { p50_us: sorted[i50], p95_us: sorted[i95], max_us: sorted[n - 1] };
    assert(is_sorted::<u64>(sorted@) && sorted@.to_multiset() == original.to_multiset());
    r
}

/// The percentiles of a non-empty list are in order, and the maximum is the
/// largest value of the list.
pub proof fn lemma_latency_summary_ordered(values: Seq<u64>, r: PageLatencySummary)
    requires
        values.len() > 0,
        is_latency_summary(values, r),
    ensures
        r.p50_us <= r.p95_us,
        r.p95_us <= r.max_us,
        values.contains(r.max_us),
        forall|i: int| 0 <= i < values.len() ==> #[trigger] values[i] <= r.max_us,
{
    let s = choose|s: Seq<u64>|
        #![trigger s.to_multiset()]
        {
            &&& is_sorted::<u64>(s)
            &&& s.to_multiset() == values.to_multiset()
            &&& s.len() == values.len()
            &&& r.p50_us == s[percentile_index(values.len(), 50)]
            &&& r.p95_us == s[percentile_index(values.len(), 95)]
            &&& r.max_us == s[values.len() - 1]
        };
    let n = values.len();
    lemma_percentile_index_bounds(n, 50);
    lemma_percentile_index_bounds(n, 95);
    assert(percentile_index(n, 50) <= percentile_index(n, 95)) by (nonlinear_arith)
        requires
            n >= 1,
    ;
    if percentile_index(n, 50) < percentile_index(n, 95) {
        assert(<u64 as crate::order::Sortable>::le_spec(
            s[percentile_index(n, 50)],
            s[percentile_index(n, 95)],
        ));
    }
    if percentile_index(n, 95) < n - 1 {
        assert(<u64 as crate::order::Sortable>::le_spec(s[percentile_index(n, 95)], s[n - 1]));
    }
    s.to_multiset_ensures();
    values.to_multiset_ensures();
    assert(s.contains(s[n - 1]));
    assert(s.to_multiset().count(s[n - 1]) > 0);
    assert forall|i: int| 0 <= i < values.len() implies #[trigger] values[i] <= r.max_us by {
        assert(values.contains(values[i]));
        assert(values.to_multiset().count(values[i]) > 0);
        assert(s.contains(values[i]));
        let j = choose|j: int| 0 <= j < s.len() && s[j] == values[i];
        if j < n - 1 {
            assert(<u64 as crate::order::Sortable>::le_spec(s[j], s[n - 1]));
        }
    }
}

// ---------------------------------------------------------------------------
// Text output and speedup claims
// ---------------------------------------------------------------------------

/// How much text a parse produced.
#[derive(Clone, Copy, PartialEq, Eq, Structural, Debug)]
pub struct TextOutputMetrics {
    pub bytes: u64,
    pub line_count: usize,
    pub word_count: usize,
    pub empty: bool,
}

pub fn text_output_metrics_from_text(text: &str) -> (r: TextOutputMetrics)
    ensures
        r.bytes == vstd::utf8::encode_utf8(text@).len() as usize as u64,
        r.line_count == lines_of(text@).len(),
        r.word_count == split_whitespace(text@).len(),
        r.empty == (text@.len() == 0),
{
    let v = chars_of(text);
    let lines = lines_chars(&v);
    let words = split_ws(&v);
    proof {
        crate::views::lemma_vec_dview(lines);
        crate::views::lemma_vec_dview(words);
    }
    TextOutputMetrics {
        bytes: text.len() as u64,
        line_count: lines.len(),
        word_count: words.len(),
        empty: text.is_empty(),
    }
}

/// The outcome of a speed claim against a baseline.
#[derive(Clone, Copy, PartialEq, Eq, Structural, Debug)]
pub enum BenchmarkSpeedupClaimStatus {
    Passed,
    BaselineNotRun,
    NotSpeedComparable,
    SpeedupFailed,
    QualityNotChecked,
    QualityFailed,
}

pub open spec fn claim_status_label(status: BenchmarkSpeedupClaimStatus) -> Seq<char> {
    match status {
        BenchmarkSpeedupClaimStatus::Passed => "passed"@,
        BenchmarkSpeedupClaimStatus::BaselineNotRun => "baseline_not_run"@,
        BenchmarkSpeedupClaimStatus::NotSpeedComparable => "not_speed_comparable"@,
        BenchmarkSpeedupClaimStatus::SpeedupFailed => "speedup_failed"@,
        BenchmarkSpeedupClaimStatus::QualityNotChecked => "quality_not_checked"@,
        BenchmarkSpeedupClaimStatus::QualityFailed => "quality_failed"@,
    }
}

pub fn speedup_claim_status_label(status: BenchmarkSpeedupClaimStatus) -> (r: &'static str)
    ensures
        r@ == claim_status_label(status),
{
    match status {
        BenchmarkSpeedupClaimStatus::Passed => "passed",
        BenchmarkSpeedupClaimStatus::BaselineNotRun => "baseline_not_run",
        BenchmarkSpeedupClaimStatus::NotSpeedComparable => "not_speed_comparable",
        BenchmarkSpeedupClaimStatus::SpeedupFailed => "speedup_failed",
        BenchmarkSpeedupClaimStatus::QualityNotChecked => "quality_not_checked",
        BenchmarkSpeedupClaimStatus::QualityFailed => "quality_failed",
    }
}

// ---------------------------------------------------------------------------
// Warnings
// ---------------------------------------------------------------------------

/// The prefix of the warnings about one page: `p`, the page index in six
/// digits at least, and `:`.
pub open spec fn page_warning_prefix(page_index: nat) -> Seq<char> {
    "p"@ + zero_padded(decimal(page_index), 6) + ":"@
}

/// The warnings that start with the page's prefix, in order.
pub open spec fn page_warnings(warnings: Seq<Seq<char>>, prefix: Seq<char>) -> Seq<Seq<char>>
    decreases warnings.len(),
{
    if warnings.len() == 0 {
        Seq::empty()
    } else {
        let prev = page_warnings(warnings.drop_last(), prefix);
        if starts_with(warnings.last(), prefix) {
            prev.push(warnings.last())
        } else {
            prev
        }
    }
}

pub fn warnings_for_page(warnings: &Vec<String>, page_index: u32) -> (r: Vec<String>)
    ensures
        r.deep_view() == page_warnings(warnings.deep_view(), page_warning_prefix(page_index as nat)),
{
    let mut prefix = lit("p");
    let digits = zero_padded_chars(page_index as u64, 6);
    append_chars(&mut prefix, &digits);
    let colon = lit(":");
    append_chars(&mut prefix, &colon);
    let ghost ws = warnings.deep_view();
    proof {
        crate::views::lemma_vec_dview(*warnings);
    }
    let mut out: Vec<String> = Vec::new();
    let mut i: usize = 0;
    while i < warnings.len()
        invariant
            i <= warnings.len(),
            ws == warnings.deep_view(),
            ws.len() == warnings.len(),
            forall|j: int| 0 <= j < warnings.len() ==> #[trigger] ws[j] == warnings@[j]@,
            prefix@ == page_warning_prefix(page_index as nat),
            out.deep_view() == page_warnings(ws.take(i as int), prefix@),
        decreases warnings.len() - i,
    {
        proof {
            assert(ws.take(i + 1).drop_last() =~= ws.take(i as int));
        }
        let w = chars_of(warnings[i].as_str());
        if starts_with_chars(&w, &prefix) {
            let ghost prev = out@;
            let s = copy_string(&warnings[i]);
            out.push(s);
            proof {
                crate::views::lemma_vec_dview(out);
                crate::views::lemma_dview_push(prev, s);
            }
        }
        i += 1;
    }
    assert(ws.take(warnings.len() as int) =~= ws);
    out
}

// ---------------------------------------------------------------------------
// Workers
// ---------------------------------------------------------------------------

/// Options of an extraction run.
#[derive(Clone, Copy, PartialEq, Eq, Structural, Debug)]
pub struct ExtractionOptions {
    pub span_geometry: bool,
    pub page_jobs: usize,
}

pub open spec fn clamp_workers(requested: nat, items: nat) -> nat {
    let r = if requested >= 1 {
        requested
    } else {
        1
    };
    let m = if items >= 1 {
        items
    } else {
        1
    };
    if r <= m {
        r
    } else {
        m
    }
}

/// The page workers for a document: as many as requested, at least one and
/// no more than there are pages.
pub fn effective_page_worker_count(options: ExtractionOptions, page_count: usize) -> (r: usize)
    ensures
        r == clamp_workers(options.page_jobs as nat, page_count as nat),
        1 <= r,
        page_count >= 1 ==> r <= page_count,
        options.page_jobs >= 1 ==> r <= options.page_jobs,
{
    let requested: usize = if options.page_jobs >= 1 {
        options.page_jobs
    } else {
        1
    };
    let limit: usize = if page_count >= 1 {
        page_count
    } else {
        1
    };
    if requested <= limit {
        requested
    } else {
        limit
    }
}

/// What the library needs to know of a PDF backend.
pub trait PdfBackend {
    spec fn parallel_documents(&self) -> bool;

    fn name(&self) -> (r: &'static str);

    fn version(&self) -> (r: &'static str);

    /// Whether documents may be processed on several threads at once.
    fn supports_parallel_documents(&self) -> (b: bool)
        ensures
            b == self.parallel_documents(),
    ;

    /// Whether the backend can render a page for OCR.
    fn supports_page_render_for_ocr(&self) -> (b: bool);
}

/// The backend built on `lopdf`.
pub struct LopdfBackend;

/// The backend built on PDFium.
pub struct PdfiumBackend;

impl PdfBackend for LopdfBackend {
    open spec fn parallel_documents(&self) -> bool {
        true
    }

    fn name(&self) -> (r: &'static str)
        ensures
            r@ == "lopdf"@,
    {
        "lopdf"
    }

    fn version(&self) -> (r: &'static str)
        ensures
            r@ == "lopdf-adapter-v0"@,
    {
        "lopdf-adapter-v0"
    }

    fn supports_parallel_documents(&self) -> (b: bool) {
        true
    }

    fn supports_page_render_for_ocr(&self) -> (b: bool)
        ensures
            !b,
    {
        false
    }
}

impl PdfBackend for PdfiumBackend {
    open spec fn parallel_documents(&self) -> bool {
        false
    }

    fn name(&self) -> (r: &'static str)
        ensures
            r@ == "pdfium"@,
    {
        "pdfium"
    }

    fn version(&self) -> (r: &'static str)
        ensures
            r@ == "pdfium-adapter-v1"@,
    {
        "pdfium-adapter-v1"
    }

    fn supports_parallel_documents(&self) -> (b: bool) {
        false
    }

    fn supports_page_render_for_ocr(&self) -> (b: bool)
        ensures
            b,
    {
        true
    }
}

/// The document workers of a corpus run: as many as requested, at least one
/// and no more than there are documents, or one for a backend that cannot
/// work on documents in parallel.
pub fn document_worker_count<B: PdfBackend>(
    backend: &B,
    requested_jobs: usize,
    document_count: usize,
) -> (r: usize)
    ensures
        r == (if backend.parallel_documents() {
            clamp_workers(requested_jobs as nat, document_count as nat)
        } else {
            1
        }),
{
    let worker_count = effective_page_worker_count(
        ExtractionOptions { span_geometry: false, page_jobs: requested_jobs },
        document_count,
    );
    if backend.supports_parallel_documents() {
        worker_count
    } else {
        1
    }
}

// ---------------------------------------------------------------------------
// Layout summaries
// ---------------------------------------------------------------------------

/// How many layout blocks of each kind a page has, and its table counts.
#[derive(Clone, Copy, PartialEq, Eq, Structural, Debug)]
pub struct DebugLayoutSummary {
    pub block_count: usize,
    pub paragraph_blocks: usize,
    pub heading_blocks: usize,
    pub list_blocks: usize,
    pub table_blocks: usize,
    pub table_rows: Option<usize>,
    pub table_cells: Option<usize>,
    pub table_cells_with_bbox: Option<usize>,
    pub figure_blocks: usize,
    pub header_blocks: usize,
    pub footer_blocks: usize,
}

pub open spec fn opt_plus(o: Option<usize>, n: usize) -> Option<usize> {
    match o {
        Some(v) => Some((v + n) as usize),
        None => Some(n),
    }
}

pub open spec fn opt_can_add(o: Option<usize>, n: usize) -> bool {
    match o {
        Some(v) => v + n <= usize::MAX,
        None => true,
    }
}

fn add_opt(o: Option<usize>, n: usize) -> (r: Option<usize>)
    requires
        opt_can_add(o, n),
    ensures
        r == opt_plus(o, n),
{
    match o {
        Some(v) => Some(v + n),
        None => Some(n),
    }
}

/// Adds a table's rows and cells to the summary's table counts, which start
/// at zero when the page had none yet.
pub fn add_table_summary_counts(
    summary: &mut DebugLayoutSummary,
    rows: usize,
    cells: usize,
    cells_with_bbox: usize,
)
    requires
        opt_can_add(old(summary).table_rows, rows),
        opt_can_add(old(summary).table_cells, cells),
        opt_can_add(old(summary).table_cells_with_bbox, cells_with_bbox),
    ensures
        *final(summary) == (DebugLayoutSummary {
            table_rows: opt_plus(old(summary).table_rows, rows),
            table_cells: opt_plus(old(summary).table_cells, cells),
            table_cells_with_bbox: opt_plus(old(summary).table_cells_with_bbox, cells_with_bbox),
            ..*old(summary)
        }),
{
    summary.table_rows = add_opt(summary.table_rows, rows);
    summary.table_cells = add_opt(summary.table_cells, cells);
    summary.table_cells_with_bbox = add_opt(summary.table_cells_with_bbox, cells_with_bbox);
}

/// An expected table count is met when it is not given or equals the actual.
pub open spec fn opt_expectation_met(expected: Option<usize>, actual: Option<usize>) -> bool {
    match expected {
        Some(e) => actual == Some(e),
        None => true,
    }
}

/// Whether a page's layout matches what a manifest expects: every block
/// count equal, and each table count equal where one is expected.
pub open spec fn layout_matches(expected: DebugLayoutSummary, actual: DebugLayoutSummary) -> bool {
    &&& expected.block_count == actual.block_count
    &&& expected.paragraph_blocks == actual.paragraph_blocks
    &&& expected.heading_blocks == actual.heading_blocks
    &&& expected.list_blocks == actual.list_blocks
    &&& expected.table_blocks == actual.table_blocks
    &&& expected.figure_blocks == actual.figure_blocks
    &&& expected.header_blocks == actual.header_blocks
    &&& expected.footer_blocks == actual.footer_blocks
    &&& opt_expectation_met(expected.table_rows, actual.table_rows)
    &&& opt_expectation_met(expected.table_cells, actual.table_cells)
    &&& opt_expectation_met(expected.table_cells_with_bbox, actual.table_cells_with_bbox)
}

fn opt_met(expected: Option<usize>, actual: Option<usize>) -> (r: bool)
    ensures
        r == opt_expectation_met(expected, actual),
{
    match expected {
        Some(e) => match actual {
            Some(a) => a == e,
            None => false,
        },
        None => true,
    }
}

pub fn layout_summary_matches_expectation(
    expected: DebugLayoutSummary,
    actual: DebugLayoutSummary,
) -> (r: bool)
    ensures
        r == layout_matches(expected, actual),
{
    expected.block_count == actual.block_count && expected.paragraph_blocks
        == actual.paragraph_blocks && expected.heading_blocks == actual.heading_blocks
        && expected.list_blocks == actual.list_blocks && expected.table_blocks
        == actual.table_blocks && expected.figure_blocks == actual.figure_blocks
        && expected.header_blocks == actual.header_blocks && expected.footer_blocks
        == actual.footer_blocks && opt_met(expected.table_rows, actual.table_rows) && opt_met(
        expected.table_cells,
        actual.table_cells,
    ) && opt_met(expected.table_cells_with_bbox, actual.table_cells_with_bbox)
}

/// Every layout matches itself.
pub proof fn lemma_layout_matches_itself(s: DebugLayoutSummary)
    ensures
        layout_matches(s, s),
{
}

} // verus!
