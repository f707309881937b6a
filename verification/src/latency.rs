//! Latencies over many pages and documents: page latency percentiles over
//! a corpus, per route, and the wall time a corpus takes when its documents
//! are parsed in rounds of as many as there are workers.
use vstd::prelude::*;

use crate::metrics::{is_latency_summary, page_latency_from_values, PageLatencySummary};
use crate::page_checks::PageRoute;

verus! {

/// The latencies of the pages of several documents, one after the other.
pub open spec fn flatten_latencies(docs: Seq<Seq<u64>>) -> Seq<u64>
    decreases docs.len(),
{
    if docs.len() == 0 {
        seq![]
    } else {
        flatten_latencies(docs.drop_last()) + docs.last()
    }
}

/// The page latency summary of a corpus, over the pages of all documents.
pub fn page_latency_from_documents(docs: &Vec<Vec<u64>>) -> (r: PageLatencySummary)
    ensures
        is_latency_summary(flatten_latencies(docs@.map_values(|d: Vec<u64>| d@)), r),
{
    let ghost all = docs@.map_values(|d: Vec<u64>| d@);
    let mut values: Vec<u64> = Vec::new();
    let mut i: usize = 0;
    while i < docs.len()
        invariant
            i <= docs@.len(),
            all == docs@.map_values(|d: Vec<u64>| d@),
            values@ == flatten_latencies(all.take(i as int)),
        decreases docs@.len() - i,
    {
        proof {
            assert(all.take(i + 1).drop_last() =~= all.take(i as int));
            assert(all.take(i + 1).last() == docs@[i as int]@);
        }
        let ghost before = values@;
        let d = &docs[i];
        let mut j: usize = 0;
        while j < d.len()
            invariant
                j <= d@.len(),
                values@ == before + d@.take(j as int),
            decreases d@.len() - j,
        {
            values.push(d[j]);
            j += 1;
            assert(values@ =~= before + d@.take(j as int));
        }
        assert(d@.take(d@.len() as int) =~= d@);
        i += 1;
    }
    proof {
        assert(all.take(docs@.len() as int) =~= all);
    }
    page_latency_from_values(values)
}

/// The latencies of the pages that took a route, in order.
pub open spec fn route_latencies(pages: Seq<(PageRoute, u64)>, route: PageRoute) -> Seq<u64>
    decreases pages.len(),
{
    if pages.len() == 0 {
        seq![]
    } else {
        let prev = route_latencies(pages.drop_last(), route);
        if pages.last().0 == route {
            prev.push(pages.last().1)
        } else {
            prev
        }
    }
}

/// Page latency summaries by route.
#[derive(Clone, Copy, PartialEq, Eq, Structural, Debug)]
pub struct RouteLatencySummary {
    pub native_fast_path: PageLatencySummary,
    pub needs_fallback: PageLatencySummary,
    pub ocr_fallback: PageLatencySummary,
    pub unsupported: PageLatencySummary,
}

fn latencies_of_route(pages: &Vec<(PageRoute, u64)>, route: PageRoute) -> (r: Vec<u64>)
    ensures
        r@ == route_latencies(pages@, route),
{
    let mut out: Vec<u64> = Vec::new();
    let mut i: usize = 0;
    while i < pages.len()
        invariant
            i <= pages@.len(),
            out@ == route_latencies(pages@.take(i as int), route),
        decreases pages@.len() - i,
    {
        proof {
            assert(pages@.take(i + 1).drop_last() =~= pages@.take(i as int));
            assert(pages@.take(i + 1).last() == pages@[i as int]);
        }
        let (r, latency) = pages[i];
        if r == route {
            out.push(latency);
        }
        i += 1;
    }
    proof {
        assert(pages@.take(pages@.len() as int) =~= pages@);
    }
    out
}

/// The latency summary of each route over pages given as (route, total
/// latency).
pub fn route_latency_from_pages(pages: &Vec<(PageRoute, u64)>) -> (r: RouteLatencySummary)
    ensures
        is_latency_summary(route_latencies(pages@, PageRoute::NativeFastPath), r.native_fast_path),
        is_latency_summary(route_latencies(pages@, PageRoute::NeedsFallback), r.needs_fallback),
        is_latency_summary(route_latencies(pages@, PageRoute::OcrFallback), r.ocr_fallback),
        is_latency_summary(route_latencies(pages@, PageRoute::Unsupported), r.unsupported),
{
    RouteLatencySummary {
        native_fast_path: page_latency_from_values(latencies_of_route(pages, PageRoute::NativeFastPath)),
        needs_fallback: page_latency_from_values(latencies_of_route(pages, PageRoute::NeedsFallback)),
        ocr_fallback: page_latency_from_values(latencies_of_route(pages, PageRoute::OcrFallback)),
        unsupported: page_latency_from_values(latencies_of_route(pages, PageRoute::Unsupported)),
    }
}

/// The largest of some wall times; zero for none.
pub open spec fn max_wall(s: Seq<u128>) -> u128
    decreases s.len(),
{
    if s.len() == 0 {
        0
    } else {
        let m = max_wall(s.drop_last());
        if s.last() > m {
            s.last()
        } else {
            m
        }
    }
}

/// The wall time of documents parsed in rounds of `workers` (at least one):
/// each round takes as long as its slowest document.
pub open spec fn rounds_wall(s: Seq<u128>, workers: nat) -> nat
    decreases s.len(),
{
    if s.len() == 0 || workers == 0 {
        0
    } else if s.len() <= workers {
        max_wall(s) as nat
    } else {
        max_wall(s.take(workers as int)) as nat + rounds_wall(s.skip(workers as int), workers)
    }
}

/// The number of workers a corpus is parsed with: at least one.
pub open spec fn effective_workers(worker_count: usize) -> nat {
    if worker_count == 0 {
        1
    } else {
        worker_count as nat
    }
}

/// The parser's wall time over a corpus parsed by `worker_count` workers
/// (one when none), from the documents' wall times in order.
pub fn corpus_parser_wall_us(walls: &Vec<u128>, worker_count: usize) -> (total: u128)
    requires
        rounds_wall(walls@, effective_workers(worker_count)) <= u128::MAX,
    ensures
        total == rounds_wall(walls@, effective_workers(worker_count)),
{
    let w: usize = if worker_count == 0 {
        1
    } else {
        worker_count
    };
    let ghost wn = effective_workers(worker_count);
    let n = walls.len();
    let mut total: u128 = 0;
    let mut i: usize = 0;
    assert(walls@.skip(0) =~= walls@);
    while i < n
        invariant
            n == walls@.len(),
            i <= n,
            w >= 1,
            wn == w as nat,
            total + rounds_wall(walls@.skip(i as int), wn) == rounds_wall(walls@, wn),
            rounds_wall(walls@, wn) <= u128::MAX,
        decreases n - i,
    {
        let end: usize = if n - i <= w {
            n
        } else {
            i + w
        };
        let mut m: u128 = 0;
        let mut j: usize = i;
        while j < end
            invariant
                i <= j <= end <= n,
                n == walls@.len(),
                m == max_wall(walls@.subrange(i as int, j as int)),
            decreases end - j,
        {
            proof {
                assert(walls@.subrange(i as int, j + 1).drop_last() =~= walls@.subrange(
                    i as int,
                    j as int,
                ));
            }
            if walls[j] > m {
                m = walls[j];
            }
            j += 1;
        }
        proof {
            let rest = walls@.skip(i as int);
            if n - i <= w {
                assert(rest =~= walls@.subrange(i as int, end as int));
                assert(walls@.skip(end as int).len() == 0);
            } else {
                assert(rest.take(w as int) =~= walls@.subrange(i as int, end as int));
                assert(rest.skip(w as int) =~= walls@.skip(end as int));
            }
        }
        total = total + m;
        i = end;
    }
    total
}

/// Some wall times added up.
pub open spec fn wall_sum(s: Seq<u128>) -> nat
    decreases s.len(),
{
    if s.len() == 0 {
        0
    } else {
        s[0] as nat + wall_sum(s.skip(1))
    }
}

/// With one worker the documents are parsed one after the other: the wall
/// time is the sum of theirs.
pub proof fn lemma_one_worker_sums(s: Seq<u128>)
    ensures
        rounds_wall(s, 1) == wall_sum(s),
    decreases s.len(),
{
    if s.len() > 0 {
        let one = s.take(1);
        assert(one.drop_last() =~= Seq::<u128>::empty());
        assert(max_wall(one.drop_last()) == 0);
        assert(one.last() == s[0]);
        assert(max_wall(one) == s[0]);
        if s.len() == 1 {
            assert(one =~= s);
            assert(s.skip(1) =~= Seq::<u128>::empty());
            assert(wall_sum(s.skip(1)) == 0);
        } else {
            lemma_one_worker_sums(s.skip(1));
        }
    }
}

} // verus!
