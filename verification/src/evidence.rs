//! What a saved benchmark report shows as evidence for the feature-parity
//! report: which category each benchmarked document belongs to, the
//! baselines whose quality went unchecked per category, and the baselines
//! whose quality checks failed. The caller reads the report's JSON into the
//! plain values these functions take.
use vstd::prelude::*;

use crate::categories::string_opt_view;
use crate::order::{is_strictly_sorted, sorted_unique};
use crate::parity::FeatureParityBenchmarkBaselineQualityUncheckedCategoryEvidence;
use crate::paths::{feature_parity_paths_match, paths_match};
use crate::text::{chars_of, copy_string, lit, starts_with, starts_with_chars, str_eq};

verus! {

broadcast use crate::views::lemma_char_vec_deep_view;

// ---------------------------------------------------------------------------
// The category of a benchmarked document
// ---------------------------------------------------------------------------

/// A document of the report's quality section: its fingerprint, path,
/// category and page count, each where the report gives it.
pub struct QualityDocumentRef {
    pub fingerprint: Option<String>,
    pub path: Option<String>,
    pub category: Option<String>,
    pub page_count: Option<u64>,
}

/// The last quality document with the fingerprint (later entries win, as in
/// a map keyed by fingerprint).
pub open spec fn last_with_fingerprint(docs: Seq<QualityDocumentRef>, fingerprint: Seq<char>) -> Option<int>
    decreases docs.len(),
{
    if docs.len() == 0 {
        None
    } else if string_opt_view(docs.last().fingerprint) == Some(fingerprint) {
        Some(docs.len() - 1)
    } else {
        last_with_fingerprint(docs.drop_last(), fingerprint)
    }
}

/// The first quality document whose path names the document path.
pub open spec fn first_with_path(docs: Seq<QualityDocumentRef>, path: Seq<char>) -> Option<int>
    decreases docs.len(),
{
    if docs.len() == 0 {
        None
    } else {
        match first_with_path(docs.drop_last(), path) {
            Some(i) => Some(i),
            None => if docs.last().path matches Some(p) && paths_match(p@, path) {
                Some(docs.len() - 1)
            } else {
                None
            },
        }
    }
}

/// The quality document a benchmarked document is matched with: by
/// fingerprint, else by path.
pub open spec fn matched_quality_document(
    docs: Seq<QualityDocumentRef>,
    fingerprint: Option<Seq<char>>,
    path: Option<Seq<char>>,
) -> Option<int> {
    let by_fingerprint = match fingerprint {
        Some(f) => last_with_fingerprint(docs, f),
        None => None,
    };
    match by_fingerprint {
        Some(i) => Some(i),
        None => match path {
            Some(p) => first_with_path(docs, p),
            None => None,
        },
    }
}

/// The category and page count of a benchmarked document: those of its
/// quality document (a missing category there reads `uncategorized`, a
/// missing count zero), else its own, else `uncategorized` and zero.
pub open spec fn document_category_and_pages(
    docs: Seq<QualityDocumentRef>,
    fingerprint: Option<Seq<char>>,
    path: Option<Seq<char>>,
    category: Option<Seq<char>>,
    page_count: Option<u64>,
) -> (Seq<char>, u64) {
    match matched_quality_document(docs, fingerprint, path) {
        Some(i) => (
            match string_opt_view(docs[i].category) {
                Some(c) => c,
                None => "uncategorized"@,
            },
            match docs[i].page_count {
                Some(n) => n,
                None => 0,
            },
        ),
        None => (
            match category {
                Some(c) => c,
                None => "uncategorized"@,
            },
            match page_count {
                Some(n) => n,
                None => 0,
            },
        ),
    }
}

proof fn lemma_last_with_fingerprint_bounds(docs: Seq<QualityDocumentRef>, fingerprint: Seq<char>)
    ensures
        last_with_fingerprint(docs, fingerprint) matches Some(i) ==> 0 <= i < docs.len(),
    decreases docs.len(),
{
    if docs.len() > 0 {
        lemma_last_with_fingerprint_bounds(docs.drop_last(), fingerprint);
    }
}

proof fn lemma_first_with_path_bounds(docs: Seq<QualityDocumentRef>, path: Seq<char>)
    ensures
        first_with_path(docs, path) matches Some(i) ==> 0 <= i < docs.len(),
    decreases docs.len(),
{
    if docs.len() > 0 {
        lemma_first_with_path_bounds(docs.drop_last(), path);
    }
}

fn find_by_fingerprint(docs: &Vec<QualityDocumentRef>, fingerprint: &str) -> (r: Option<usize>)
    ensures
        match r {
            Some(i) => last_with_fingerprint(docs@, fingerprint@) == Some(i as int),
            None => last_with_fingerprint(docs@, fingerprint@) is None,
        },
{
    let mut i: usize = docs.len();
    proof {
        assert(docs@.take(i as int) =~= docs@);
    }
    while i > 0
        invariant
            i <= docs@.len(),
            last_with_fingerprint(docs@, fingerprint@) == last_with_fingerprint(docs@.take(i as int), fingerprint@),
        decreases i,
    {
        proof {
            assert(docs@.take(i as int).drop_last() =~= docs@.take(i - 1));
            assert(docs@.take(i as int).last() == docs@[i - 1]);
        }
        let hit = match &docs[i - 1].fingerprint {
            Some(f) => str_eq(f.as_str(), fingerprint),
            None => false,
        };
        if hit {
            return Some(i - 1);
        }
        i -= 1;
    }
    None
}

fn find_by_path(docs: &Vec<QualityDocumentRef>, path: &str) -> (r: Option<usize>)
    ensures
        match r {
            Some(i) => first_with_path(docs@, path@) == Some(i as int),
            None => first_with_path(docs@, path@) is None,
        },
{
    let mut i: usize = 0;
    while i < docs.len()
        invariant
            i <= docs@.len(),
            first_with_path(docs@.take(i as int), path@) is None,
        decreases docs@.len() - i,
    {
        proof {
            assert(docs@.take(i + 1).drop_last() =~= docs@.take(i as int));
        }
        let hit = match &docs[i].path {
            Some(p) => feature_parity_paths_match(Some(p.as_str()), path),
            None => false,
        };
        if hit {
            proof {
                lemma_first_with_path_prefix(docs@, path@, i as int + 1);
            }
            return Some(i);
        }
        i += 1;
    }
    proof {
        assert(docs@.take(docs@.len() as int) =~= docs@);
    }
    None
}

/// A match found among the first documents is the match among all.
proof fn lemma_first_with_path_prefix(docs: Seq<QualityDocumentRef>, path: Seq<char>, i: int)
    requires
        0 <= i <= docs.len(),
        first_with_path(docs.take(i), path) is Some,
    ensures
        first_with_path(docs, path) == first_with_path(docs.take(i), path),
    decreases docs.len() - i,
{
    if i < docs.len() {
        assert(docs.take(i + 1).drop_last() =~= docs.take(i));
        lemma_first_with_path_prefix(docs, path, i + 1);
    } else {
        assert(docs.take(i) =~= docs);
    }
}

/// The category and page count of a benchmarked document.
pub fn benchmark_document_category(
    docs: &Vec<QualityDocumentRef>,
    fingerprint: Option<&str>,
    path: Option<&str>,
    category: Option<&str>,
    page_count: Option<u64>,
) -> (r: (String, u64))
    ensures
        (r.0@, r.1) == document_category_and_pages(
            docs@,
            crate::categories::str_opt_view(fingerprint),
            crate::categories::str_opt_view(path),
            crate::categories::str_opt_view(category),
            page_count,
        ),
{
    let by_fingerprint = match fingerprint {
        Some(f) => find_by_fingerprint(docs, f),
        None => None,
    };
    let matched = match by_fingerprint {
        Some(i) => Some(i),
        None => match path {
            Some(p) => find_by_path(docs, p),
            None => None,
        },
    };
    proof {
        lemma_last_with_fingerprint_bounds(docs@, match fingerprint {
            Some(f) => f@,
            None => Seq::empty(),
        });
        lemma_first_with_path_bounds(docs@, match path {
            Some(p) => p@,
            None => Seq::empty(),
        });
    }
    match matched {
        Some(i) => {
            let d = &docs[i];
            let c = match &d.category {
                Some(c) => copy_string(c),
                None => "uncategorized".to_string(),
            };
            let n: u64 = match d.page_count {
                Some(n) => n,
                None => 0,
            };
            (c, n)
        },
        None => {
            let c = match category {
                Some(c) => c.to_string(),
                None => "uncategorized".to_string(),
            };
            let n: u64 = match page_count {
                Some(n) => n,
                None => 0,
            };
            (c, n)
        },
    }
}

// ---------------------------------------------------------------------------
// Baselines whose quality went unchecked, per category
// ---------------------------------------------------------------------------

/// A baseline's result on a benchmarked document that carries no quality
/// result but a quality status, with the document's category and pages.
pub struct UncheckedBaselineResult {
    pub baseline: String,
    pub category: String,
    pub page_count: u64,
    pub quality_status: String,
}

/// Only results whose status says the quality was not checked are counted.
pub open spec fn counted_unchecked(e: UncheckedBaselineResult) -> bool {
    starts_with(e.quality_status@, "not_checked_"@)
}

/// The (baseline, category) pair a result is counted under.
pub open spec fn unchecked_key(e: UncheckedBaselineResult) -> Seq<Seq<char>> {
    seq![e.baseline@, e.category@]
}

/// The counted results of a pair: documents, pages, and documents under each
/// of the three statuses.
pub open spec fn unchecked_group(results: Seq<UncheckedBaselineResult>, key: Seq<Seq<char>>) -> (
    nat,
    nat,
    nat,
    nat,
    nat,
)
    decreases results.len(),
{
    if results.len() == 0 {
        (0, 0, 0, 0, 0)
    } else {
        let p = unchecked_group(results.drop_last(), key);
        let e = results.last();
        if counted_unchecked(e) && unchecked_key(e) == key {
            (
                p.0 + 1,
                p.1 + e.page_count as nat,
                p.2 + if e.quality_status@ == "not_checked_no_expectations"@ {
                    1nat
                } else {
                    0nat
                },
                p.3 + if e.quality_status@ == "not_checked_timed_out"@ {
                    1nat
                } else {
                    0nat
                },
                p.4 + if e.quality_status@ == "not_checked_execution_failed"@ {
                    1nat
                } else {
                    0nat
                },
            )
        } else {
            p
        }
    }
}

/// The pages of all results.
pub open spec fn unchecked_pages(results: Seq<UncheckedBaselineResult>) -> nat
    decreases results.len(),
{
    if results.len() == 0 {
        0
    } else {
        unchecked_pages(results.drop_last()) + results.last().page_count as nat
    }
}

proof fn lemma_unchecked_group_bounds(results: Seq<UncheckedBaselineResult>, key: Seq<Seq<char>>)
    ensures
        unchecked_group(results, key).0 <= results.len(),
        unchecked_group(results, key).1 <= unchecked_pages(results),
        unchecked_group(results, key).2 <= unchecked_group(results, key).0,
        unchecked_group(results, key).3 <= unchecked_group(results, key).0,
        unchecked_group(results, key).4 <= unchecked_group(results, key).0,
    decreases results.len(),
{
    if results.len() > 0 {
        lemma_unchecked_group_bounds(results.drop_last(), key);
    }
}

proof fn lemma_unchecked_pages_prefix(results: Seq<UncheckedBaselineResult>, i: int)
    requires
        0 <= i <= results.len(),
    ensures
        unchecked_pages(results.take(i)) <= unchecked_pages(results),
    decreases results.len() - i,
{
    if i < results.len() {
        lemma_unchecked_pages_prefix(results, i + 1);
        assert(results.take(i + 1).drop_last() =~= results.take(i));
    } else {
        assert(results.take(i) =~= results);
    }
}

/// Whether some counted result has the pair.
pub open spec fn has_unchecked_pair(results: Seq<UncheckedBaselineResult>, key: Seq<Seq<char>>) -> bool {
    exists|i: int| 0 <= i < results.len() && counted_unchecked(results[i]) && #[trigger] unchecked_key(
        results[i],
    ) == key
}

pub open spec fn evidence_key(e: FeatureParityBenchmarkBaselineQualityUncheckedCategoryEvidence) -> Seq<Seq<char>> {
    seq![e.baseline@, e.category@]
}

fn is_unchecked_status(status: &str) -> (r: bool)
    ensures
        r == starts_with(status@, "not_checked_"@),
{
    let v = chars_of(status);
    starts_with_chars(&v, &lit("not_checked_"))
}

/// The counted results of one pair, as report evidence.
fn unchecked_group_evidence(results: &Vec<UncheckedBaselineResult>, baseline: &String, category: &String) -> (e:
    FeatureParityBenchmarkBaselineQualityUncheckedCategoryEvidence)
    requires
        unchecked_pages(results@) <= u64::MAX,
    ensures
        e.baseline@ == baseline@,
        e.category@ == category@,
        (e.document_count as nat, e.page_count as nat, e.not_checked_no_expectations_documents as nat,
        e.not_checked_timed_out_documents as nat, e.not_checked_execution_failed_documents as nat)
            == unchecked_group(results@, seq![baseline@, category@]),
{
    let ghost key = seq![baseline@, category@];
    let mut e = FeatureParityBenchmarkBaselineQualityUncheckedCategoryEvidence {
        baseline: copy_string(baseline),
        category: copy_string(category),
        document_count: 0,
        page_count: 0,
        not_checked_no_expectations_documents: 0,
        not_checked_timed_out_documents: 0,
        not_checked_execution_failed_documents: 0,
    };
    let mut i: usize = 0;
    while i < results.len()
        invariant
            i <= results@.len(),
            unchecked_pages(results@) <= u64::MAX,
            key == seq![baseline@, category@],
            e.baseline@ == baseline@,
            e.category@ == category@,
            (e.document_count as nat, e.page_count as nat, e.not_checked_no_expectations_documents as nat,
            e.not_checked_timed_out_documents as nat, e.not_checked_execution_failed_documents as nat)
                == unchecked_group(results@.take(i as int), key),
        decreases results@.len() - i,
    {
        let ghost pre = results@.take(i as int);
        proof {
            assert(results@.take(i + 1).drop_last() =~= pre);
            assert(results@.take(i + 1).last() == results@[i as int]);
            lemma_unchecked_group_bounds(pre, key);
            lemma_unchecked_pages_prefix(results@, i + 1);
            assert(unchecked_pages(results@.take(i + 1)) == unchecked_pages(pre) + results@[i as int].page_count);
        }
        let r = &results[i];
        if is_unchecked_status(r.quality_status.as_str()) && str_eq(r.baseline.as_str(), baseline.as_str())
            && str_eq(r.category.as_str(), category.as_str()) {
            proof {
                assert(r.baseline@ == baseline@);
                assert(r.category@ == category@);
                assert(unchecked_key(*r) =~= key);
            }
            e.add_document(r.page_count, r.quality_status.as_str());
        } else {
            proof {
                if counted_unchecked(*r) && unchecked_key(*r) == key {
                    assert(unchecked_key(*r)[0] == key[0]);
                    assert(unchecked_key(*r)[1] == key[1]);
                }
            }
        }
        i += 1;
    }
    proof {
        assert(results@.take(results@.len() as int) =~= results@);
    }
    e
}

/// The unchecked baseline results summed up per (baseline, category) pair,
/// in ascending order of the pair.
pub fn baseline_quality_unchecked_categories(results: &Vec<UncheckedBaselineResult>) -> (r: Vec<
    FeatureParityBenchmarkBaselineQualityUncheckedCategoryEvidence,
>)
    requires
        unchecked_pages(results@) <= u64::MAX,
    ensures
        is_strictly_sorted::<Vec<String>>(Seq::new(r@.len(), |i: int| evidence_key(r@[i]))),
        forall|key: Seq<Seq<char>>|
            (exists|i: int| 0 <= i < r@.len() && #[trigger] evidence_key(r@[i]) == key) <==> has_unchecked_pair(
                results@,
                key,
            ),
        forall|i: int|
            0 <= i < r@.len() ==> ((#[trigger] r@[i]).document_count as nat, r@[i].page_count as nat,
            r@[i].not_checked_no_expectations_documents as nat, r@[i].not_checked_timed_out_documents as nat,
            r@[i].not_checked_execution_failed_documents as nat) == unchecked_group(
                results@,
                evidence_key(r@[i]),
            ),
{
    let mut keys: Vec<Vec<String>> = Vec::new();
    let mut i: usize = 0;
    while i < results.len()
        invariant
            i <= results@.len(),
            forall|k: Seq<Seq<char>>|
                #[trigger] keys.deep_view().contains(k) <==> has_unchecked_pair(results@.take(i as int), k),
            forall|j: int| 0 <= j < keys.deep_view().len() ==> (#[trigger] keys.deep_view()[j]).len() == 2,
        decreases results@.len() - i,
    {
        let r = &results[i];
        let ghost prev_vec = keys@;
        proof {
            crate::views::lemma_vec_dview(keys);
        }
        let ghost prev_keys = keys.deep_view();
        let counted = is_unchecked_status(r.quality_status.as_str());
        if counted {
            let mut k: Vec<String> = Vec::new();
            k.push(copy_string(&r.baseline));
            k.push(copy_string(&r.category));
            proof {
                crate::views::lemma_vec_dview(k);
                assert(k.deep_view() =~= unchecked_key(*r));
            }
            let ghost kk = k;
            keys.push(k);
            proof {
                crate::views::lemma_vec_dview(keys);
                crate::views::lemma_dview_push(prev_vec, kk);
            }
        }
        proof {
            assert(keys.deep_view() == if counted_unchecked(*r) {
                prev_keys.push(unchecked_key(*r))
            } else {
                prev_keys
            });
            let prev = results@.take(i as int);
            let now = results@.take(i + 1);
            assert(now.drop_last() =~= prev);
            assert(now[i as int] == *r);
            assert forall|k: Seq<Seq<char>>| #[trigger] keys.deep_view().contains(k) <==> has_unchecked_pair(
                now,
                k,
            ) by {
                if keys.deep_view().contains(k) {
                    let j = choose|j: int| 0 <= j < keys.deep_view().len() && keys.deep_view()[j] == k;
                    if j < prev_keys.len() {
                        assert(prev_keys[j] == k);
                        assert(prev_keys.contains(k));
                        assert(has_unchecked_pair(prev, k));
                        let w = choose|w: int|
                            0 <= w < prev.len() && counted_unchecked(prev[w]) && #[trigger] unchecked_key(prev[w]) == k;
                        assert(now[w] == prev[w]);
                    } else {
                        assert(counted_unchecked(*r) && unchecked_key(*r) == k);
                    }
                }
                if has_unchecked_pair(now, k) {
                    let w = choose|w: int|
                        0 <= w < now.len() && counted_unchecked(now[w]) && #[trigger] unchecked_key(now[w]) == k;
                    if w < i {
                        assert(prev[w] == now[w]);
                        assert(has_unchecked_pair(prev, k));
                        assert(prev_keys.contains(k));
                        let j = choose|j: int| 0 <= j < prev_keys.len() && prev_keys[j] == k;
                        assert(keys.deep_view()[j] == k);
                    } else {
                        assert(now[w] == *r);
                        assert(keys.deep_view()[keys.deep_view().len() - 1] == k);
                    }
                }
            }
            assert forall|j: int| 0 <= j < keys.deep_view().len() implies (#[trigger] keys.deep_view()[j]).len() == 2 by {
                if j < prev_keys.len() {
                    assert(keys.deep_view()[j] == prev_keys[j]);
                }
            }
        }
        i += 1;
    }
    proof {
        assert(results@.take(results@.len() as int) =~= results@);
    }
    let sorted = sorted_unique(keys);
    let mut out: Vec<FeatureParityBenchmarkBaselineQualityUncheckedCategoryEvidence> = Vec::new();
    let mut j: usize = 0;
    while j < sorted.len()
        invariant
            j <= sorted@.len(),
            unchecked_pages(results@) <= u64::MAX,
            is_strictly_sorted::<Vec<String>>(sorted.deep_view()),
            forall|k: Seq<Seq<char>>| #[trigger] sorted.deep_view().contains(k) <==> has_unchecked_pair(results@, k),
            out@.len() == j,
            forall|m: int| 0 <= m < j ==> #[trigger] evidence_key(out@[m]) == sorted.deep_view()[m],
            forall|m: int|
                0 <= m < j ==> ((#[trigger] out@[m]).document_count as nat, out@[m].page_count as nat,
                out@[m].not_checked_no_expectations_documents as nat,
                out@[m].not_checked_timed_out_documents as nat,
                out@[m].not_checked_execution_failed_documents as nat) == unchecked_group(
                    results@,
                    evidence_key(out@[m]),
                ),
        decreases sorted@.len() - j,
    {
        proof {
            crate::views::lemma_vec_dview(sorted);
            assert(sorted.deep_view().contains(sorted.deep_view()[j as int]));
            let w = choose|w: int|
                0 <= w < results@.len() && counted_unchecked(results@[w]) && #[trigger] unchecked_key(results@[w])
                    == sorted.deep_view()[j as int];
            crate::views::lemma_vec_dview(sorted@[j as int]);
        }
        let k = &sorted[j];
        proof {
            assert(k.deep_view() == sorted.deep_view()[j as int]);
            assert(k@.len() == 2);
        }
        let e = unchecked_group_evidence(results, &k[0], &k[1]);
        proof {
            assert(seq![k[0]@, k[1]@] =~= k.deep_view());
        }
        out.push(e);
        j += 1;
    }
    proof {
        let keys_out = Seq::new(out@.len(), |i: int| evidence_key(out@[i]));
        assert(keys_out =~= sorted.deep_view());
        assert forall|key: Seq<Seq<char>>|
            (exists|i: int| 0 <= i < out@.len() && #[trigger] evidence_key(out@[i]) == key) <==> has_unchecked_pair(
                results@,
                key,
            ) by {
            if has_unchecked_pair(results@, key) {
                assert(sorted.deep_view().contains(key));
                let m = choose|m: int| 0 <= m < sorted.deep_view().len() && sorted.deep_view()[m] == key;
                assert(evidence_key(out@[m]) == key);
            }
            if exists|i: int| 0 <= i < out@.len() && #[trigger] evidence_key(out@[i]) == key {
                let m = choose|m: int| 0 <= m < out@.len() && #[trigger] evidence_key(out@[m]) == key;
                assert(sorted.deep_view()[m] == key);
                assert(sorted.deep_view().contains(key));
            }
        }
    }
    out
}

// ---------------------------------------------------------------------------
// A stable order by name
// ---------------------------------------------------------------------------

/// The positions holding a key, in order.
pub open spec fn positions_with(keys: Seq<Seq<char>>, key: Seq<char>) -> Seq<int>
    decreases keys.len(),
{
    if keys.len() == 0 {
        seq![]
    } else {
        let p = positions_with(keys.drop_last(), key);
        if keys.last() == key {
            p.push(keys.len() - 1)
        } else {
            p
        }
    }
}

/// The positions of the keys grouped in the given order of keys, each group
/// in its original order: a stable sort when the order ascends.
pub open spec fn grouped_positions(keys: Seq<Seq<char>>, order: Seq<Seq<char>>) -> Seq<int>
    decreases order.len(),
{
    if order.len() == 0 {
        seq![]
    } else {
        grouped_positions(keys, order.drop_last()) + positions_with(keys, order.last())
    }
}

proof fn lemma_positions_with_bounds(keys: Seq<Seq<char>>, key: Seq<char>)
    ensures
        forall|k: int|
            0 <= k < positions_with(keys, key).len() ==> 0 <= #[trigger] positions_with(keys, key)[k]
                < keys.len() && keys[positions_with(keys, key)[k]] == key,
    decreases keys.len(),
{
    if keys.len() > 0 {
        lemma_positions_with_bounds(keys.drop_last(), key);
        let p = positions_with(keys.drop_last(), key);
        assert forall|k: int| 0 <= k < p.len() implies keys[#[trigger] p[k]] == keys.drop_last()[p[k]] by {}
    }
}

proof fn lemma_grouped_positions_bounds(keys: Seq<Seq<char>>, order: Seq<Seq<char>>)
    ensures
        forall|k: int|
            0 <= k < grouped_positions(keys, order).len() ==> 0 <= #[trigger] grouped_positions(keys, order)[k]
                < keys.len(),
    decreases order.len(),
{
    if order.len() > 0 {
        lemma_grouped_positions_bounds(keys, order.drop_last());
        lemma_positions_with_bounds(keys, order.last());
        let a = grouped_positions(keys, order.drop_last());
        let b = positions_with(keys, order.last());
        assert forall|k: int| 0 <= k < grouped_positions(keys, order).len() implies 0
            <= #[trigger] grouped_positions(keys, order)[k] < keys.len() by {
            if k < a.len() {
                assert(grouped_positions(keys, order)[k] == a[k]);
            } else {
                assert(grouped_positions(keys, order)[k] == b[k - a.len()]);
            }
        }
    }
}

fn copy_strings(v: &Vec<String>) -> (r: Vec<String>)
    ensures
        r.deep_view() == v.deep_view(),
{
    let mut out: Vec<String> = Vec::new();
    let mut i: usize = 0;
    while i < v.len()
        invariant
            i <= v@.len(),
            out.deep_view() == v.deep_view().take(i as int),
        decreases v@.len() - i,
    {
        let ghost prev = out@;
        let t = copy_string(&v[i]);
        out.push(t);
        proof {
            crate::views::lemma_vec_dview(out);
            crate::views::lemma_dview_push(prev, t);
            crate::views::lemma_vec_dview(*v);
            assert(out.deep_view() =~= v.deep_view().take(i + 1));
        }
        i += 1;
    }
    proof {
        assert(v.deep_view().take(v@.len() as int) =~= v.deep_view());
    }
    out
}

/// The positions of the keys in ascending order of key, equal keys in their
/// original order (a stable sort by key).
pub fn stable_key_order(keys: &Vec<String>) -> (r: Vec<usize>)
    ensures
        exists|order: Seq<Seq<char>>|
            is_strictly_sorted::<String>(order) && (forall|k: Seq<char>|
                #[trigger] order.contains(k) <==> keys.deep_view().contains(k)) && r@.len()
                == grouped_positions(keys.deep_view(), order).len() && (forall|m: int|
                0 <= m < r@.len() ==> #[trigger] r@[m] == grouped_positions(keys.deep_view(), order)[m]),
        forall|m: int| 0 <= m < r@.len() ==> #[trigger] r@[m] < keys@.len(),
{
    let order = sorted_unique(copy_strings(keys));
    let ghost kd = keys.deep_view();
    let ghost od = order.deep_view();
    let mut out: Vec<usize> = Vec::new();
    let mut j: usize = 0;
    while j < order.len()
        invariant
            j <= order@.len(),
            kd == keys.deep_view(),
            od == order.deep_view(),
            out@.len() == grouped_positions(kd, od.take(j as int)).len(),
            forall|m: int| 0 <= m < out@.len() ==> #[trigger] out@[m] == grouped_positions(kd, od.take(j as int))[m],
        decreases order@.len() - j,
    {
        let ghost before = out@;
        let ghost key = od[j as int];
        proof {
            crate::views::lemma_vec_dview(order);
            assert(order@[j as int]@ == key);
        }
        let mut i: usize = 0;
        while i < keys.len()
            invariant
                i <= keys@.len(),
                kd == keys.deep_view(),
                key == order@[j as int]@,
                j < order@.len(),
                out@.len() == before.len() + positions_with(kd.take(i as int), key).len(),
                forall|m: int| 0 <= m < before.len() ==> #[trigger] out@[m] == before[m],
                forall|m: int|
                    0 <= m < positions_with(kd.take(i as int), key).len() ==> out@[before.len() + m]
                        == #[trigger] positions_with(kd.take(i as int), key)[m],
            decreases keys@.len() - i,
        {
            proof {
                crate::views::lemma_vec_dview(*keys);
                assert(kd.take(i + 1).drop_last() =~= kd.take(i as int));
                assert(kd.take(i + 1).last() == keys@[i as int]@);
            }
            if str_eq(keys[i].as_str(), order[j].as_str()) {
                out.push(i);
            }
            i += 1;
        }
        proof {
            assert(kd.take(keys@.len() as int) =~= kd);
            assert(od.take(j + 1).drop_last() =~= od.take(j as int));
            assert(od.take(j + 1).last() == key);
            let g = grouped_positions(kd, od.take(j + 1));
            assert(g == grouped_positions(kd, od.take(j as int)) + positions_with(kd, key));
            assert forall|m: int| 0 <= m < out@.len() implies #[trigger] out@[m] == g[m] by {
                if m < before.len() {
                } else {
                    assert(out@[before.len() + (m - before.len())] == positions_with(kd, key)[m - before.len()]);
                }
            }
        }
        j += 1;
    }
    proof {
        assert(od.take(order@.len() as int) =~= od);
        lemma_grouped_positions_bounds(kd, od);
        crate::views::lemma_vec_dview(*keys);
    }
    out
}

// ---------------------------------------------------------------------------
// Baselines whose quality checks failed
// ---------------------------------------------------------------------------

/// A category of a baseline's quality summary, counts defaulting to zero.
pub struct BaselineCategoryQuality {
    pub category: String,
    pub document_count: u64,
    pub page_count: u64,
    pub failed_documents: u64,
    pub failed_checks: u64,
    pub quality_failed: bool,
}

/// How many failure samples of a baseline the evidence carries.
pub const FAILURE_SAMPLE_LIMIT: usize = 8;

/// The failure samples the evidence carries for a baseline: the first
/// `FAILURE_SAMPLE_LIMIT` of them, in order.
pub fn failure_sample_window<T>(samples: Vec<T>) -> (r: Vec<T>)
    ensures
        r@ == samples@.take(if samples@.len() < FAILURE_SAMPLE_LIMIT {
            samples@.len() as int
        } else {
            FAILURE_SAMPLE_LIMIT as int
        }),
{
    let mut r = samples;
    r.truncate(FAILURE_SAMPLE_LIMIT);
    r
}

/// A baseline of the report as the failure evidence reads it: its name,
/// target and status where given, its category summaries, whether it has
/// failure samples, and its failure totals where given.
pub struct BaselineQualityInput {
    pub name: Option<String>,
    pub target: Option<String>,
    pub quality_status: Option<String>,
    pub categories: Vec<BaselineCategoryQuality>,
    pub has_failure_samples: bool,
    pub quality_failed_documents: Option<u64>,
    pub quality_failed_checks: Option<u64>,
}

/// A category in which a baseline failed.
pub struct FailedCategoryEvidence {
    pub category: String,
    pub document_count: u64,
    pub page_count: u64,
    pub failed_documents: u64,
    pub failed_checks: u64,
}

/// A baseline whose quality failed; `source` is its position in the input,
/// for the caller to attach its failure samples.
pub struct BaselineQualityFailureEvidence {
    pub baseline: String,
    pub target: Option<String>,
    pub quality_status: Option<String>,
    pub quality_failed_documents: u64,
    pub quality_failed_checks: u64,
    pub failed_categories: Vec<FailedCategoryEvidence>,
    pub source: usize,
}

/// A category counts as failed when it has failed documents or checks or is
/// marked failed.
pub open spec fn category_failed(c: BaselineCategoryQuality) -> bool {
    c.failed_documents != 0 || c.failed_checks != 0 || c.quality_failed
}

/// The failed categories, in their original order.
pub open spec fn failed_categories_of(cs: Seq<BaselineCategoryQuality>) -> Seq<BaselineCategoryQuality>
    decreases cs.len(),
{
    if cs.len() == 0 {
        seq![]
    } else {
        let p = failed_categories_of(cs.drop_last());
        if category_failed(cs.last()) {
            p.push(cs.last())
        } else {
            p
        }
    }
}

pub open spec fn category_names(cs: Seq<BaselineCategoryQuality>) -> Seq<Seq<char>> {
    Seq::new(cs.len(), |i: int| cs[i].category@)
}

pub open spec fn sum_failed_documents(cs: Seq<BaselineCategoryQuality>) -> nat
    decreases cs.len(),
{
    if cs.len() == 0 {
        0
    } else {
        sum_failed_documents(cs.drop_last()) + cs.last().failed_documents as nat
    }
}

pub open spec fn sum_failed_checks(cs: Seq<BaselineCategoryQuality>) -> nat
    decreases cs.len(),
{
    if cs.len() == 0 {
        0
    } else {
        sum_failed_checks(cs.drop_last()) + cs.last().failed_checks as nat
    }
}

/// The totals fit a `u64` where the report leaves them to be summed.
pub open spec fn failure_sums_fit(b: BaselineQualityInput) -> bool {
    &&& b.quality_failed_documents is None ==> sum_failed_documents(failed_categories_of(b.categories@))
        <= u64::MAX
    &&& b.quality_failed_checks is None ==> sum_failed_checks(failed_categories_of(b.categories@))
        <= u64::MAX
}

pub open spec fn is_failed_category_evidence(e: FailedCategoryEvidence, c: BaselineCategoryQuality) -> bool {
    &&& e.category@ == c.category@
    &&& e.document_count == c.document_count
    &&& e.page_count == c.page_count
    &&& e.failed_documents == c.failed_documents
    &&& e.failed_checks == c.failed_checks
}

proof fn lemma_failed_sums_prefix(cs: Seq<BaselineCategoryQuality>, i: int)
    requires
        0 <= i <= cs.len(),
    ensures
        sum_failed_documents(cs.take(i)) <= sum_failed_documents(cs),
        sum_failed_checks(cs.take(i)) <= sum_failed_checks(cs),
    decreases cs.len() - i,
{
    if i < cs.len() {
        lemma_failed_sums_prefix(cs, i + 1);
        assert(cs.take(i + 1).drop_last() =~= cs.take(i));
    } else {
        assert(cs.take(i) =~= cs);
    }
}

fn failed_categories(cs: &Vec<BaselineCategoryQuality>) -> (r: Vec<BaselineCategoryQuality>)
    ensures
        r@.len() == failed_categories_of(cs@).len(),
        forall|m: int| 0 <= m < r@.len() ==> is_same_category(#[trigger] r@[m], failed_categories_of(cs@)[m]),
        sum_failed_documents(r@) == sum_failed_documents(failed_categories_of(cs@)),
        sum_failed_checks(r@) == sum_failed_checks(failed_categories_of(cs@)),
        category_names(r@) == category_names(failed_categories_of(cs@)),
{
    let mut out: Vec<BaselineCategoryQuality> = Vec::new();
    let mut i: usize = 0;
    while i < cs.len()
        invariant
            i <= cs@.len(),
            out@.len() == failed_categories_of(cs@.take(i as int)).len(),
            forall|m: int|
                0 <= m < out@.len() ==> is_same_category(#[trigger] out@[m], failed_categories_of(cs@.take(i as int))[m]),
            sum_failed_documents(out@) == sum_failed_documents(failed_categories_of(cs@.take(i as int))),
            sum_failed_checks(out@) == sum_failed_checks(failed_categories_of(cs@.take(i as int))),
            category_names(out@) == category_names(failed_categories_of(cs@.take(i as int))),
        decreases cs@.len() - i,
    {
        proof {
            assert(cs@.take(i + 1).drop_last() =~= cs@.take(i as int));
            assert(cs@.take(i + 1).last() == cs@[i as int]);
        }
        let c = &cs[i];
        if c.failed_documents != 0 || c.failed_checks != 0 || c.quality_failed {
            let ghost before = out@;
            let copy = BaselineCategoryQuality {
                category: copy_string(&c.category),
                document_count: c.document_count,
                page_count: c.page_count,
                failed_documents: c.failed_documents,
                failed_checks: c.failed_checks,
                quality_failed: c.quality_failed,
            };
            let ghost cg = copy;
            out.push(copy);
            proof {
                let f = failed_categories_of(cs@.take(i + 1));
                assert(f == failed_categories_of(cs@.take(i as int)).push(cs@[i as int]));
                assert(out@.drop_last() =~= before);
                assert(out@.last() == cg);
                assert(f.drop_last() =~= failed_categories_of(cs@.take(i as int)));
                assert(sum_failed_documents(out@) == sum_failed_documents(before) + cg.failed_documents);
                assert(sum_failed_checks(out@) == sum_failed_checks(before) + cg.failed_checks);
                assert(category_names(out@) =~= category_names(f));
            }
        }
        i += 1;
    }
    proof {
        assert(cs@.take(cs@.len() as int) =~= cs@);
    }
    out
}

/// Two category summaries that agree in everything the evidence reads.
pub open spec fn is_same_category(a: BaselineCategoryQuality, b: BaselineCategoryQuality) -> bool {
    &&& a.category@ == b.category@
    &&& a.document_count == b.document_count
    &&& a.page_count == b.page_count
    &&& a.failed_documents == b.failed_documents
    &&& a.failed_checks == b.failed_checks
}

fn sum_categories(cs: &Vec<BaselineCategoryQuality>, documents: bool) -> (n: u64)
    requires
        documents ==> sum_failed_documents(cs@) <= u64::MAX,
        !documents ==> sum_failed_checks(cs@) <= u64::MAX,
    ensures
        n == if documents {
            sum_failed_documents(cs@)
        } else {
            sum_failed_checks(cs@)
        },
{
    let mut total: u64 = 0;
    let mut i: usize = 0;
    while i < cs.len()
        invariant
            i <= cs@.len(),
            documents ==> sum_failed_documents(cs@) <= u64::MAX,
            !documents ==> sum_failed_checks(cs@) <= u64::MAX,
            total == if documents {
                sum_failed_documents(cs@.take(i as int))
            } else {
                sum_failed_checks(cs@.take(i as int))
            },
        decreases cs@.len() - i,
    {
        proof {
            assert(cs@.take(i + 1).drop_last() =~= cs@.take(i as int));
            lemma_failed_sums_prefix(cs@, i + 1);
        }
        if documents {
            total = total + cs[i].failed_documents;
        } else {
            total = total + cs[i].failed_checks;
        }
        i += 1;
    }
    proof {
        assert(cs@.take(cs@.len() as int) =~= cs@);
    }
    total
}

/// What a baseline contributes to the failure evidence: nothing without a
/// name, or when nothing failed and there are no failure samples.
pub open spec fn baseline_failure_totals(b: BaselineQualityInput) -> Option<(nat, nat)> {
    let failed = failed_categories_of(b.categories@);
    let documents = match b.quality_failed_documents {
        Some(n) => n as nat,
        None => sum_failed_documents(failed),
    };
    let checks = match b.quality_failed_checks {
        Some(n) => n as nat,
        None => sum_failed_checks(failed),
    };
    if b.name is None || (documents == 0 && checks == 0 && failed.len() == 0 && !b.has_failure_samples) {
        None
    } else {
        Some((documents, checks))
    }
}

/// The failure evidence of a baseline: its totals, name, target, status and
/// failed categories, stably ordered by category.
pub open spec fn is_failure_evidence_of(e: BaselineQualityFailureEvidence, b: BaselineQualityInput) -> bool {
    let failed = failed_categories_of(b.categories@);
    &&& baseline_failure_totals(b) == Some((e.quality_failed_documents as nat, e.quality_failed_checks as nat))
    &&& b.name matches Some(n) && e.baseline@ == n@
    &&& string_opt_view(e.target) == string_opt_view(b.target)
    &&& string_opt_view(e.quality_status) == string_opt_view(b.quality_status)
    &&& exists|order: Seq<Seq<char>>|
        is_strictly_sorted::<String>(order) && (forall|k: Seq<char>|
            #[trigger] order.contains(k) <==> category_names(failed).contains(k))
            && e.failed_categories@.len() == grouped_positions(category_names(failed), order).len()
            && (forall|m: int|
            0 <= m < e.failed_categories@.len() ==> is_failed_category_evidence(
                #[trigger] e.failed_categories@[m],
                failed[grouped_positions(category_names(failed), order)[m]],
            ))
}

/// The failure evidence of one baseline; see `baseline_failure_totals`.
pub fn baseline_quality_failure(b: &BaselineQualityInput, source: usize) -> (r: Option<
    BaselineQualityFailureEvidence,
>)
    requires
        failure_sums_fit(*b),
    ensures
        match r {
            None => baseline_failure_totals(*b) is None,
            Some(e) => is_failure_evidence_of(e, *b) && e.source == source,
        },
{
    let name = match &b.name {
        Some(n) => copy_string(n),
        None => {
            return None;
        },
    };
    let failed = failed_categories(&b.categories);
    let documents: u64 = match b.quality_failed_documents {
        Some(n) => n,
        None => sum_categories(&failed, true),
    };
    let checks: u64 = match b.quality_failed_checks {
        Some(n) => n,
        None => sum_categories(&failed, false),
    };
    if documents == 0 && checks == 0 && failed.len() == 0 && !b.has_failure_samples {
        return None;
    }
    let mut names: Vec<String> = Vec::new();
    let mut i: usize = 0;
    while i < failed.len()
        invariant
            i <= failed@.len(),
            names.deep_view() == category_names(failed@).take(i as int),
        decreases failed@.len() - i,
    {
        let ghost prev = names@;
        let t = copy_string(&failed[i].category);
        names.push(t);
        proof {
            crate::views::lemma_vec_dview(names);
            crate::views::lemma_dview_push(prev, t);
            assert(names.deep_view() =~= category_names(failed@).take(i + 1));
        }
        i += 1;
    }
    proof {
        assert(category_names(failed@).take(failed@.len() as int) =~= category_names(failed@));
    }
    let positions = stable_key_order(&names);
    let ghost order = choose|order: Seq<Seq<char>>|
        is_strictly_sorted::<String>(order) && (forall|k: Seq<char>|
            #[trigger] order.contains(k) <==> names.deep_view().contains(k)) && positions@.len()
            == grouped_positions(names.deep_view(), order).len() && (forall|m: int|
            0 <= m < positions@.len() ==> #[trigger] positions@[m] == grouped_positions(
                names.deep_view(),
                order,
            )[m]);
    let ghost fc = failed_categories_of(b.categories@);
    let mut cats: Vec<FailedCategoryEvidence> = Vec::new();
    let mut j: usize = 0;
    while j < positions.len()
        invariant
            j <= positions@.len(),
            names.deep_view() == category_names(failed@),
            category_names(failed@) == category_names(fc),
            failed@.len() == fc.len(),
            forall|m: int| 0 <= m < failed@.len() ==> is_same_category(#[trigger] failed@[m], fc[m]),
            forall|m: int| 0 <= m < positions@.len() ==> #[trigger] positions@[m] < names@.len(),
            names@.len() == failed@.len(),
            positions@.len() == grouped_positions(names.deep_view(), order).len(),
            forall|m: int|
                0 <= m < positions@.len() ==> #[trigger] positions@[m] == grouped_positions(names.deep_view(), order)[m],
            cats@.len() == j,
            forall|m: int|
                0 <= m < j ==> is_failed_category_evidence(
                    #[trigger] cats@[m],
                    fc[grouped_positions(category_names(fc), order)[m]],
                ),
        decreases positions@.len() - j,
    {
        let p = positions[j];
        let c = &failed[p];
        proof {
            assert(is_same_category(failed@[p as int], fc[p as int]));
        }
        cats.push(
            FailedCategoryEvidence {
                category: copy_string(&c.category),
                document_count: c.document_count,
                page_count: c.page_count,
                failed_documents: c.failed_documents,
                failed_checks: c.failed_checks,
            },
        );
        j += 1;
    }
    let target = match &b.target {
        Some(t) => Some(copy_string(t)),
        None => None,
    };
    let status = match &b.quality_status {
        Some(t) => Some(copy_string(t)),
        None => None,
    };
    Some(
        BaselineQualityFailureEvidence {
            baseline: name,
            target,
            quality_status: status,
            quality_failed_documents: documents,
            quality_failed_checks: checks,
            failed_categories: cats,
            source,
        },
    )
}

/// The positions of the baselines that contribute failure evidence.
pub open spec fn kept_baselines(bs: Seq<BaselineQualityInput>) -> Seq<int>
    decreases bs.len(),
{
    if bs.len() == 0 {
        seq![]
    } else {
        let p = kept_baselines(bs.drop_last());
        if baseline_failure_totals(bs.last()) is Some {
            p.push(bs.len() - 1)
        } else {
            p
        }
    }
}

pub open spec fn name_of(b: BaselineQualityInput) -> Seq<char> {
    match b.name {
        Some(n) => n@,
        None => seq![],
    }
}

/// The names of the kept baselines, in input order.
pub open spec fn kept_names(bs: Seq<BaselineQualityInput>) -> Seq<Seq<char>> {
    Seq::new(kept_baselines(bs).len(), |i: int| name_of(bs[kept_baselines(bs)[i]]))
}

proof fn lemma_kept_bounds(bs: Seq<BaselineQualityInput>)
    ensures
        forall|k: int|
            0 <= k < kept_baselines(bs).len() ==> 0 <= #[trigger] kept_baselines(bs)[k] < bs.len(),
    decreases bs.len(),
{
    if bs.len() > 0 {
        lemma_kept_bounds(bs.drop_last());
        let p = kept_baselines(bs.drop_last());
        assert forall|k: int| 0 <= k < kept_baselines(bs).len() implies 0 <= #[trigger] kept_baselines(bs)[k]
            < bs.len() by {
            if k < p.len() {
                assert(kept_baselines(bs)[k] == p[k]);
            }
        }
    }
}

/// The failure evidence of all baselines, stably ordered by baseline name.
pub fn baseline_quality_failures(baselines: &Vec<BaselineQualityInput>) -> (r: Vec<
    BaselineQualityFailureEvidence,
>)
    requires
        forall|i: int| 0 <= i < baselines@.len() ==> failure_sums_fit(#[trigger] baselines@[i]),
    ensures
        exists|order: Seq<Seq<char>>|
            is_strictly_sorted::<String>(order) && (forall|k: Seq<char>|
                #[trigger] order.contains(k) <==> kept_names(baselines@).contains(k)) && r@.len()
                == grouped_positions(kept_names(baselines@), order).len() && (forall|m: int|
                0 <= m < r@.len() ==> (#[trigger] r@[m]).source == kept_baselines(baselines@)[grouped_positions(
                    kept_names(baselines@),
                    order,
                )[m]]),
        forall|m: int|
            0 <= m < r@.len() ==> (#[trigger] r@[m]).source < baselines@.len() && is_failure_evidence_of(
                r@[m],
                baselines@[r@[m].source as int],
            ),
{
    let ghost bs = baselines@;
    let mut sources: Vec<usize> = Vec::new();
    let mut names: Vec<String> = Vec::new();
    let mut i: usize = 0;
    while i < baselines.len()
        invariant
            i <= baselines@.len(),
            bs == baselines@,
            forall|j: int| 0 <= j < bs.len() ==> failure_sums_fit(#[trigger] bs[j]),
            sources@.len() == kept_baselines(bs.take(i as int)).len(),
            forall|k: int|
                0 <= k < sources@.len() ==> #[trigger] sources@[k] == kept_baselines(bs.take(i as int))[k],
            names.deep_view() == Seq::new(
                kept_baselines(bs.take(i as int)).len(),
                |k: int| name_of(bs[kept_baselines(bs.take(i as int))[k]]),
            ),
            forall|k: int| 0 <= k < sources@.len() ==> #[trigger] sources@[k] < i,
        decreases bs.len() - i,
    {
        let ghost before = bs.take(i as int);
        let ghost prev_names = names@;
        proof {
            assert(bs.take(i + 1).drop_last() =~= before);
            assert(bs.take(i + 1).last() == bs[i as int]);
            crate::views::lemma_vec_dview(names);
        }
        match baseline_quality_failure(&baselines[i], i) {
            Some(e) => {
                sources.push(i);
                let t = copy_string(&e.baseline);
                names.push(t);
                proof {
                    crate::views::lemma_vec_dview(names);
                    crate::views::lemma_dview_push(prev_names, t);
                    let now = bs.take(i + 1);
                    assert(kept_baselines(now) == kept_baselines(before).push(i as int));
                    assert(name_of(bs[i as int]) == t@);
                    assert forall|k: int| 0 <= k < kept_baselines(now).len() implies #[trigger] bs[kept_baselines(
                        now,
                    )[k]] == bs[kept_baselines(now)[k]] by {}
                    assert(names.deep_view() =~= Seq::new(
                        kept_baselines(now).len(),
                        |k: int| name_of(bs[kept_baselines(now)[k]]),
                    ));
                }
            },
            None => {
                proof {
                    let now = bs.take(i + 1);
                    assert(kept_baselines(now) == kept_baselines(before));
                }
            },
        }
        i += 1;
    }
    proof {
        assert(bs.take(bs.len() as int) =~= bs);
        lemma_kept_bounds(bs);
        assert(names.deep_view() =~= kept_names(bs));
    }
    let positions = stable_key_order(&names);
    let ghost order = choose|order: Seq<Seq<char>>|
        is_strictly_sorted::<String>(order) && (forall|k: Seq<char>|
            #[trigger] order.contains(k) <==> names.deep_view().contains(k)) && positions@.len()
            == grouped_positions(names.deep_view(), order).len() && (forall|m: int|
            0 <= m < positions@.len() ==> #[trigger] positions@[m] == grouped_positions(
                names.deep_view(),
                order,
            )[m]);
    let mut out: Vec<BaselineQualityFailureEvidence> = Vec::new();
    let mut j: usize = 0;
    while j < positions.len()
        invariant
            j <= positions@.len(),
            bs == baselines@,
            forall|q: int| 0 <= q < bs.len() ==> failure_sums_fit(#[trigger] bs[q]),
            names.deep_view() == kept_names(bs),
            sources@.len() == kept_baselines(bs).len(),
            forall|k: int| 0 <= k < sources@.len() ==> #[trigger] sources@[k] == kept_baselines(bs)[k],
            forall|k: int| 0 <= k < sources@.len() ==> #[trigger] sources@[k] < bs.len(),
            forall|m: int| 0 <= m < positions@.len() ==> #[trigger] positions@[m] < names@.len(),
            names@.len() == sources@.len(),
            positions@.len() == grouped_positions(names.deep_view(), order).len(),
            forall|m: int|
                0 <= m < positions@.len() ==> #[trigger] positions@[m] == grouped_positions(names.deep_view(), order)[m],
            out@.len() == j,
            forall|m: int|
                0 <= m < j ==> (#[trigger] out@[m]).source == kept_baselines(bs)[grouped_positions(
                    kept_names(bs),
                    order,
                )[m]],
            forall|m: int|
                0 <= m < j ==> (#[trigger] out@[m]).source < bs.len() && is_failure_evidence_of(
                    out@[m],
                    bs[out@[m].source as int],
                ),
        decreases positions@.len() - j,
    {
        let src = sources[positions[j]];
        proof {
            crate::views::lemma_vec_dview(names);
            let k = positions@[j as int] as int;
            assert(0 <= k < kept_baselines(bs).len());
            assert(src == kept_baselines(bs)[k]);
            // a kept baseline yields evidence
            lemma_kept_are_kept(bs, k);
        }
        match baseline_quality_failure(&baselines[src], src) {
            Some(e) => {
                out.push(e);
            },
            None => {},
        }
        j += 1;
    }
    proof {
        crate::views::lemma_vec_dview(names);
    }
    out
}

/// The kept positions are those whose baselines contribute evidence.
proof fn lemma_kept_are_kept(bs: Seq<BaselineQualityInput>, k: int)
    requires
        0 <= k < kept_baselines(bs).len(),
    ensures
        0 <= kept_baselines(bs)[k] < bs.len(),
        baseline_failure_totals(bs[kept_baselines(bs)[k]]) is Some,
    decreases bs.len(),
{
    if bs.len() > 0 {
        let p = kept_baselines(bs.drop_last());
        lemma_kept_bounds(bs.drop_last());
        if k < p.len() {
            lemma_kept_are_kept(bs.drop_last(), k);
            assert(bs[p[k]] == bs.drop_last()[p[k]]);
        }
    }
}

// ---------------------------------------------------------------------------
// Quality per category of the report
// ---------------------------------------------------------------------------

/// A category summary of the report's quality section.
pub struct BenchmarkCategoryEvidence {
    pub category: String,
    pub document_count: Option<u64>,
    pub page_count: Option<u64>,
    pub failed_checks: Option<u64>,
    pub quality_passed: Option<bool>,
}

pub open spec fn evidence_category_names(cs: Seq<BenchmarkCategoryEvidence>) -> Seq<Seq<char>> {
    Seq::new(cs.len(), |i: int| cs[i].category@)
}

pub open spec fn is_same_category_evidence(a: BenchmarkCategoryEvidence, b: BenchmarkCategoryEvidence) -> bool {
    &&& a.category@ == b.category@
    &&& a.document_count == b.document_count
    &&& a.page_count == b.page_count
    &&& a.failed_checks == b.failed_checks
    &&& a.quality_passed == b.quality_passed
}

/// The report's category summaries stably ordered by category.
pub fn benchmark_quality_categories(categories: &Vec<BenchmarkCategoryEvidence>) -> (r: Vec<
    BenchmarkCategoryEvidence,
>)
    ensures
        exists|order: Seq<Seq<char>>|
            is_strictly_sorted::<String>(order) && (forall|k: Seq<char>|
                #[trigger] order.contains(k) <==> evidence_category_names(categories@).contains(k))
                && r@.len() == grouped_positions(evidence_category_names(categories@), order).len() && (
            forall|m: int|
                0 <= m < r@.len() ==> is_same_category_evidence(
                    #[trigger] r@[m],
                    categories@[grouped_positions(evidence_category_names(categories@), order)[m]],
                )),
{
    let mut names: Vec<String> = Vec::new();
    let mut i: usize = 0;
    while i < categories.len()
        invariant
            i <= categories@.len(),
            names.deep_view() == evidence_category_names(categories@).take(i as int),
        decreases categories@.len() - i,
    {
        let ghost prev = names@;
        let t = copy_string(&categories[i].category);
        names.push(t);
        proof {
            crate::views::lemma_vec_dview(names);
            crate::views::lemma_dview_push(prev, t);
            assert(names.deep_view() =~= evidence_category_names(categories@).take(i + 1));
        }
        i += 1;
    }
    proof {
        assert(evidence_category_names(categories@).take(categories@.len() as int) =~= evidence_category_names(
            categories@,
        ));
    }
    let positions = stable_key_order(&names);
    let ghost order = choose|order: Seq<Seq<char>>|
        is_strictly_sorted::<String>(order) && (forall|k: Seq<char>|
            #[trigger] order.contains(k) <==> names.deep_view().contains(k)) && positions@.len()
            == grouped_positions(names.deep_view(), order).len() && (forall|m: int|
            0 <= m < positions@.len() ==> #[trigger] positions@[m] == grouped_positions(
                names.deep_view(),
                order,
            )[m]);
    let mut out: Vec<BenchmarkCategoryEvidence> = Vec::new();
    let mut j: usize = 0;
    while j < positions.len()
        invariant
            j <= positions@.len(),
            names.deep_view() == evidence_category_names(categories@),
            names@.len() == categories@.len(),
            forall|m: int| 0 <= m < positions@.len() ==> #[trigger] positions@[m] < names@.len(),
            positions@.len() == grouped_positions(names.deep_view(), order).len(),
            forall|m: int|
                0 <= m < positions@.len() ==> #[trigger] positions@[m] == grouped_positions(names.deep_view(), order)[m],
            out@.len() == j,
            forall|m: int|
                0 <= m < j ==> is_same_category_evidence(
                    #[trigger] out@[m],
                    categories@[grouped_positions(evidence_category_names(categories@), order)[m]],
                ),
        decreases positions@.len() - j,
    {
        let c = &categories[positions[j]];
        out.push(
            BenchmarkCategoryEvidence {
                category: copy_string(&c.category),
                document_count: c.document_count,
                page_count: c.page_count,
                failed_checks: c.failed_checks,
                quality_passed: c.quality_passed,
            },
        );
        j += 1;
    }
    out
}

} // verus!
