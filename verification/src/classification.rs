//! Page classification checks: the pages a flag is expected on against the
//! pages that carry it, split into true positives, false positives and false
//! negatives. Precision and recall, ratios of these counts, are left to the
//! caller.
use vstd::prelude::*;

use crate::order::{is_strictly_sorted, sorted_unique, Sortable};
use crate::quality_flags::{ActualPageQuality, PageQuality, QualityFlagClassification};

verus! {

/// The pages, in page order, whose flags hold `flag`.
pub open spec fn flagged_pages(pages: Seq<ActualPageQuality>, flag: PageQuality) -> Seq<u32>
    decreases pages.len(),
{
    if pages.len() == 0 {
        seq![]
    } else {
        let prev = flagged_pages(pages.drop_last(), flag);
        if pages.last().flags@.contains(flag) {
            prev.push(pages.last().page_index)
        } else {
            prev
        }
    }
}

/// Ascending, each page once.
pub open spec fn ascending(s: Seq<u32>) -> bool {
    forall|a: int, b: int| 0 <= a < b < s.len() ==> s[a] < s[b]
}

/// A classification of pages: the expected and the actual pages, and those
/// in both, only in the actual, and only in the expected; each list
/// ascending.
pub struct PageClassification {
    pub expected_pages: Vec<u32>,
    pub actual_pages: Vec<u32>,
    pub true_positive_pages: Vec<u32>,
    pub false_positive_pages: Vec<u32>,
    pub false_negative_pages: Vec<u32>,
}

/// What `classify_pages` gives for the expected pages and the flagged ones.
pub open spec fn is_classification(expected: Seq<u32>, actual: Seq<u32>, c: PageClassification) -> bool {
    &&& ascending(c.expected_pages@)
    &&& ascending(c.actual_pages@)
    &&& ascending(c.true_positive_pages@)
    &&& ascending(c.false_positive_pages@)
    &&& ascending(c.false_negative_pages@)
    &&& forall|x: u32| c.expected_pages@.contains(x) <==> expected.contains(x)
    &&& forall|x: u32| c.actual_pages@.contains(x) <==> actual.contains(x)
    &&& forall|x: u32| c.true_positive_pages@.contains(x) <==> (expected.contains(x) && actual.contains(x))
    &&& forall|x: u32| c.false_positive_pages@.contains(x) <==> (actual.contains(x) && !expected.contains(x))
    &&& forall|x: u32| c.false_negative_pages@.contains(x) <==> (expected.contains(x) && !actual.contains(x))
}

proof fn lemma_u32_deep_view(v: &Vec<u32>)
    ensures
        v.deep_view() == v@,
{
    assert(v.deep_view() =~= v@);
}

proof fn lemma_strictly_sorted_is_ascending(s: Seq<u32>)
    requires
        is_strictly_sorted::<u32>(s),
    ensures
        ascending(s),
{
    assert forall|a: int, b: int| 0 <= a < b < s.len() implies s[a] < s[b] by {
        let x = s[a];
        let y = s[b];
        assert(u32::le_spec(x, y));
    }
}

fn sorted_pages(v: Vec<u32>) -> (r: Vec<u32>)
    ensures
        ascending(r@),
        forall|x: u32| r@.contains(x) <==> v@.contains(x),
{
    proof {
        lemma_u32_deep_view(&v);
    }
    let ghost before = v@;
    let r = sorted_unique(v);
    proof {
        lemma_u32_deep_view(&r);
        lemma_strictly_sorted_is_ascending(r@);
    }
    r
}

fn contains_page(v: &Vec<u32>, x: u32) -> (r: bool)
    ensures
        r == v@.contains(x),
{
    let mut i: usize = 0;
    while i < v.len()
        invariant
            i <= v@.len(),
            forall|k: int| 0 <= k < i ==> v@[k] != x,
        decreases v@.len() - i,
    {
        if v[i] == x {
            assert(v@[i as int] == x);
            return true;
        }
        i += 1;
    }
    false
}

/// The pages of `src`, in order, that are in `other` (`keep_if_in`) or not.
fn pages_filtered(src: &Vec<u32>, other: &Vec<u32>, keep_if_in: bool) -> (r: Vec<u32>)
    requires
        ascending(src@),
    ensures
        ascending(r@),
        forall|x: u32| r@.contains(x) <==> (src@.contains(x) && (other@.contains(x) == keep_if_in)),
{
    let mut out: Vec<u32> = Vec::new();
    let mut i: usize = 0;
    while i < src.len()
        invariant
            i <= src@.len(),
            ascending(src@),
            ascending(out@),
            i > 0 ==> forall|a: int| 0 <= a < out@.len() ==> out@[a] <= src@[i - 1],
            i == 0 ==> out@.len() == 0,
            forall|x: u32| out@.contains(x) <==> (src@.take(i as int).contains(x) && (other@.contains(x)
                == keep_if_in)),
        decreases src@.len() - i,
    {
        let x = src[i];
        let ghost prev = out@;
        proof {
            assert(src@.take(i + 1) =~= src@.take(i as int).push(x));
            if i > 0 {
                assert(src@[i - 1] < x);
            }
        }
        let ghost ti = src@.take(i as int);
        let ghost t = src@.take(i + 1);
        proof {
            assert(t[i as int] == x);
        }
        if contains_page(other, x) == keep_if_in {
            out.push(x);
            proof {
                assert forall|y: u32| out@.contains(y) <==> (t.contains(y) && (other@.contains(y)
                    == keep_if_in)) by {
                    if out@.contains(y) {
                        if y != x {
                            let k = choose|k: int| 0 <= k < out@.len() && out@[k] == y;
                            assert(prev[k] == y);
                            assert(prev.contains(y));
                            let j = choose|j: int| 0 <= j < ti.len() && ti[j] == y;
                            assert(t[j] == y);
                        }
                    }
                    if t.contains(y) && other@.contains(y) == keep_if_in {
                        if y != x {
                            let k = choose|k: int| 0 <= k < t.len() && t[k] == y;
                            assert(ti[k] == y);
                            assert(ti.contains(y));
                            let j = choose|j: int| 0 <= j < prev.len() && prev[j] == y;
                            assert(out@[j] == y);
                        } else {
                            assert(out@[out@.len() - 1] == x);
                        }
                    }
                }
            }
        } else {
            proof {
                assert forall|y: u32| out@.contains(y) <==> (t.contains(y) && (other@.contains(y)
                    == keep_if_in)) by {
                    if out@.contains(y) {
                        let j = choose|j: int| 0 <= j < ti.len() && ti[j] == y;
                        assert(t[j] == y);
                    }
                    if t.contains(y) && other@.contains(y) == keep_if_in {
                        let k = choose|k: int| 0 <= k < t.len() && t[k] == y;
                        assert(k != i);
                        assert(ti[k] == y);
                        assert(ti.contains(y));
                    }
                }
            }
        }
        i += 1;
    }
    proof {
        assert(src@.take(src@.len() as int) =~= src@);
    }
    out
}

/// The pages, in page order, that carry a flag.
pub fn expected_pages_for_quality(pages: &Vec<ActualPageQuality>, flag: PageQuality) -> (r: Vec<u32>)
    ensures
        r@ == flagged_pages(pages@, flag),
{
    let mut out: Vec<u32> = Vec::new();
    let mut i: usize = 0;
    while i < pages.len()
        invariant
            i <= pages@.len(),
            out@ == flagged_pages(pages@.take(i as int), flag),
        decreases pages@.len() - i,
    {
        proof {
            assert(pages@.take(i + 1).drop_last() =~= pages@.take(i as int));
            assert(pages@.take(i + 1).last() == pages@[i as int]);
        }
        if crate::quality_flags::contains_flag(&pages[i].flags, flag) {
            out.push(pages[i].page_index);
        }
        i += 1;
    }
    proof {
        assert(pages@.take(pages@.len() as int) =~= pages@);
    }
    out
}

/// Classifies pages by a flag against the pages it is expected on.
pub fn classify_pages(expected_pages: &Vec<u32>, pages: &Vec<ActualPageQuality>, flag: PageQuality) -> (c: PageClassification)
    ensures
        is_classification(expected_pages@, flagged_pages(pages@, flag), c),
{
    let mut copy: Vec<u32> = Vec::new();
    let mut i: usize = 0;
    while i < expected_pages.len()
        invariant
            i <= expected_pages@.len(),
            copy@ == expected_pages@.take(i as int),
        decreases expected_pages@.len() - i,
    {
        copy.push(expected_pages[i]);
        i += 1;
        assert(copy@ =~= expected_pages@.take(i as int));
    }
    assert(expected_pages@.take(expected_pages@.len() as int) =~= expected_pages@);
    let expected = sorted_pages(copy);
    let actual = sorted_pages(expected_pages_for_quality(pages, flag));
    let tp = pages_filtered(&expected, &actual, true);
    let fp = pages_filtered(&actual, &expected, false);
    let fneg = pages_filtered(&expected, &actual, false);
    PageClassification {
        expected_pages: expected,
        actual_pages: actual,
        true_positive_pages: tp,
        false_positive_pages: fp,
        false_negative_pages: fneg,
    }
}

proof fn lemma_ascending_set_len(s: Seq<u32>)
    requires
        ascending(s),
    ensures
        s.to_set().len() == s.len(),
        s.to_set().finite(),
{
    assert(s.no_duplicates()) by {
        assert forall|i: int, j: int| 0 <= i < s.len() && 0 <= j < s.len() && i != j implies s[i] != s[j] by {
            if i < j {
                assert(s[i] < s[j]);
            } else {
                assert(s[j] < s[i]);
            }
        }
    }
    s.unique_seq_to_set();
    vstd::seq_lib::seq_to_set_is_finite(s);
}

proof fn lemma_split_count(whole: Seq<u32>, a: Seq<u32>, b: Seq<u32>)
    requires
        ascending(whole),
        ascending(a),
        ascending(b),
        forall|x: u32| whole.contains(x) <==> (a.contains(x) || b.contains(x)),
        forall|x: u32| !(a.contains(x) && b.contains(x)),
    ensures
        a.len() + b.len() == whole.len(),
{
    lemma_ascending_set_len(whole);
    lemma_ascending_set_len(a);
    lemma_ascending_set_len(b);
    assert(a.to_set() + b.to_set() =~= whole.to_set());
    assert(a.to_set().disjoint(b.to_set()));
    vstd::set_lib::lemma_set_disjoint_lens(a.to_set(), b.to_set());
}

/// Every flagged page is a true or a false positive, and every expected page
/// a true positive or a false negative, so the counts add up.
pub proof fn lemma_classification_counts(expected: Seq<u32>, actual: Seq<u32>, c: PageClassification)
    requires
        is_classification(expected, actual, c),
    ensures
        c.true_positive_pages@.len() + c.false_positive_pages@.len() == c.actual_pages@.len(),
        c.true_positive_pages@.len() + c.false_negative_pages@.len() == c.expected_pages@.len(),
{
    assert forall|x: u32| c.actual_pages@.contains(x) <==> (c.true_positive_pages@.contains(x)
        || c.false_positive_pages@.contains(x)) by {
        assert(c.actual_pages@.contains(x) == actual.contains(x));
        assert(c.expected_pages@.contains(x) == expected.contains(x));
    }
    assert forall|x: u32| c.expected_pages@.contains(x) <==> (c.true_positive_pages@.contains(x)
        || c.false_negative_pages@.contains(x)) by {
        assert(c.actual_pages@.contains(x) == actual.contains(x));
        assert(c.expected_pages@.contains(x) == expected.contains(x));
    }
    assert forall|x: u32| !(c.true_positive_pages@.contains(x) && c.false_positive_pages@.contains(x)) by {
        assert(c.true_positive_pages@.contains(x) ==> expected.contains(x));
    }
    assert forall|x: u32| !(c.true_positive_pages@.contains(x) && c.false_negative_pages@.contains(x)) by {
        assert(c.true_positive_pages@.contains(x) ==> actual.contains(x));
    }
    lemma_split_count(c.actual_pages@, c.true_positive_pages@, c.false_positive_pages@);
    lemma_split_count(c.expected_pages@, c.true_positive_pages@, c.false_negative_pages@);
}

/// The flags a generated manifest classifies pages by, besides the need
/// for OCR, in order.
pub open spec fn generated_flags() -> Seq<PageQuality> {
    seq![
        PageQuality::LowConfidenceText,
        PageQuality::BrokenEncoding,
        PageQuality::LayoutUncertain,
        PageQuality::TableUncertain,
        PageQuality::UnsupportedFeature,
    ]
}

/// For each flag, in order, the pages carrying it, when some do.
pub open spec fn classifications(flags: Seq<PageQuality>, pages: Seq<ActualPageQuality>) -> Seq<(PageQuality, Seq<u32>)>
    decreases flags.len(),
{
    if flags.len() == 0 {
        seq![]
    } else {
        let prev = classifications(flags.drop_last(), pages);
        let found = flagged_pages(pages, flags.last());
        if found.len() > 0 {
            prev.push((flags.last(), found))
        } else {
            prev
        }
    }
}

pub open spec fn classification_view(c: QualityFlagClassification) -> (PageQuality, Seq<u32>) {
    (c.flag, c.expected_pages@)
}

/// The flag classifications a generated manifest expects of a document:
/// for each of `generated_flags`, the pages that carry it, when some do.
pub fn generated_quality_flag_classification(pages: &Vec<ActualPageQuality>) -> (r: Vec<QualityFlagClassification>)
    ensures
        r@.map_values(|c: QualityFlagClassification| classification_view(c)) == classifications(
            generated_flags(),
            pages@,
        ),
{
    let flags: Vec<PageQuality> = vec![
        PageQuality::LowConfidenceText,
        PageQuality::BrokenEncoding,
        PageQuality::LayoutUncertain,
        PageQuality::TableUncertain,
        PageQuality::UnsupportedFeature,
    ];
    assert(flags@ =~= generated_flags());
    let mut out: Vec<QualityFlagClassification> = Vec::new();
    let mut i: usize = 0;
    while i < flags.len()
        invariant
            i <= flags@.len(),
            flags@ == generated_flags(),
            out@.map_values(|c: QualityFlagClassification| classification_view(c)) == classifications(
                flags@.take(i as int),
                pages@,
            ),
        decreases flags@.len() - i,
    {
        proof {
            assert(flags@.take(i + 1).drop_last() =~= flags@.take(i as int));
            assert(flags@.take(i + 1).last() == flags@[i as int]);
        }
        let found = expected_pages_for_quality(pages, flags[i]);
        if found.len() > 0 {
            let c = QualityFlagClassification { flag: flags[i], expected_pages: found };
            let ghost prev = out@;
            out.push(c);
            proof {
                assert(out@.map_values(|c: QualityFlagClassification| classification_view(c))
                    =~= prev.map_values(|c: QualityFlagClassification| classification_view(c)).push(
                    classification_view(c),
                ));
            }
        }
        i += 1;
    }
    proof {
        assert(flags@.take(flags@.len() as int) =~= flags@);
    }
    out
}

/// Pages classified against the very pages that carry the flag (as a
/// bootstrapped manifest expects them) have no false positive or negative,
/// and every flagged page is a true positive.
pub proof fn lemma_self_classification_exact(pages: Seq<u32>, c: PageClassification)
    requires
        is_classification(pages, pages, c),
    ensures
        c.false_positive_pages@.len() == 0,
        c.false_negative_pages@.len() == 0,
        c.true_positive_pages@ == c.actual_pages@,
{
    if c.false_positive_pages@.len() > 0 {
        assert(c.false_positive_pages@.contains(c.false_positive_pages@[0]));
    }
    lemma_classification_counts(pages, pages, c);
    assert forall|x: u32| c.expected_pages@.contains(x) <==> c.actual_pages@.contains(x) by {
        assert(c.actual_pages@.contains(x) == pages.contains(x));
        assert(c.expected_pages@.contains(x) == pages.contains(x));
    }
    lemma_ascending_same_elements(c.expected_pages@, c.actual_pages@);
    assert forall|x: u32| c.true_positive_pages@.contains(x) <==> c.actual_pages@.contains(x) by {
        assert(c.actual_pages@.contains(x) == pages.contains(x));
    }
    lemma_ascending_same_elements(c.true_positive_pages@, c.actual_pages@);
}

proof fn lemma_ascending_same_elements(a: Seq<u32>, b: Seq<u32>)
    requires
        ascending(a),
        ascending(b),
        forall|x: u32| a.contains(x) <==> b.contains(x),
    ensures
        a == b,
{
    lemma_ascending_is_strictly_sorted(a);
    lemma_ascending_is_strictly_sorted(b);
    crate::order::lemma_strictly_sorted_unique::<u32>(a, b);
}

proof fn lemma_ascending_is_strictly_sorted(s: Seq<u32>)
    requires
        ascending(s),
    ensures
        is_strictly_sorted::<u32>(s),
{
    assert forall|i: int, j: int| 0 <= i < j < s.len() implies u32::le_spec(s[i], s[j]) && s[i] != s[j] by {
        assert(s[i] < s[j]);
    }
}

} // verus!
