use glyphrush::classification::{
    classify_pages, expected_pages_for_quality, generated_quality_flag_classification,
};
use glyphrush::quality_flags::{ActualPageQuality, PageQuality};

fn page(index: u32, flags: Vec<PageQuality>) -> ActualPageQuality {
    ActualPageQuality { page_index: index, flags, text_empty: false }
}

#[test]
fn pages_split_into_true_and_false_positives_and_negatives() {
    let pages = vec![
        page(4, vec![PageQuality::RequiresOcr]),
        page(0, vec![PageQuality::RequiresOcr, PageQuality::TableUncertain]),
        page(1, vec![]),
        page(2, vec![PageQuality::RequiresOcr]),
    ];
    let c = classify_pages(&vec![2, 1, 2, 7], &pages, PageQuality::RequiresOcr);
    assert_eq!(c.expected_pages, vec![1, 2, 7]);
    assert_eq!(c.actual_pages, vec![0, 2, 4]);
    assert_eq!(c.true_positive_pages, vec![2]);
    assert_eq!(c.false_positive_pages, vec![0, 4]);
    assert_eq!(c.false_negative_pages, vec![1, 7]);
    assert_eq!(c.true_positive_pages.len() + c.false_positive_pages.len(), c.actual_pages.len());
    assert_eq!(c.true_positive_pages.len() + c.false_negative_pages.len(), c.expected_pages.len());
}

#[test]
fn a_flag_nobody_carries_gives_only_false_negatives() {
    let pages = vec![page(0, vec![PageQuality::RequiresOcr])];
    let c = classify_pages(&vec![0], &pages, PageQuality::BrokenEncoding);
    assert!(c.actual_pages.is_empty());
    assert!(c.true_positive_pages.is_empty());
    assert_eq!(c.false_negative_pages, vec![0]);
    let none = classify_pages(&vec![], &vec![], PageQuality::BrokenEncoding);
    assert!(none.expected_pages.is_empty() && none.false_positive_pages.is_empty());
}

#[test]
fn generated_classifications_cover_the_flags_that_occur() {
    let pages = vec![
        page(0, vec![PageQuality::RequiresOcr, PageQuality::TableUncertain]),
        page(1, vec![PageQuality::LowConfidenceText]),
        page(2, vec![PageQuality::TableUncertain]),
    ];
    let generated = generated_quality_flag_classification(&pages);
    assert_eq!(generated.len(), 2);
    assert_eq!(generated[0].flag, PageQuality::LowConfidenceText);
    assert_eq!(generated[0].expected_pages, vec![1]);
    assert_eq!(generated[1].flag, PageQuality::TableUncertain);
    assert_eq!(generated[1].expected_pages, vec![0, 2]);
    assert_eq!(expected_pages_for_quality(&pages, PageQuality::RequiresOcr), vec![0]);
}

#[test]
fn classifying_against_the_flagged_pages_is_exact() {
    let pages = vec![
        page(3, vec![PageQuality::BrokenEncoding]),
        page(1, vec![PageQuality::BrokenEncoding]),
        page(2, vec![]),
    ];
    let expected = expected_pages_for_quality(&pages, PageQuality::BrokenEncoding);
    let c = classify_pages(&expected, &pages, PageQuality::BrokenEncoding);
    assert!(c.false_positive_pages.is_empty());
    assert!(c.false_negative_pages.is_empty());
    assert_eq!(c.true_positive_pages, c.actual_pages);
    assert_eq!(c.actual_pages, vec![1, 3]);
}
