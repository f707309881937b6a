use glyphrush::quality_flags::{
    benchmark_silent_failure_summary, generated_page_quality_expectations, DocumentSilentFailures,
    expected_quality_flags_by_page, page_quality_name, quality_flag_insertions_of,
    silent_failures_check, ActualPageQuality, PageQuality, PageQualityExpectation,
    QualityFlagClassification, QualityFlagExpectations,
};

fn expectations() -> QualityFlagExpectations {
    QualityFlagExpectations {
        pages: vec![
            PageQualityExpectation {
                index: 0,
                required_flags: vec![PageQuality::LowConfidenceText],
                empty_text_output: None,
            },
            PageQualityExpectation { index: 2, required_flags: vec![], empty_text_output: Some(true) },
        ],
        ocr_required_pages: Some(vec![1, 0]),
        quality_flag_classification: vec![
            QualityFlagClassification { flag: PageQuality::LayoutUncertain, expected_pages: vec![1] },
            QualityFlagClassification { flag: PageQuality::LowConfidenceText, expected_pages: vec![0] },
        ],
        table_structure_pages: vec![3],
    }
}

#[test]
fn flag_names_match_the_report_vocabulary() {
    assert_eq!(page_quality_name(PageQuality::RequiresOcr), "requires_ocr");
    assert_eq!(page_quality_name(PageQuality::LowConfidenceText), "low_confidence_text");
    assert_eq!(page_quality_name(PageQuality::BrokenEncoding), "broken_encoding");
    assert_eq!(page_quality_name(PageQuality::LayoutUncertain), "layout_uncertain");
    assert_eq!(page_quality_name(PageQuality::TableUncertain), "table_uncertain");
    assert_eq!(page_quality_name(PageQuality::UnsupportedFeature), "unsupported_feature");
}

#[test]
fn announcements_come_in_expectation_order() {
    let ins = quality_flag_insertions_of(&expectations());
    assert_eq!(
        ins,
        vec![
            (0, PageQuality::LowConfidenceText),
            (1, PageQuality::RequiresOcr),
            (0, PageQuality::RequiresOcr),
            (1, PageQuality::LayoutUncertain),
            (0, PageQuality::LowConfidenceText),
            (3, PageQuality::TableUncertain),
        ]
    );
}

#[test]
fn flags_are_grouped_by_ascending_page_without_repeats() {
    let by_page = expected_quality_flags_by_page(&expectations());
    let pages: Vec<u32> = by_page.iter().map(|p| p.page).collect();
    assert_eq!(pages, vec![0, 1, 3]);
    assert_eq!(by_page[0].flags, vec![PageQuality::LowConfidenceText, PageQuality::RequiresOcr]);
    assert_eq!(by_page[1].flags, vec![PageQuality::RequiresOcr, PageQuality::LayoutUncertain]);
    assert_eq!(by_page[2].flags, vec![PageQuality::TableUncertain]);
}

#[test]
fn no_expectations_announce_nothing() {
    let empty = QualityFlagExpectations {
        pages: vec![],
        ocr_required_pages: None,
        quality_flag_classification: vec![],
        table_structure_pages: vec![],
    };
    assert!(expected_quality_flags_by_page(&empty).is_empty());
}

fn actual_pages() -> Vec<ActualPageQuality> {
    vec![
        ActualPageQuality {
            page_index: 0,
            flags: vec![PageQuality::LowConfidenceText, PageQuality::BrokenEncoding],
            text_empty: true,
        },
        ActualPageQuality { page_index: 1, flags: vec![PageQuality::RequiresOcr], text_empty: true },
        ActualPageQuality { page_index: 2, flags: vec![], text_empty: true },
        ActualPageQuality { page_index: 4, flags: vec![PageQuality::TableUncertain], text_empty: true },
        ActualPageQuality { page_index: 5, flags: vec![], text_empty: false },
    ]
}

#[test]
fn unannounced_flags_and_missing_text_fail_silently() {
    let check = silent_failures_check(&expectations(), &actual_pages(), None);
    assert_eq!(check.count, 2);
    assert_eq!(check.max_count, 0);
    assert!(!check.passed);
    assert_eq!(check.pages[0].page, 0);
    assert_eq!(check.pages[0].flags, vec![PageQuality::BrokenEncoding]);
    assert_eq!(check.pages[0].empty_text_output, None);
    assert_eq!(check.pages[1].page, 4);
    assert_eq!(check.pages[1].flags, vec![PageQuality::TableUncertain]);
    assert_eq!(check.pages[1].empty_text_output, Some(true));
}

#[test]
fn silent_failures_within_the_allowance_pass() {
    let check = silent_failures_check(&expectations(), &actual_pages(), Some(2));
    assert_eq!(check.count, 2);
    assert!(check.passed);
    let clean = silent_failures_check(&expectations(), &vec![], None);
    assert_eq!(clean.count, 0);
    assert!(clean.passed);
}

#[test]
fn silent_failures_are_summed_over_documents() {
    let failing = silent_failures_check(&expectations(), &actual_pages(), None);
    let docs = vec![
        DocumentSilentFailures { path: String::from("a.pdf"), check: Some(failing) },
        DocumentSilentFailures { path: String::from("b.pdf"), check: None },
        DocumentSilentFailures {
            path: String::from("c.pdf"),
            check: Some(silent_failures_check(&expectations(), &vec![], None)),
        },
    ];
    let summary = benchmark_silent_failure_summary(&docs).expect("two documents were checked");
    assert_eq!(summary.count, 2);
    assert_eq!(summary.pages.len(), 2);
    assert_eq!(summary.pages[0].path, "a.pdf");
    assert_eq!(summary.pages[0].page, 0);
    assert_eq!(summary.pages[1].page, 4);
    assert_eq!(summary.pages[1].empty_text_output, Some(true));
    let unchecked = vec![DocumentSilentFailures { path: String::from("b.pdf"), check: None }];
    assert!(benchmark_silent_failure_summary(&unchecked).is_none());
    assert!(benchmark_silent_failure_summary(&vec![]).is_none());
}

#[test]
fn expectations_bootstrapped_from_pages_report_no_silent_failure() {
    let pages = actual_pages();
    let e = QualityFlagExpectations {
        pages: generated_page_quality_expectations(&pages),
        ocr_required_pages: None,
        quality_flag_classification: vec![],
        table_structure_pages: vec![9],
    };
    assert_eq!(e.pages.len(), pages.len());
    assert_eq!(e.pages[3].index, 4);
    assert_eq!(e.pages[3].empty_text_output, Some(true));
    let check = silent_failures_check(&e, &pages, None);
    assert_eq!(check.count, 0);
    assert!(check.passed);
}
