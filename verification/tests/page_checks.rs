use glyphrush::page_checks::{generated_page_expectation, table_expectation_indices};
use glyphrush::metrics::DebugLayoutSummary;
use glyphrush::page_checks::{
    page_check, page_check_name_exec, page_expectation_checks, ObservedPage, PageCheckKind,
    PageExpectation, PageRoute,
};
use glyphrush::quality_flags::PageQuality;

fn s(v: &[&str]) -> Vec<String> {
    v.iter().map(|x| x.to_string()).collect()
}

fn layout(blocks: usize) -> DebugLayoutSummary {
    DebugLayoutSummary {
        block_count: blocks,
        paragraph_blocks: blocks,
        heading_blocks: 0,
        list_blocks: 0,
        table_blocks: 0,
        table_rows: None,
        table_cells: None,
        table_cells_with_bbox: None,
        figure_blocks: 0,
        header_blocks: 0,
        footer_blocks: 0,
    }
}

fn expectation() -> PageExpectation {
    PageExpectation {
        index: 7,
        artifact_id: Some(String::from("doc#p7")),
        page_fingerprint: None,
        route: Some(PageRoute::NativeFastPath),
        empty_text_output: Some(false),
        image_artifact_count: Some(2),
        layout_block_counts: Some(layout(3)),
        required_text: s(&["Quarterly revenue grew"]),
        required_flags: vec![PageQuality::TableUncertain, PageQuality::LayoutUncertain],
        required_reasons: s(&["has_text_layer", "fonts_embedded"]),
    }
}

fn observed() -> ObservedPage {
    ObservedPage {
        artifact_id: String::from("doc#p7"),
        fingerprint: String::from("abc"),
        route: PageRoute::NativeFastPath,
        reasons: s(&["has_text_layer"]),
        text_empty: false,
        image_artifact_count: 1,
        layout: layout(3),
        quality_text: String::from("In Q3, Quarterly  revenue grew by 12%."),
        flags: vec![PageQuality::LayoutUncertain],
    }
}

#[test]
fn check_names_pad_the_page_index() {
    assert_eq!(page_check_name_exec(7, PageCheckKind::Route), "page_000007.route");
    assert_eq!(
        page_check_name_exec(1_234_567, PageCheckKind::RequiredText),
        "page_1234567.required_text"
    );
}

#[test]
fn only_the_given_expectations_are_checked_in_order() {
    let checks = page_expectation_checks(&expectation(), Some(&observed()));
    let kinds: Vec<PageCheckKind> = checks.iter().map(|c| c.kind).collect();
    assert_eq!(
        kinds,
        vec![
            PageCheckKind::ArtifactId,
            PageCheckKind::Route,
            PageCheckKind::EmptyTextOutput,
            PageCheckKind::ImageArtifactCount,
            PageCheckKind::LayoutBlockCounts,
            PageCheckKind::RequiredText,
            PageCheckKind::RequiredFlags,
            PageCheckKind::RequiredReasons,
        ]
    );
    let passed: Vec<bool> = checks.iter().map(|c| c.passed).collect();
    assert_eq!(passed, vec![true, true, true, false, true, true, false, false]);
    assert_eq!(checks[6].missing_flags, vec![PageQuality::TableUncertain]);
    assert_eq!(checks[7].missing_reasons, s(&["fonts_embedded"]));
    assert!(checks[5].missing_text.is_empty());
    assert_eq!(checks[0].name, "page_000007.artifact_id");
}

#[test]
fn a_missing_page_fails_every_check_and_misses_everything() {
    let checks = page_expectation_checks(&expectation(), None);
    assert!(checks.iter().all(|c| !c.passed));
    assert_eq!(checks[5].missing_text, s(&["Quarterly revenue grew"]));
    assert_eq!(
        checks[6].missing_flags,
        vec![PageQuality::TableUncertain, PageQuality::LayoutUncertain]
    );
    assert_eq!(checks[7].missing_reasons, s(&["has_text_layer", "fonts_embedded"]));
}

#[test]
fn a_wrong_fingerprint_or_layout_fails() {
    let mut e = expectation();
    e.page_fingerprint = Some(String::from("abd"));
    e.layout_block_counts = Some(layout(4));
    let page = Some(observed());
    assert!(!page_check(&e, page.as_ref(), PageCheckKind::PageFingerprint).passed);
    assert!(!page_check(&e, page.as_ref(), PageCheckKind::LayoutBlockCounts).passed);
    e.page_fingerprint = Some(String::from("abc"));
    assert!(page_check(&e, page.as_ref(), PageCheckKind::PageFingerprint).passed);
}

#[test]
fn an_empty_expectation_asks_for_nothing() {
    let e = PageExpectation {
        index: 0,
        artifact_id: None,
        page_fingerprint: None,
        route: None,
        empty_text_output: None,
        image_artifact_count: None,
        layout_block_counts: None,
        required_text: vec![],
        required_flags: vec![],
        required_reasons: vec![],
    };
    assert!(page_expectation_checks(&e, None).is_empty());
}

#[test]
fn table_expectations_are_numbered_only_on_shared_pages() {
    assert_eq!(
        table_expectation_indices(&vec![3, 1, 3, 3, 2]),
        vec![Some(0), None, Some(1), Some(2), None]
    );
    assert!(table_expectation_indices(&vec![]).is_empty());
}

#[test]
fn a_bootstrapped_expectation_passes_against_its_page() {
    let page = observed();
    let e = generated_page_expectation(7, &page, &vec![true]);
    assert_eq!(e.index, 7);
    assert_eq!(e.artifact_id.as_deref(), Some("doc#p7"));
    assert_eq!(e.required_text, s(&["In Q3, Quarterly  revenue grew by 12%."]));
    let checks = page_expectation_checks(&e, Some(&observed()));
    assert_eq!(checks.len(), 9);
    assert!(checks.iter().all(|c| c.passed));
}
