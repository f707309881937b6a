use glyphrush::markdown::{LayoutBlockKind, LayoutBlockText, PageText};
use glyphrush::page_text::{
    document_text, empty_text_output_page_count, layout_summary_from_page, plain_text_from_artifact, plain_text_from_page,
    quality_text_from_page,
};

fn s(v: &[&str]) -> Vec<String> {
    v.iter().map(|x| x.to_string()).collect()
}

fn pages() -> Vec<PageText> {
    vec![
        PageText {
            layout_blocks: vec![
                LayoutBlockText { kind: LayoutBlockKind::Heading, text: String::from("  Title "), grid: None, grid_cells_with_bbox: 0 },
                LayoutBlockText {
                    kind: LayoutBlockKind::Table,
                    text: String::from("x"),
                    grid: Some(vec![s(&["a", "b"]), s(&["c", "d"])]),
                    grid_cells_with_bbox: 0,
                },
                LayoutBlockText { kind: LayoutBlockKind::Paragraph, text: String::from("   "), grid: None, grid_cells_with_bbox: 0 },
            ],
            native_span_texts: s(&["ignored with layout"]),
            ocr_span_texts: s(&[" Title ", "extra words", ""]),
        },
        PageText {
            layout_blocks: vec![],
            native_span_texts: s(&[" n1 "]),
            ocr_span_texts: s(&["n1", "o2"]),
        },
        PageText { layout_blocks: vec![], native_span_texts: vec![], ocr_span_texts: vec![] },
    ]
}

#[test]
fn quality_text_adds_ocr_spans_not_already_present() {
    let p = pages();
    assert_eq!(quality_text_from_page(&p[0]), "Title\n| a | b |\n| c | d |\nextra words");
    assert_eq!(quality_text_from_page(&p[1]), "n1\nn1\no2");
    assert_eq!(quality_text_from_page(&p[2]), "");
}

#[test]
fn a_table_block_without_a_usable_grid_keeps_its_text() {
    let p = PageText {
        layout_blocks: vec![LayoutBlockText {
            kind: LayoutBlockKind::Table,
            text: String::from(" raw table "),
            grid: Some(vec![s(&["only one row", "x"])]),
            grid_cells_with_bbox: 0,
        }],
        native_span_texts: vec![],
        ocr_span_texts: vec![],
    };
    assert_eq!(quality_text_from_page(&p), "raw table");
}

#[test]
fn plain_text_ends_each_non_empty_page_with_a_line_break() {
    let p = pages();
    assert_eq!(plain_text_from_page(&p[1]), "n1\nn1\no2\n");
    assert_eq!(plain_text_from_page(&p[2]), "");
    assert_eq!(
        plain_text_from_artifact(&p),
        "Title\n| a | b |\n| c | d |\nextra words\nn1\nn1\no2\n"
    );
    assert_eq!(empty_text_output_page_count(&p), 1);
}

#[test]
fn document_text_puts_each_page_on_its_own_lines() {
    assert_eq!(
        document_text(&pages()),
        "Title\n| a | b |\n| c | d |\nextra words\nn1\nn1\no2\n"
    );
    assert_eq!(document_text(&vec![]), "");
}

#[test]
fn layout_summary_counts_blocks_and_table_rows() {
    let p = pages();
    let r = layout_summary_from_page(&p[0]);
    assert_eq!(r.block_count, 3);
    assert_eq!(r.heading_blocks, 1);
    assert_eq!(r.paragraph_blocks, 1);
    assert_eq!(r.table_blocks, 1);
    assert_eq!(r.table_rows, Some(2));
    assert_eq!(r.table_cells, Some(4));
    assert_eq!(r.table_cells_with_bbox, Some(0));
    let none = layout_summary_from_page(&p[1]);
    assert_eq!(none.block_count, 0);
    assert_eq!(none.table_rows, None);
}
