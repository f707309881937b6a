use glyphrush::markdown::{markdown_blocks, markdown_text, LayoutBlockKind, LayoutBlockText, PageText};

fn s(v: &[&str]) -> Vec<String> {
    v.iter().map(|x| x.to_string()).collect()
}

fn block(kind: LayoutBlockKind, text: &str) -> LayoutBlockText {
    LayoutBlockText { kind, text: text.to_string(), grid: None, grid_cells_with_bbox: 0 }
}

#[test]
fn blocks_render_by_kind_and_empty_ones_are_dropped() {
    let page = PageText {
        layout_blocks: vec![
            block(LayoutBlockKind::Heading, "  Results  "),
            block(LayoutBlockKind::Paragraph, "  Revenue grew.\n"),
            block(LayoutBlockKind::Footer, "   "),
            block(LayoutBlockKind::Table, "a | b\nc | d"),
            block(LayoutBlockKind::Table, "just text"),
            LayoutBlockText {
                kind: LayoutBlockKind::Table,
                text: String::from("ignored"),
                grid: Some(vec![s(&[" x ", "y"]), s(&["1", "2 "])]),
                grid_cells_with_bbox: 0,
            },
        ],
        native_span_texts: s(&["never used"]),
        ocr_span_texts: vec![],
    };
    let blocks = markdown_blocks(&page);
    assert_eq!(
        blocks,
        s(&[
            "# Results",
            "Revenue grew.",
            "| a | b |\n| --- | --- |\n| c | d |",
            "just text",
            "| x | y |\n| --- | --- |\n| 1 | 2 |",
        ])
    );
}

#[test]
fn pages_without_layout_use_their_trimmed_spans() {
    let page = PageText {
        layout_blocks: vec![],
        native_span_texts: s(&[" one ", "", "  "]),
        ocr_span_texts: s(&["two"]),
    };
    assert_eq!(markdown_blocks(&page), s(&["one", "two"]));
}

#[test]
fn pages_are_separated_by_a_rule_and_blocks_by_blank_lines() {
    let pages = vec![s(&["# A", "text"]), s(&[]), s(&["b"])];
    assert_eq!(markdown_text(&pages), "# A\n\ntext\n\n---\n\n\n---\n\nb\n");
    assert_eq!(markdown_text(&vec![]), "");
}
