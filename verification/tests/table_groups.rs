use glyphrush::tables::{
    generated_table_structure_expectations, structured_table_text, table_row_candidates, table_row_groups,
    table_rows_for_page, table_rows_from_grid, PageTableBlocks, TableBlock,
};

fn s(v: &[&str]) -> Vec<String> {
    v.iter().map(|x| x.to_string()).collect()
}

fn blocks() -> Vec<TableBlock> {
    vec![
        TableBlock {
            grid: Some(vec![s(&["  a ", "b"]), s(&["solo"]), s(&[" c", "d "])]),
            text: String::from("ignored when a grid is present"),
        },
        TableBlock { grid: Some(vec![s(&["x"])]), text: String::from("p | q") },
        TableBlock { grid: None, text: String::from("p | q\nr | s") },
    ]
}

#[test]
fn grid_cells_are_trimmed_and_narrow_rows_dropped() {
    let rows = table_rows_from_grid(&vec![s(&["  a ", "b"]), s(&["solo"]), s(&[" c", "d ", ""])]);
    assert_eq!(rows, vec![s(&["a", "b"]), s(&["c", "d", ""])]);
}

#[test]
fn blocks_give_grid_rows_or_text_rows_and_empty_groups_are_skipped() {
    let groups = table_row_groups(&blocks());
    assert_eq!(
        groups,
        vec![vec![s(&["a", "b"]), s(&["c", "d"])], vec![s(&["p", "q"]), s(&["r", "s"])]]
    );
}

#[test]
fn candidates_cover_each_group_then_all_rows_together() {
    let groups = table_row_groups(&blocks());
    let candidates = table_row_candidates(&groups, 3);
    // Each group is shorter than three rows: itself only; then all four rows
    // and each window of three.
    assert_eq!(candidates.len(), 2 + 1 + 2);
    assert_eq!(candidates[0], groups[0]);
    assert_eq!(candidates[1], groups[1]);
    assert_eq!(candidates[2].len(), 4);
    assert_eq!(candidates[3], vec![s(&["a", "b"]), s(&["c", "d"]), s(&["p", "q"])]);
    assert_eq!(candidates[4], vec![s(&["c", "d"]), s(&["p", "q"]), s(&["r", "s"])]);
}

#[test]
fn a_single_group_is_not_repeated_as_a_whole() {
    let groups = vec![vec![s(&["a", "b"]), s(&["c", "d"])]];
    let candidates = table_row_candidates(&groups, 1);
    assert_eq!(candidates.len(), 1 + 2);
    assert_eq!(candidates[1], vec![s(&["a", "b"])]);
    assert!(table_row_candidates(&vec![], 2).is_empty());
}

#[test]
fn page_rows_flatten_the_groups() {
    let rows = table_rows_for_page(&blocks());
    assert_eq!(rows, vec![s(&["a", "b"]), s(&["c", "d"]), s(&["p", "q"]), s(&["r", "s"])]);
}

#[test]
fn generated_table_expectations_need_two_rows() {
    let pages = vec![
        PageTableBlocks { page_index: 0, blocks: blocks() },
        PageTableBlocks {
            page_index: 1,
            blocks: vec![TableBlock { grid: None, text: String::from("a | b") }],
        },
        PageTableBlocks { page_index: 2, blocks: vec![] },
    ];
    let generated = generated_table_structure_expectations(&pages);
    assert_eq!(generated.len(), 1);
    assert_eq!(generated[0].page, 0);
    assert_eq!(generated[0].expected_rows.len(), 4);
}

#[test]
fn structured_text_pads_rows_to_the_widest() {
    let grid = vec![s(&["a", "b"]), s(&["c"]), s(&["d", "e", "f"])];
    assert_eq!(structured_table_text(&grid), Some("| a | b |  |\n| d | e | f |".to_string()));
    assert_eq!(structured_table_text(&vec![s(&["a", "b"])]), None);
    assert_eq!(structured_table_text(&vec![]), None);
}
