use glyphrush::tables::{
    format_markdown_table_row, format_structured_table_text_row, is_markdown_table_separator_cell,
    is_markdown_table_separator_row, markdown_table_block, markdown_table_rows,
    normalize_table_rows, parse_markdown_table_row, parse_pipe_table_row, parse_table_rows,
    parse_whitespace_table_row, push_table_row_candidates, split_delimited_table_cells,
    best_table_candidate, table_cells, table_structure_candidate_rank, table_structure_diff,
    TableCandidateRank,
};

fn s(v: &[&str]) -> Vec<String> {
    v.iter().map(|x| x.to_string()).collect()
}

#[test]
fn delimited_cells_drop_outer_delimiters_and_trim() {
    assert_eq!(split_delimited_table_cells("| a | b |", '|'), s(&["a", "b"]));
    assert_eq!(split_delimited_table_cells("  x\t y \t", '\t'), s(&["x", "y"]));
    assert_eq!(split_delimited_table_cells("a||b", '|'), s(&["a", "", "b"]));
}

#[test]
fn separator_cells_and_rows() {
    assert!(is_markdown_table_separator_cell("---"));
    assert!(is_markdown_table_separator_cell(" :---: "));
    assert!(!is_markdown_table_separator_cell("--"));
    assert!(!is_markdown_table_separator_cell("-x-"));
    assert!(is_markdown_table_separator_row(&s(&["---", ":---"])));
    assert!(!is_markdown_table_separator_row(&s(&["---"])));
    assert!(!is_markdown_table_separator_row(&s(&["---", "a"])));
}

#[test]
fn table_rows_from_text_skip_separators_and_short_lines() {
    let text = "| Name | Qty |\n| --- | --- |\nWidget  4\nsingle\nA\tB";
    assert_eq!(
        parse_table_rows(text),
        vec![s(&["Name", "Qty"]), s(&["Widget", "4"]), s(&["A", "B"])]
    );
}

#[test]
fn normalized_rows_are_trimmed_and_at_least_two_wide() {
    let rows = vec![s(&[" a ", "b "]), s(&["lonely"])];
    assert_eq!(normalize_table_rows(&rows), vec![s(&["a", "b"])]);
}

#[test]
fn cells_are_numbered_by_row_and_column() {
    let cells = table_cells(&[s(&["a", "b"]), s(&["c"])]);
    let flat: Vec<(usize, usize, String)> =
        cells.into_iter().map(|c| (c.row, c.column, c.text)).collect();
    assert_eq!(
        flat,
        vec![(0, 0, "a".to_string()), (0, 1, "b".to_string()), (1, 0, "c".to_string())]
    );
}

#[test]
fn markdown_rows_render_with_pipes() {
    assert_eq!(format_markdown_table_row(&s(&["a", "b"])), "| a | b |");
    assert_eq!(format_markdown_table_row(&s(&[])), "|  |");
    assert_eq!(format_structured_table_text_row(&s(&["a"]), 3), "| a |  |  |");
    assert_eq!(format_structured_table_text_row(&s(&["a", "b", "c"]), 2), "| a | b |");
}

#[test]
fn markdown_tables_need_two_rows_of_equal_width() {
    let rows = vec![s(&["h1", "h2"]), s(&["a", "b"])];
    assert_eq!(
        markdown_table_rows(&rows),
        Some("| h1 | h2 |\n| --- | --- |\n| a | b |".to_string())
    );
    assert_eq!(markdown_table_rows(&[s(&["h1", "h2"])]), None);
    assert_eq!(markdown_table_rows(&[s(&["h1", "h2"]), s(&["a"])]), None);
    assert_eq!(markdown_table_rows(&[s(&["h"]), s(&["a"])]), None);
    assert_eq!(markdown_table_rows(&[]), None);
}

#[test]
fn pipe_and_whitespace_rows_parse() {
    assert_eq!(parse_pipe_table_row("  | a |  | c |"), Some(s(&["a", "", "c"])));
    assert_eq!(parse_pipe_table_row("| |"), None);
    assert_eq!(parse_pipe_table_row("no bars"), None);
    assert_eq!(parse_whitespace_table_row("x  y z"), Some(s(&["x", "y", "z"])));
    assert_eq!(parse_whitespace_table_row("x"), None);
    assert_eq!(parse_markdown_table_row("a b"), Some(s(&["a", "b"])));
    assert_eq!(parse_markdown_table_row("|x|y|"), Some(s(&["x", "y"])));
}

#[test]
fn rendered_row_parses_back_to_its_cells() {
    let cells = s(&["Name", "", "Total 4"]);
    let line = format_markdown_table_row(&cells);
    assert_eq!(parse_pipe_table_row(&line), Some(cells));
}

#[test]
fn markdown_block_rebuilds_a_table() {
    assert_eq!(
        markdown_table_block("a b\nc d"),
        Some("| a | b |\n| --- | --- |\n| c | d |".to_string())
    );
    assert_eq!(markdown_table_block("a b\nsingle"), None);
}

#[test]
fn row_candidates_are_the_rows_then_each_window() {
    let rows = vec![s(&["1", "a"]), s(&["2", "b"]), s(&["3", "c"])];
    let mut candidates: Vec<Vec<Vec<String>>> = Vec::new();
    push_table_row_candidates(&mut candidates, &rows, 2);
    assert_eq!(
        candidates,
        vec![
            rows.clone(),
            vec![rows[0].clone(), rows[1].clone()],
            vec![rows[1].clone(), rows[2].clone()],
        ]
    );
    let mut none: Vec<Vec<Vec<String>>> = Vec::new();
    push_table_row_candidates(&mut none, &rows, 0);
    assert_eq!(none, vec![rows.clone()]);
    let mut short: Vec<Vec<Vec<String>>> = Vec::new();
    push_table_row_candidates(&mut short, &rows, 4);
    assert_eq!(short, vec![rows]);
}

#[test]
fn structure_diff_counts_missing_and_extra_rows_and_cells() {
    let expected = vec![s(&["a", "b"]), s(&["c", "d"])];
    let actual = vec![s(&["a", "b"]), s(&["c", "x"]), s(&["e", "f"])];
    let d = table_structure_diff(&expected, &actual);
    assert_eq!(d.missing_rows, vec![s(&["c", "d"])]);
    assert_eq!(d.extra_rows, vec![s(&["c", "x"]), s(&["e", "f"])]);
    assert_eq!(d.matched_rows, 1);
    let missing: Vec<(usize, usize, String)> =
        d.missing_cells.into_iter().map(|c| (c.row, c.column, c.text)).collect();
    assert_eq!(missing, vec![(1, 1, "d".to_string())]);
    assert_eq!(d.extra_cells.len(), 3);
    assert_eq!(d.matched_cells, 3);
    let same = table_structure_diff(&expected, &expected);
    assert!(same.missing_rows.is_empty() && same.extra_rows.is_empty());
    assert_eq!(same.matched_cells, 4);
}

fn rank(cells: usize, cell_f1: usize, rows: usize) -> TableCandidateRank {
    TableCandidateRank {
        matched_cells: cells,
        cell_f1_scaled: cell_f1,
        matched_rows: rows,
        row_f1_scaled: 0,
        fewer_extra_cells: 0,
        fewer_rows: 0,
    }
}

#[test]
fn candidates_rank_by_matches_then_scores() {
    let expected = vec![s(&["a", "b"]), s(&["c", "d"])];
    let actual = vec![s(&["a", "b"]), s(&["c", "x"]), s(&["e", "f"])];
    let d = table_structure_diff(&expected, &actual);
    let r = table_structure_candidate_rank(&d, actual.len(), 500_000, 400_000);
    assert_eq!(
        r,
        TableCandidateRank {
            matched_cells: 3,
            cell_f1_scaled: 500_000,
            matched_rows: 1,
            row_f1_scaled: 400_000,
            fewer_extra_cells: 999_997,
            fewer_rows: 999_997,
        }
    );
    let many = table_structure_candidate_rank(&d, 2_000_000, 0, 0);
    assert_eq!(many.fewer_rows, 0);
    assert_eq!(best_table_candidate(&vec![]), None);
    assert_eq!(best_table_candidate(&vec![rank(3, 1, 0), rank(4, 0, 0), rank(3, 9, 9)]), Some(1));
    assert_eq!(best_table_candidate(&vec![rank(4, 2, 1), rank(4, 2, 1), rank(4, 1, 5)]), Some(1));
}
