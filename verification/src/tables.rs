//! Table text: recovering rows of cells from delimited, pipe and whitespace
//! text, rendering rows as Markdown pipe tables, and flattening rows into
//! positioned cells for structure scoring.
use vstd::prelude::*;

use crate::order::{chars_le, lemma_chars_le_antisymmetric, lemma_chars_le_reflexive,
    lemma_chars_le_total, lemma_chars_le_transitive, missing_multiset_items, strings_le, Sortable};
use crate::text::{
    append_chars, chars_of, contains_char, join_chars, join_with, lines_chars, lines_of, split_by,
    split_chars, split_whitespace, split_ws, string_of, strings_of, trim, trim_chars, trim_set,
    trim_ws, in_set, join_strings, CharSet,
};
use crate::views::{dview, lemma_dview_push, lemma_vec_dview};

verus! {

broadcast use crate::views::lemma_char_vec_deep_view;

/// Each piece trimmed of surrounding whitespace.
pub open spec fn trim_each(pieces: Seq<Seq<char>>) -> Seq<Seq<char>> {
    pieces.map_values(|p: Seq<char>| trim(p))
}

pub fn trim_all(pieces: &Vec<Vec<char>>) -> (out: Vec<String>)
    ensures
        out.deep_view() == trim_each(pieces.deep_view()),
{
    let ghost ps = pieces.deep_view();
    let mut out: Vec<String> = Vec::new();
    let mut i: usize = 0;
    while i < pieces.len()
        invariant
            i <= pieces.len(),
            ps == pieces.deep_view(),
            out.deep_view() == trim_each(ps.take(i as int)),
        decreases pieces.len() - i,
    {
        let t = trim_ws(&pieces[i]);
        let s = string_of(&t);
        let ghost prev = out@;
        out.push(s);
        proof {
            lemma_vec_dview(out);
            lemma_dview_push(prev, s);
            assert(out.deep_view() =~= trim_each(ps.take(i + 1)));
        }
        i += 1;
    }
    proof {
        assert(ps.take(pieces.len() as int) =~= ps);
    }
    out
}

/// `s` without one leading `c`, if it starts with one.
pub open spec fn strip_one_prefix(s: Seq<char>, c: char) -> Seq<char> {
    if s.len() > 0 && s[0] == c {
        s.drop_first()
    } else {
        s
    }
}

/// `s` without one trailing `c`, if it ends with one.
pub open spec fn strip_one_suffix(s: Seq<char>, c: char) -> Seq<char> {
    if s.len() > 0 && s.last() == c {
        s.drop_last()
    } else {
        s
    }
}

/// The cells of a delimited line: the line loses surrounding ASCII
/// whitespace (other than the delimiter) and one delimiter at each end, is
/// split at the delimiter, and each cell is trimmed.
pub open spec fn delimited_cells(line: Seq<char>, delimiter: char) -> Seq<Seq<char>> {
    let t = trim_set(line, CharSet::AsciiWhitespaceExcept(delimiter));
    let core = strip_one_suffix(strip_one_prefix(t, delimiter), delimiter);
    trim_each(split_by(core, CharSet::Only(delimiter)))
}

pub fn strip_prefix_char(s: Vec<char>, c: char) -> (r: Vec<char>)
    ensures
        r@ == strip_one_prefix(s@, c),
{
    if s.len() > 0 && s[0] == c {
        let n = s.len();
        crate::text::subvec(&s, 1, n)
    } else {
        s
    }
}

pub fn strip_suffix_char(s: Vec<char>, c: char) -> (r: Vec<char>)
    ensures
        r@ == strip_one_suffix(s@, c),
{
    if s.len() > 0 && s[s.len() - 1] == c {
        let n = s.len();
        crate::text::subvec(&s, 0, n - 1)
    } else {
        s
    }
}

pub fn delimited_cells_of(line: &Vec<char>, delimiter: char) -> (cells: Vec<String>)
    ensures
        cells.deep_view() == delimited_cells(line@, delimiter),
{
    let t = trim_chars(line, CharSet::AsciiWhitespaceExcept(delimiter));
    let core = strip_suffix_char(strip_prefix_char(t, delimiter), delimiter);
    let pieces = split_chars(&core, CharSet::Only(delimiter));
    trim_all(&pieces)
}

pub fn split_delimited_table_cells(line: &str, delimiter: char) -> (cells: Vec<String>)
    ensures
        cells.deep_view() == delimited_cells(line@, delimiter),
{
    let v = chars_of(line);
    delimited_cells_of(&v, delimiter)
}

/// A Markdown separator cell: after trimming and dropping one `:` at either
/// end, at least three characters, all `-`.
pub open spec fn separator_cell(cell: Seq<char>) -> bool {
    let core = strip_one_suffix(strip_one_prefix(trim(cell), ':'), ':');
    core.len() >= 3 && forall|i: int| 0 <= i < core.len() ==> core[i] == '-'
}

/// A Markdown separator row: at least two cells, all separator cells.
pub open spec fn separator_row(row: Seq<Seq<char>>) -> bool {
    row.len() >= 2 && forall|i: int| 0 <= i < row.len() ==> separator_cell(#[trigger] row[i])
}

pub fn separator_chars(cell: &Vec<char>) -> (r: bool)
    ensures
        r == separator_cell(cell@),
{
    let t = trim_ws(cell);
    let core = strip_suffix_char(strip_prefix_char(t, ':'), ':');
    if core.len() < 3 {
        return false;
    }
    let mut i: usize = 0;
    while i < core.len() && core[i] == '-'
        invariant
            i <= core.len(),
            forall|k: int| 0 <= k < i ==> core@[k] == '-',
        decreases core.len() - i,
    {
        i += 1;
    }
    if i < core.len() {
        assert(core@[i as int] != '-');
        false
    } else {
        true
    }
}

pub fn is_markdown_table_separator_cell(cell: &str) -> (r: bool)
    ensures
        r == separator_cell(cell@),
{
    let v = chars_of(cell);
    separator_chars(&v)
}

pub fn is_markdown_table_separator_row(row: &[String]) -> (r: bool)
    ensures
        r == separator_row(dview(row@)),
{
    if row.len() < 2 {
        return false;
    }
    let mut i: usize = 0;
    while i < row.len()
        invariant
            i <= row.len(),
            forall|k: int| 0 <= k < i ==> separator_cell(#[trigger] dview(row@)[k]),
        decreases row.len() - i,
    {
        if !is_markdown_table_separator_cell(row[i].as_str()) {
            assert(!separator_cell(dview(row@)[i as int]));
            return false;
        }
        i += 1;
    }
    true
}

/// The cells of one line of table text: split at `|` if it has one, else at
/// tabs if it has one, else at whitespace.
pub open spec fn line_cells(line: Seq<char>) -> Seq<Seq<char>> {
    if line.contains('|') {
        delimited_cells(line, '|')
    } else if line.contains('\t') {
        delimited_cells(line, '\t')
    } else {
        split_whitespace(line)
    }
}

/// A candidate row is kept when it has two cells or more and is not a
/// Markdown separator row.
pub open spec fn keeps_row(row: Seq<Seq<char>>) -> bool {
    row.len() >= 2 && !separator_row(row)
}

/// The rows of table text, in line order.
pub open spec fn table_rows_of_lines(lines: Seq<Seq<char>>) -> Seq<Seq<Seq<char>>>
    decreases lines.len(),
{
    if lines.len() == 0 {
        Seq::empty()
    } else {
        let prev = table_rows_of_lines(lines.drop_last());
        let row = line_cells(lines.last());
        if keeps_row(row) {
            prev.push(row)
        } else {
            prev
        }
    }
}

pub open spec fn parsed_table_rows(text: Seq<char>) -> Seq<Seq<Seq<char>>> {
    table_rows_of_lines(lines_of(text))
}

pub fn line_cells_of(line: &Vec<char>) -> (cells: Vec<String>)
    ensures
        cells.deep_view() == line_cells(line@),
{
    if contains_char(line, '|') {
        delimited_cells_of(line, '|')
    } else if contains_char(line, '\t') {
        delimited_cells_of(line, '\t')
    } else {
        let words = split_ws(line);
        strings_of(&words)
    }
}

/// Rows of cells recovered from table text.
pub fn parse_table_rows(text: &str) -> (rows: Vec<Vec<String>>)
    ensures
        rows.deep_view() == parsed_table_rows(text@),
{
    let v = chars_of(text);
    let lines = lines_chars(&v);
    let ghost ls = lines.deep_view();
    let mut rows: Vec<Vec<String>> = Vec::new();
    let mut i: usize = 0;
    while i < lines.len()
        invariant
            i <= lines.len(),
            ls == lines.deep_view(),
            rows.deep_view() == table_rows_of_lines(ls.take(i as int)),
        decreases lines.len() - i,
    {
        proof {
            assert(ls.take(i + 1).drop_last() =~= ls.take(i as int));
            assert(ls.take(i + 1).last() == lines@[i as int]@);
        }
        let row = line_cells_of(&lines[i]);
        if row.len() >= 2 && !is_markdown_table_separator_row(row.as_slice()) {
            proof {
                lemma_vec_dview(row);
            }
            let ghost prev = rows@;
            rows.push(row);
            proof {
                lemma_vec_dview(rows);
                lemma_dview_push(prev, row);
            }
        } else {
            proof {
                lemma_vec_dview(row);
            }
        }
        i += 1;
    }
    proof {
        assert(ls.take(lines.len() as int) =~= ls);
    }
    rows
}

/// Each row with its cells trimmed; rows with fewer than two cells dropped.
pub open spec fn normalized_rows(rows: Seq<Seq<Seq<char>>>) -> Seq<Seq<Seq<char>>>
    decreases rows.len(),
{
    if rows.len() == 0 {
        Seq::empty()
    } else {
        let prev = normalized_rows(rows.drop_last());
        if rows.last().len() >= 2 {
            prev.push(trim_each(rows.last()))
        } else {
            prev
        }
    }
}

pub fn trim_strings(row: &Vec<String>) -> (out: Vec<String>)
    ensures
        out.deep_view() == trim_each(row.deep_view()),
{
    let ghost rv = row.deep_view();
    let mut out: Vec<String> = Vec::new();
    let mut i: usize = 0;
    while i < row.len()
        invariant
            i <= row.len(),
            rv == row.deep_view(),
            out.deep_view() == trim_each(rv.take(i as int)),
        decreases row.len() - i,
    {
        let s = crate::text::trim_str(row[i].as_str());
        let ghost prev = out@;
        out.push(s);
        proof {
            lemma_vec_dview(out);
            lemma_dview_push(prev, s);
            assert(out.deep_view() =~= trim_each(rv.take(i + 1)));
        }
        i += 1;
    }
    proof {
        assert(rv.take(row.len() as int) =~= rv);
    }
    out
}

pub fn normalize_table_rows(rows: &[Vec<String>]) -> (out: Vec<Vec<String>>)
    ensures
        out.deep_view() == normalized_rows(dview(rows@)),
{
    let ghost all = dview(rows@);
    let mut out: Vec<Vec<String>> = Vec::new();
    let mut i: usize = 0;
    while i < rows.len()
        invariant
            i <= rows.len(),
            all == dview(rows@),
            out.deep_view() == normalized_rows(all.take(i as int)),
        decreases rows.len() - i,
    {
        proof {
            assert(all.take(i + 1).drop_last() =~= all.take(i as int));
            assert(all.take(i + 1).last() == rows@[i as int].deep_view());
        }
        if rows[i].len() >= 2 {
            let t = trim_strings(&rows[i]);
            let ghost prev = out@;
            out.push(t);
            proof {
                lemma_vec_dview(out);
                lemma_dview_push(prev, t);
            }
        }
        i += 1;
    }
    proof {
        assert(all.take(rows.len() as int) =~= all);
    }
    out
}

// ---------------------------------------------------------------------------
// Positioned cells
// ---------------------------------------------------------------------------

/// One cell of a table, identified by its row and column.
pub struct TableCell {
    pub row: usize,
    pub column: usize,
    pub text: String,
}

impl DeepView for TableCell {
    type V = (usize, usize, Seq<char>);

    open spec fn deep_view(&self) -> (usize, usize, Seq<char>) {
        (self.row, self.column, self.text@)
    }
}

impl TableCell {
    /// The same cell.
    pub fn copy(&self) -> (r: TableCell)
        ensures
            r.deep_view() == self.deep_view(),
    {
        TableCell { row: self.row, column: self.column, text: self.text.clone() }
    }
}

/// Cells order by row, then column, then text (the derived order of
/// `TableCell`).
pub open spec fn cell_le(a: (usize, usize, Seq<char>), b: (usize, usize, Seq<char>)) -> bool {
    a.0 < b.0 || (a.0 == b.0 && (a.1 < b.1 || (a.1 == b.1 && chars_le(a.2, b.2))))
}

impl Sortable for TableCell {
    open spec fn le_spec(a: (usize, usize, Seq<char>), b: (usize, usize, Seq<char>)) -> bool {
        cell_le(a, b)
    }

    proof fn lemma_le_reflexive(a: (usize, usize, Seq<char>)) {
        lemma_chars_le_reflexive(a.2);
    }

    proof fn lemma_le_transitive(
        a: (usize, usize, Seq<char>),
        b: (usize, usize, Seq<char>),
        c: (usize, usize, Seq<char>),
    ) {
        if a.0 == b.0 && b.0 == c.0 && a.1 == b.1 && b.1 == c.1 {
            lemma_chars_le_transitive(a.2, b.2, c.2);
        }
    }

    proof fn lemma_le_antisymmetric(a: (usize, usize, Seq<char>), b: (usize, usize, Seq<char>)) {
        lemma_chars_le_antisymmetric(a.2, b.2);
    }

    proof fn lemma_le_total(a: (usize, usize, Seq<char>), b: (usize, usize, Seq<char>)) {
        lemma_chars_le_total(a.2, b.2);
    }

    fn le(&self, other: &Self) -> (r: bool) {
        if self.row != other.row {
            self.row < other.row
        } else if self.column != other.column {
            self.column < other.column
        } else {
            strings_le(&self.text, &other.text)
        }
    }

    fn same(&self, other: &Self) -> (r: bool) {
        self.row == other.row && self.column == other.column && crate::text::str_eq(
            self.text.as_str(),
            other.text.as_str(),
        )
    }

    fn duplicate(&self) -> (r: Self) {
        self.copy()
    }
}

/// The cells of one row, positioned at row `r`.
pub open spec fn row_cells(r: int, row: Seq<Seq<char>>) -> Seq<(usize, usize, Seq<char>)> {
    Seq::new(row.len(), |c: int| (r as usize, c as usize, row[c]))
}

/// All cells of the rows, row by row and left to right.
pub open spec fn cells_of_rows(rows: Seq<Seq<Seq<char>>>) -> Seq<(usize, usize, Seq<char>)>
    decreases rows.len(),
{
    if rows.len() == 0 {
        Seq::empty()
    } else {
        cells_of_rows(rows.drop_last()) + row_cells(rows.len() - 1, rows.last())
    }
}

pub fn table_cells(rows: &[Vec<String>]) -> (cells: Vec<TableCell>)
    ensures
        cells.deep_view() == cells_of_rows(dview(rows@)),
{
    let ghost all = dview(rows@);
    let mut cells: Vec<TableCell> = Vec::new();
    let mut r: usize = 0;
    while r < rows.len()
        invariant
            r <= rows.len(),
            all == dview(rows@),
            cells.deep_view() == cells_of_rows(all.take(r as int)),
        decreases rows.len() - r,
    {
        let ghost start = cells.deep_view();
        let row = &rows[r];
        proof {
            assert(all.take(r + 1).drop_last() =~= all.take(r as int));
            assert(all.take(r + 1).last() == row.deep_view());
        }
        let mut c: usize = 0;
        while c < row.len()
            invariant
                c <= row.len(),
                r < rows.len(),
                row == &rows[r as int],
                cells.deep_view() == start + row_cells(r as int, row.deep_view()).take(c as int),
            decreases row.len() - c,
        {
            let cell = TableCell { row: r, column: c, text: row[c].clone() };
            let ghost prev = cells@;
            cells.push(cell);
            proof {
                lemma_vec_dview(cells);
                lemma_dview_push(prev, cell);
                assert(cells.deep_view() =~= start + row_cells(r as int, row.deep_view()).take(
                    c + 1,
                ));
            }
            c += 1;
        }
        proof {
            assert(row_cells(r as int, row.deep_view()).take(row.len() as int) =~= row_cells(
                r as int,
                row.deep_view(),
            ));
        }
        r += 1;
    }
    proof {
        assert(all.take(rows.len() as int) =~= all);
    }
    cells
}

// ---------------------------------------------------------------------------
// Markdown rendering and parsing
// ---------------------------------------------------------------------------

/// `| a | b | c |`: the cells joined by ` | ` inside `| ` and ` |`.
pub open spec fn markdown_row(cells: Seq<Seq<char>>) -> Seq<char> {
    seq!['|', ' '] + join_with(cells, seq![' ', '|', ' ']) + seq![' ', '|']
}

pub fn markdown_row_of(cells: &Vec<String>) -> (r: Vec<char>)
    ensures
        r@ == markdown_row(cells.deep_view()),
{
    let mut pieces: Vec<Vec<char>> = Vec::new();
    let mut i: usize = 0;
    while i < cells.len()
        invariant
            i <= cells.len(),
            pieces.deep_view() == cells.deep_view().take(i as int),
        decreases cells.len() - i,
    {
        let p = chars_of(cells[i].as_str());
        let ghost prev = pieces@;
        pieces.push(p);
        proof {
            lemma_vec_dview(pieces);
            lemma_dview_push(prev, p);
            assert(pieces.deep_view() =~= cells.deep_view().take(i + 1));
        }
        i += 1;
    }
    proof {
        assert(cells.deep_view().take(cells.len() as int) =~= cells.deep_view());
    }
    let mut sep: Vec<char> = Vec::new();
    sep.push(' ');
    sep.push('|');
    sep.push(' ');
    let inner = join_chars(&pieces, &sep);
    let mut out: Vec<char> = Vec::new();
    out.push('|');
    out.push(' ');
    append_chars(&mut out, &inner);
    out.push(' ');
    out.push('|');
    proof {
        assert(sep@ =~= seq![' ', '|', ' ']);
        assert(out@ =~= markdown_row(cells.deep_view()));
    }
    out
}

pub fn format_markdown_table_row(cells: &[String]) -> (r: String)
    ensures
        r@ == markdown_row(dview(cells@)),
{
    let mut v: Vec<String> = Vec::new();
    let mut i: usize = 0;
    while i < cells.len()
        invariant
            i <= cells.len(),
            v.deep_view() == dview(cells@).take(i as int),
        decreases cells.len() - i,
    {
        let s = cells[i].clone();
        let ghost prev = v@;
        v.push(s);
        proof {
            lemma_vec_dview(v);
            lemma_dview_push(prev, s);
            assert(v.deep_view() =~= dview(cells@).take(i + 1));
        }
        i += 1;
    }
    proof {
        assert(dview(cells@).take(cells.len() as int) =~= dview(cells@));
    }
    let r = markdown_row_of(&v);
    string_of(&r)
}

/// `count` cells of `---`.
pub open spec fn dash_cells(count: nat) -> Seq<Seq<char>> {
    Seq::new(count, |i: int| seq!['-', '-', '-'])
}

/// Rows render as a Markdown table when there are two rows or more, the
/// first has two cells or more, and every row has as many cells as the first.
pub open spec fn renders_as_markdown(rows: Seq<Seq<Seq<char>>>) -> bool {
    rows.len() >= 2 && rows[0].len() >= 2 && forall|i: int|
        0 <= i < rows.len() ==> #[trigger] rows[i].len() == rows[0].len()
}

/// A Markdown table is rectangular: rows that render have as many cells in
/// every row as in the header, and a row of another length keeps them from
/// rendering. Fewer than two rows, or a header of one cell, never render.
pub proof fn law_markdown_tables_are_rectangular(rows: Seq<Seq<Seq<char>>>)
    ensures
        renders_as_markdown(rows) ==> forall|i: int| 0 <= i < rows.len() ==> #[trigger] rows[i].len()
            == rows[0].len(),
        (exists|i: int| 0 <= i < rows.len() && #[trigger] rows[i].len() != rows[0].len())
            ==> !renders_as_markdown(rows),
        rows.len() < 2 ==> !renders_as_markdown(rows),
        rows.len() > 0 && rows[0].len() < 2 ==> !renders_as_markdown(rows),
{
}

/// The header row, a `---` separator row, then the remaining rows, one per
/// line.
pub open spec fn markdown_table(rows: Seq<Seq<Seq<char>>>) -> Seq<char> {
    let lines = seq![markdown_row(rows[0]), markdown_row(dash_cells(rows[0].len()))]
        + rows.drop_first().map_values(|row: Seq<Seq<char>>| markdown_row(row));
    join_with(lines, seq!['\n'])
}

pub fn markdown_table_rows(rows: &[Vec<String>]) -> (r: Option<String>)
    ensures
        r matches Some(s) ==> renders_as_markdown(dview(rows@)) && s@ == markdown_table(
            dview(rows@),
        ),
        r is None ==> !renders_as_markdown(dview(rows@)),
{
    let ghost all = dview(rows@);
    if rows.len() == 0 {
        return None;
    }
    let column_count = rows[0].len();
    if rows.len() < 2 || column_count < 2 {
        return None;
    }
    let mut i: usize = 0;
    while i < rows.len()
        invariant
            i <= rows.len(),
            all == dview(rows@),
            column_count == all[0].len(),
            forall|k: int| 0 <= k < i ==> #[trigger] all[k].len() == column_count,
        decreases rows.len() - i,
    {
        if rows[i].len() != column_count {
            assert(all[i as int].len() != all[0].len());
            return None;
        }
        i += 1;
    }
    let mut lines: Vec<Vec<char>> = Vec::new();
    let first = markdown_row_of(&rows[0]);
    lines.push(first);
    let mut dashes: Vec<String> = Vec::new();
    let mut k: usize = 0;
    while k < column_count
        invariant
            k <= column_count,
            dashes.deep_view() == dash_cells(k as nat),
        decreases column_count - k,
    {
        proof {
            reveal_strlit("---");
        }
        let d = string_of(&crate::text::lit("---"));
        assert(d@ =~= seq!['-', '-', '-']);
        let ghost prev = dashes@;
        dashes.push(d);
        proof {
            lemma_vec_dview(dashes);
            lemma_dview_push(prev, d);
            assert(dashes.deep_view() =~= dash_cells((k + 1) as nat));
        }
        k += 1;
    }
    let sep_row = markdown_row_of(&dashes);
    lines.push(sep_row);
    let ghost head = seq![markdown_row(all[0]), markdown_row(dash_cells(all[0].len()))];
    proof {
        lemma_vec_dview(lines);
        assert(lines.deep_view() =~= head);
    }
    let mut j: usize = 1;
    while j < rows.len()
        invariant
            1 <= j <= rows.len(),
            all == dview(rows@),
            lines.deep_view() == head + all.drop_first().take(j - 1).map_values(
                |row: Seq<Seq<char>>| markdown_row(row),
            ),
        decreases rows.len() - j,
    {
        let line = markdown_row_of(&rows[j]);
        let ghost prev = lines@;
        lines.push(line);
        proof {
            lemma_vec_dview(lines);
            lemma_dview_push(prev, line);
            assert(all.drop_first()[j - 1] == all[j as int]);
            assert(lines.deep_view() =~= head + all.drop_first().take(j as int).map_values(
                |row: Seq<Seq<char>>| markdown_row(row),
            ));
        }
        j += 1;
    }
    proof {
        assert(all.drop_first().take(rows.len() - 1) =~= all.drop_first());
    }
    let mut nl: Vec<char> = Vec::new();
    nl.push('\n');
    proof {
        assert(nl@ =~= seq!['\n']);
    }
    let joined = join_chars(&lines, &nl);
    Some(string_of(&joined))
}

/// The cells of a pipe row: the trimmed line, which must hold a `|`, loses
/// every `|` at either end and is split at `|`; each cell is trimmed. It is a
/// row when it has two cells or more and one of them is not empty.
pub open spec fn pipe_row(line: Seq<char>) -> Option<Seq<Seq<char>>> {
    let t = trim(line);
    if !t.contains('|') {
        None
    } else {
        let cells = trim_each(split_by(trim_set(t, CharSet::Only('|')), CharSet::Only('|')));
        if cells.len() >= 2 && exists|i: int| 0 <= i < cells.len() && #[trigger] cells[i].len() > 0 {
            Some(cells)
        } else {
            None
        }
    }
}

/// The whitespace-separated words of a line, when there are two or more.
pub open spec fn whitespace_row(line: Seq<char>) -> Option<Seq<Seq<char>>> {
    let cells = split_whitespace(line);
    if cells.len() >= 2 {
        Some(cells)
    } else {
        None
    }
}

/// A pipe row, or failing that a whitespace row.
pub open spec fn markdown_source_row(line: Seq<char>) -> Option<Seq<Seq<char>>> {
    match pipe_row(line) {
        Some(cells) => Some(cells),
        None => whitespace_row(line),
    }
}

pub fn parse_pipe_table_row(line: &str) -> (r: Option<Vec<String>>)
    ensures
        r matches Some(cells) ==> pipe_row(line@) == Some(cells.deep_view()),
        r is None ==> pipe_row(line@) is None,
{
    let v = chars_of(line);
    let t = trim_ws(&v);
    if !contains_char(&t, '|') {
        return None;
    }
    let core = trim_chars(&t, CharSet::Only('|'));
    let pieces = split_chars(&core, CharSet::Only('|'));
    let cells = trim_all(&pieces);
    let ghost cv = cells.deep_view();
    if cells.len() < 2 {
        return None;
    }
    let mut i: usize = 0;
    while i < cells.len() && cells[i].as_str().is_empty()
        invariant
            i <= cells.len(),
            cv == cells.deep_view(),
            forall|k: int| 0 <= k < i ==> #[trigger] cv[k].len() == 0,
        decreases cells.len() - i,
    {
        i += 1;
    }
    if i < cells.len() {
        assert(cv[i as int].len() > 0);
        Some(cells)
    } else {
        None
    }
}

pub fn parse_whitespace_table_row(line: &str) -> (r: Option<Vec<String>>)
    ensures
        r matches Some(cells) ==> whitespace_row(line@) == Some(cells.deep_view()),
        r is None ==> whitespace_row(line@) is None,
{
    let v = chars_of(line);
    let words = split_ws(&v);
    let cells = strings_of(&words);
    if cells.len() >= 2 {
        Some(cells)
    } else {
        None
    }
}

pub fn parse_markdown_table_row(line: &str) -> (r: Option<Vec<String>>)
    ensures
        r matches Some(cells) ==> markdown_source_row(line@) == Some(cells.deep_view()),
        r is None ==> markdown_source_row(line@) is None,
{
    match parse_pipe_table_row(line) {
        Some(cells) => Some(cells),
        None => parse_whitespace_table_row(line),
    }
}

/// Every line of the text parses as a row; the rows, in order.
pub open spec fn block_rows(text: Seq<char>) -> Option<Seq<Seq<Seq<char>>>> {
    let lines = lines_of(text);
    if forall|i: int| 0 <= i < lines.len() ==> #[trigger] markdown_source_row(lines[i]) is Some {
        Some(lines.map_values(|l: Seq<char>| markdown_source_row(l)->0))
    } else {
        None
    }
}

pub fn markdown_table_block(text: &str) -> (r: Option<String>)
    ensures
        r matches Some(s) ==> block_rows(text@) matches Some(rows) && renders_as_markdown(rows)
            && s@ == markdown_table(rows),
        r is None ==> (block_rows(text@) matches Some(rows) ==> !renders_as_markdown(rows)),
{
    let v = chars_of(text);
    let lines = lines_chars(&v);
    let ghost ls = lines.deep_view();
    let mut rows: Vec<Vec<String>> = Vec::new();
    let mut i: usize = 0;
    while i < lines.len()
        invariant
            i <= lines.len(),
            ls == lines.deep_view(),
            ls == lines_of(text@),
            rows.len() == i,
            forall|k: int|
                0 <= k < i ==> markdown_source_row(ls[k]) == Some(#[trigger] rows@[k].deep_view()),
        decreases lines.len() - i,
    {
        let s = string_of(&lines[i]);
        match parse_markdown_table_row(s.as_str()) {
            Some(cells) => {
                rows.push(cells);
            },
            None => {
                assert(markdown_source_row(ls[i as int]) is None);
                return None;
            },
        }
        i += 1;
    }
    proof {
        let br = ls.map_values(|l: Seq<char>| markdown_source_row(l)->0);
        assert forall|k: int| 0 <= k < ls.len() implies #[trigger] markdown_source_row(ls[k]) is Some by {
            assert(markdown_source_row(ls[k]) == Some(rows@[k].deep_view()));
        }
        assert(dview(rows@) =~= br);
        assert(block_rows(text@) == Some(br));
    }
    markdown_table_rows(rows.as_slice())
}

/// A row padded with empty cells, or cut, to `column_count` cells and
/// rendered as a pipe row.
pub open spec fn resized_row(row: Seq<Seq<char>>, column_count: nat) -> Seq<Seq<char>> {
    Seq::new(
        column_count,
        |i: int|
            if i < row.len() {
                row[i]
            } else {
                Seq::<char>::empty()
            },
    )
}

pub fn format_structured_table_text_row(row: &[String], column_count: usize) -> (r: String)
    ensures
        r@ == markdown_row(resized_row(dview(row@), column_count as nat)),
{
    let mut cells: Vec<String> = Vec::new();
    let mut i: usize = 0;
    while i < column_count
        invariant
            i <= column_count,
            cells.deep_view() == resized_row(dview(row@), column_count as nat).take(i as int),
        decreases column_count - i,
    {
        let s = if i < row.len() {
            row[i].clone()
        } else {
            String::new()
        };
        let ghost prev = cells@;
        cells.push(s);
        proof {
            lemma_vec_dview(cells);
            lemma_dview_push(prev, s);
            assert(cells.deep_view() =~= resized_row(dview(row@), column_count as nat).take(
                i + 1,
            ));
        }
        i += 1;
    }
    proof {
        assert(resized_row(dview(row@), column_count as nat).take(column_count as int)
            =~= resized_row(dview(row@), column_count as nat));
    }
    let r = markdown_row_of(&cells);
    string_of(&r)
}

/// The candidate row groups that a table expectation is scored against: the
/// whole group and, when the expectation names a row count the group can
/// hold, every window of that many consecutive rows.
pub open spec fn row_candidates(rows: Seq<Seq<Seq<char>>>, expected_row_count: nat) -> Seq<
    Seq<Seq<Seq<char>>>,
> {
    if rows.len() == 0 {
        Seq::empty()
    } else if expected_row_count == 0 || rows.len() < expected_row_count {
        seq![rows]
    } else {
        seq![rows] + Seq::new(
            (rows.len() - expected_row_count + 1) as nat,
            |i: int| rows.subrange(i, i + expected_row_count),
        )
    }
}

pub fn copy_rows(rows: &[Vec<String>], start: usize, end: usize) -> (out: Vec<Vec<String>>)
    requires
        start <= end <= rows.len(),
    ensures
        out.deep_view() == dview(rows@).subrange(start as int, end as int),
{
    let mut out: Vec<Vec<String>> = Vec::new();
    let mut i: usize = start;
    while i < end
        invariant
            start <= i <= end <= rows.len(),
            out.deep_view() == dview(rows@).subrange(start as int, i as int),
        decreases end - i,
    {
        let row = rows[i].clone();
        proof {
            assert(row.deep_view() =~= rows@[i as int].deep_view());
        }
        let ghost prev = out@;
        out.push(row);
        proof {
            lemma_vec_dview(out);
            lemma_dview_push(prev, row);
            assert(out.deep_view() =~= dview(rows@).subrange(start as int, i + 1));
        }
        i += 1;
    }
    out
}

pub fn push_table_row_candidates(
    candidates: &mut Vec<Vec<Vec<String>>>,
    rows: &[Vec<String>],
    expected_row_count: usize,
)
    ensures
        final(candidates).deep_view() == old(candidates).deep_view() + row_candidates(
            dview(rows@),
            expected_row_count as nat,
        ),
{
    let ghost start = candidates.deep_view();
    let ghost all = dview(rows@);
    if rows.len() == 0 {
        assert(candidates.deep_view() =~= start + row_candidates(all, expected_row_count as nat));
        return;
    }
    let whole = copy_rows(rows, 0, rows.len());
    let ghost prev = candidates@;
    candidates.push(whole);
    proof {
        lemma_vec_dview(*candidates);
        lemma_dview_push(prev, whole);
        assert(all.subrange(0, all.len() as int) =~= all);
    }
    if expected_row_count == 0 || rows.len() < expected_row_count {
        assert(candidates.deep_view() =~= start + row_candidates(all, expected_row_count as nat));
        return;
    }
    let windows = rows.len() - expected_row_count + 1;
    let ghost wins = Seq::new(
        windows as nat,
        |i: int| all.subrange(i, i + expected_row_count),
    );
    let mut w: usize = 0;
    while w < windows
        invariant
            w <= windows,
            windows == rows.len() - expected_row_count + 1,
            expected_row_count >= 1,
            all == dview(rows@),
            wins == Seq::new(windows as nat, |i: int| all.subrange(i, i + expected_row_count)),
            candidates.deep_view() == start + seq![all] + wins.take(w as int),
        decreases windows - w,
    {
        let window = copy_rows(rows, w, w + expected_row_count);
        let ghost prev = candidates@;
        candidates.push(window);
        proof {
            lemma_vec_dview(*candidates);
            lemma_dview_push(prev, window);
            assert(candidates.deep_view() =~= start + seq![all] + wins.take(w + 1));
        }
        w += 1;
    }
    proof {
        assert(wins.take(windows as int) =~= wins);
        assert(candidates.deep_view() =~= start + row_candidates(all, expected_row_count as nat));
    }
}

// ---------------------------------------------------------------------------
// Comparing table structure
// ---------------------------------------------------------------------------

/// The rows and cells that an extracted table lacks or has in excess of the
/// expected one, as multisets.
pub struct TableStructureDiff {
    pub missing_rows: Vec<Vec<String>>,
    pub extra_rows: Vec<Vec<String>>,
    pub missing_cells: Vec<TableCell>,
    pub extra_cells: Vec<TableCell>,
    pub matched_rows: usize,
    pub matched_cells: usize,
}

/// Compares extracted rows with expected rows, row by row and cell by cell.
pub fn table_structure_diff(expected_rows: &[Vec<String>], actual_rows: &[Vec<String>]) -> (d:
    TableStructureDiff)
    ensures
        d.missing_rows.deep_view().to_multiset() == dview(expected_rows@).to_multiset().sub(
            dview(actual_rows@).to_multiset(),
        ),
        d.extra_rows.deep_view().to_multiset() == dview(actual_rows@).to_multiset().sub(
            dview(expected_rows@).to_multiset(),
        ),
        d.missing_cells.deep_view().to_multiset() == cells_of_rows(dview(expected_rows@)).to_multiset().sub(
            cells_of_rows(dview(actual_rows@)).to_multiset(),
        ),
        d.extra_cells.deep_view().to_multiset() == cells_of_rows(dview(actual_rows@)).to_multiset().sub(
            cells_of_rows(dview(expected_rows@)).to_multiset(),
        ),
        d.matched_rows == (if expected_rows@.len() >= d.missing_rows@.len() {
            expected_rows@.len() - d.missing_rows@.len()
        } else {
            0
        }),
        d.matched_cells == (if cells_of_rows(dview(expected_rows@)).len() >= d.missing_cells@.len() {
            cells_of_rows(dview(expected_rows@)).len() - d.missing_cells@.len()
        } else {
            0
        }),
{
    let expected = copy_rows(expected_rows, 0, expected_rows.len());
    let actual = copy_rows(actual_rows, 0, actual_rows.len());
    proof {
        assert(dview(expected_rows@).subrange(0, expected_rows@.len() as int) =~= dview(expected_rows@));
        assert(dview(actual_rows@).subrange(0, actual_rows@.len() as int) =~= dview(actual_rows@));
    }
    let expected2 = copy_rows(expected_rows, 0, expected_rows.len());
    let actual2 = copy_rows(actual_rows, 0, actual_rows.len());
    let missing_rows = missing_multiset_items(expected, actual);
    let extra_rows = missing_multiset_items(actual2, expected2);
    let expected_cells = table_cells(expected_rows);
    let actual_cells = table_cells(actual_rows);
    let expected_cells2 = table_cells(expected_rows);
    let actual_cells2 = table_cells(actual_rows);
    let n_expected_cells = expected_cells.len();
    proof {
        crate::views::lemma_vec_dview(expected_cells);
    }
    let missing_cells = missing_multiset_items(expected_cells, actual_cells);
    let extra_cells = missing_multiset_items(actual_cells2, expected_cells2);
    let matched_rows = if expected_rows.len() >= missing_rows.len() {
        expected_rows.len() - missing_rows.len()
    } else {
        0
    };
    let matched_cells = if n_expected_cells >= missing_cells.len() {
        n_expected_cells - missing_cells.len()
    } else {
        0
    };
    TableStructureDiff { missing_rows, extra_rows, missing_cells, extra_cells, matched_rows, matched_cells }
}

/// How well a candidate table matches the expected rows, compared field by
/// field in order, higher first: matched cells, cell F1 (scaled by a
/// million), matched rows, row F1 (scaled likewise), then fewer extra cells
/// and fewer rows (each as a million less the count, at least zero).
#[derive(Clone, Copy, PartialEq, Eq, Structural, Debug)]
pub struct TableCandidateRank {
    pub matched_cells: usize,
    pub cell_f1_scaled: usize,
    pub matched_rows: usize,
    pub row_f1_scaled: usize,
    pub fewer_extra_cells: usize,
    pub fewer_rows: usize,
}

/// A million less a count, at least zero.
pub open spec fn million_less(n: nat) -> usize {
    if n >= 1_000_000 {
        0
    } else {
        (1_000_000 - n) as usize
    }
}

/// The rank of a candidate from its comparison with the expected rows, its
/// row count, and its F1 scores already scaled to integers (they are
/// floating-point ratios).
pub fn table_structure_candidate_rank(
    diff: &TableStructureDiff,
    actual_row_count: usize,
    cell_f1_scaled: usize,
    row_f1_scaled: usize,
) -> (r: TableCandidateRank)
    ensures
        r == (TableCandidateRank {
            matched_cells: diff.matched_cells,
            cell_f1_scaled,
            matched_rows: diff.matched_rows,
            row_f1_scaled,
            fewer_extra_cells: million_less(diff.extra_cells@.len()),
            fewer_rows: million_less(actual_row_count as nat),
        }),
{
    let extra = diff.extra_cells.len();
    TableCandidateRank {
        matched_cells: diff.matched_cells,
        cell_f1_scaled,
        matched_rows: diff.matched_rows,
        row_f1_scaled,
        fewer_extra_cells: if extra >= 1_000_000 { 0 } else { 1_000_000 - extra },
        fewer_rows: if actual_row_count >= 1_000_000 { 0 } else { 1_000_000 - actual_row_count },
    }
}

/// Whether one rank is below another, comparing field by field in order.
pub open spec fn rank_below(a: TableCandidateRank, b: TableCandidateRank) -> bool {
    ||| a.matched_cells < b.matched_cells
    ||| (a.matched_cells == b.matched_cells && a.cell_f1_scaled < b.cell_f1_scaled)
    ||| (a.matched_cells == b.matched_cells && a.cell_f1_scaled == b.cell_f1_scaled && a.matched_rows
        < b.matched_rows)
    ||| (a.matched_cells == b.matched_cells && a.cell_f1_scaled == b.cell_f1_scaled && a.matched_rows
        == b.matched_rows && a.row_f1_scaled < b.row_f1_scaled)
    ||| (a.matched_cells == b.matched_cells && a.cell_f1_scaled == b.cell_f1_scaled && a.matched_rows
        == b.matched_rows && a.row_f1_scaled == b.row_f1_scaled && a.fewer_extra_cells
        < b.fewer_extra_cells)
    ||| (a.matched_cells == b.matched_cells && a.cell_f1_scaled == b.cell_f1_scaled && a.matched_rows
        == b.matched_rows && a.row_f1_scaled == b.row_f1_scaled && a.fewer_extra_cells
        == b.fewer_extra_cells && a.fewer_rows < b.fewer_rows)
}

fn rank_below_exec(a: &TableCandidateRank, b: &TableCandidateRank) -> (r: bool)
    ensures
        r == rank_below(*a, *b),
{
    if a.matched_cells != b.matched_cells {
        return a.matched_cells < b.matched_cells;
    }
    if a.cell_f1_scaled != b.cell_f1_scaled {
        return a.cell_f1_scaled < b.cell_f1_scaled;
    }
    if a.matched_rows != b.matched_rows {
        return a.matched_rows < b.matched_rows;
    }
    if a.row_f1_scaled != b.row_f1_scaled {
        return a.row_f1_scaled < b.row_f1_scaled;
    }
    if a.fewer_extra_cells != b.fewer_extra_cells {
        return a.fewer_extra_cells < b.fewer_extra_cells;
    }
    a.fewer_rows < b.fewer_rows
}

/// The candidate to score a table expectation with: the highest ranked, the
/// last of them where several rank highest; none when there is no
/// candidate.
pub fn best_table_candidate(ranks: &Vec<TableCandidateRank>) -> (r: Option<usize>)
    ensures
        r is None <==> ranks@.len() == 0,
        r matches Some(i) ==> i < ranks@.len() && (forall|j: int| 0 <= j < ranks@.len() ==> !rank_below(
            ranks@[i as int],
            #[trigger] ranks@[j],
        )) && (forall|j: int| i < j < ranks@.len() ==> rank_below(#[trigger] ranks@[j], ranks@[i as int])),
{
    if ranks.len() == 0 {
        return None;
    }
    let mut best: usize = 0;
    let mut i: usize = 1;
    while i < ranks.len()
        invariant
            1 <= i <= ranks@.len(),
            best < i,
            forall|j: int| 0 <= j < i ==> !rank_below(ranks@[best as int], #[trigger] ranks@[j]),
            forall|j: int| best < j < i ==> rank_below(#[trigger] ranks@[j], ranks@[best as int]),
        decreases ranks@.len() - i,
    {
        if !rank_below_exec(&ranks[i], &ranks[best]) {
            best = i;
        }
        i += 1;
    }
    Some(best)
}

// ---------------------------------------------------------------------------
// Rendering and parsing rows
// ---------------------------------------------------------------------------

/// A cell with a space on either side, as a rendered row holds it.
pub open spec fn padded(c: Seq<char>) -> Seq<char> {
    seq![' '] + c + seq![' ']
}

/// A rendered row without its outer bars.
pub open spec fn row_core(cells: Seq<Seq<char>>) -> Seq<char> {
    seq![' '] + join_with(cells, seq![' ', '|', ' ']) + seq![' ']
}

/// A cell a rendered row can carry and give back: trimmed and without `|`.
pub open spec fn is_plain_cell(c: Seq<char>) -> bool {
    trim(c) == c && !c.contains('|')
}

proof fn lemma_row_core_split(cells: Seq<Seq<char>>)
    requires
        cells.len() >= 1,
        forall|i: int| 0 <= i < cells.len() ==> !(#[trigger] cells[i]).contains('|'),
    ensures
        split_by(row_core(cells), CharSet::Only('|')) == Seq::new(
            cells.len(),
            |i: int| padded(cells[i]),
        ),
    decreases cells.len(),
{
    let last = cells.last();
    assert forall|i: int| 0 <= i < padded(last).len() implies !in_set(
        CharSet::Only('|'),
        #[trigger] padded(last)[i],
    ) by {
        if 0 < i < padded(last).len() - 1 {
            assert(padded(last)[i] == last[i - 1]);
            if last[i - 1] == '|' {
                assert(last.contains('|'));
            }
        }
    }
    if cells.len() == 1 {
        assert(row_core(cells) =~= Seq::<char>::empty() + padded(last));
        crate::text::lemma_split_by_append_plain(Seq::<char>::empty(), padded(last), CharSet::Only('|'));
        assert(split_by(Seq::<char>::empty(), CharSet::Only('|')) == seq![Seq::<char>::empty()]);
        assert(split_by(row_core(cells), CharSet::Only('|')) =~= Seq::new(
            cells.len(),
            |i: int| padded(cells[i]),
        ));
    } else {
        let prev = cells.drop_last();
        assert forall|i: int| 0 <= i < prev.len() implies !(#[trigger] prev[i]).contains('|') by {
            assert(prev[i] == cells[i]);
        }
        lemma_row_core_split(prev);
        assert(row_core(cells) =~= row_core(prev).push('|') + padded(last));
        crate::text::lemma_split_by_sep_then_plain(row_core(prev), '|', padded(last), CharSet::Only('|'));
        assert(split_by(row_core(cells), CharSet::Only('|')) =~= Seq::new(
            cells.len(),
            |i: int| padded(cells[i]),
        ));
    }
}

proof fn lemma_trim_padded(c: Seq<char>)
    requires
        trim(c) == c,
    ensures
        trim(padded(c)) == c,
{
    let ws = CharSet::Whitespace;
    let p = padded(c);
    crate::text::lemma_leading_count_bound(c, ws);
    crate::text::lemma_trailing_count_bound(c, ws);
    crate::text::lemma_leading_count_bound(crate::text::trim_start_set(c, ws), ws);
    if c.len() == 0 {
        crate::text::lemma_leading_count_unique(p, ws, 2);
        assert(crate::text::trim_start_set(p, ws) =~= Seq::<char>::empty());
        assert(trim(p) =~= c);
    } else {
        // A trimmed, non-empty text starts and ends with a non-space.
        let a0 = crate::text::trim_start_set(c, ws);
        assert(a0.len() == c.len() - crate::text::leading_count(c, ws));
        crate::text::lemma_trailing_count_bound(a0, ws);
        assert(trim(c).len() == a0.len() - crate::text::trailing_count(a0, ws));
        assert(crate::text::leading_count(c, ws) == 0);
        assert(crate::text::trailing_count(a0, ws) == 0);
        assert(crate::text::trim_start_set(c, ws) =~= c);
        assert(!in_set(ws, c[0]));
        assert(!in_set(ws, c[c.len() - 1]));
        assert(p[1] == c[0]);
        crate::text::lemma_leading_count_unique(p, ws, 1);
        let a = crate::text::trim_start_set(p, ws);
        assert(a =~= c + seq![' ']);
        assert(a[a.len() - 2] == c[c.len() - 1]);
        crate::text::lemma_trailing_count_unique(a, ws, 1);
        assert(trim(p) =~= c);
    }
}

/// A row of plain cells, rendered as a Markdown pipe row, parses back to the
/// same cells, when it has two cells or more and one of them is not empty.
pub proof fn lemma_markdown_row_round_trip(cells: Seq<Seq<char>>)
    requires
        cells.len() >= 2,
        exists|i: int| 0 <= i < cells.len() && #[trigger] cells[i].len() > 0,
        forall|i: int| 0 <= i < cells.len() ==> is_plain_cell(#[trigger] cells[i]),
    ensures
        pipe_row(markdown_row(cells)) == Some(cells),
{
    let line = markdown_row(cells);
    let core = row_core(cells);
    assert(line =~= seq!['|'] + core + seq!['|']);
    let ws = CharSet::Whitespace;
    let bar = CharSet::Only('|');
    // The line starts and ends with a bar, so trimming whitespace keeps it.
    assert(!in_set(ws, line[0]));
    assert(!in_set(ws, line[line.len() - 1]));
    crate::text::lemma_leading_count_unique(line, ws, 0);
    assert(crate::text::trim_start_set(line, ws) =~= line);
    crate::text::lemma_trailing_count_unique(line, ws, 0);
    assert(trim(line) =~= line);
    assert(line.contains('|')) by {
        assert(line[0] == '|');
    }
    // One bar at each end goes; a space stands next to each.
    assert(line[1] == ' ');
    crate::text::lemma_leading_count_unique(line, bar, 1);
    let a = crate::text::trim_start_set(line, bar);
    assert(a =~= core + seq!['|']);
    assert(a[a.len() - 2] == ' ');
    crate::text::lemma_trailing_count_unique(a, bar, 1);
    assert(trim_set(line, bar) =~= core);
    assert forall|i: int| 0 <= i < cells.len() implies !(#[trigger] cells[i]).contains('|') by {
        assert(is_plain_cell(cells[i]));
    }
    lemma_row_core_split(cells);
    let pieces = split_by(core, bar);
    assert forall|i: int| 0 <= i < cells.len() implies trim(#[trigger] pieces[i]) == cells[i] by {
        assert(is_plain_cell(cells[i]));
        lemma_trim_padded(cells[i]);
    }
    assert(trim_each(pieces) =~= cells);
}


// ---------------------------------------------------------------------------
// Rows of a page's table blocks
// ---------------------------------------------------------------------------

/// The rows of a table grid: each cell trimmed, and only the rows of two
/// cells or more kept.
pub open spec fn grid_rows(rows: Seq<Seq<Seq<char>>>) -> Seq<Seq<Seq<char>>>
    decreases rows.len(),
{
    if rows.len() == 0 {
        seq![]
    } else {
        let prev = grid_rows(rows.drop_last());
        let r = trim_each(rows.last());
        if r.len() >= 2 {
            prev.push(r)
        } else {
            prev
        }
    }
}

/// The rows of a table grid of cell texts.
pub fn table_rows_from_grid(rows: &Vec<Vec<String>>) -> (out: Vec<Vec<String>>)
    ensures
        out.deep_view() == grid_rows(rows.deep_view()),
{
    let ghost rv = rows.deep_view();
    proof {
        lemma_vec_dview(*rows);
    }
    let mut out: Vec<Vec<String>> = Vec::new();
    let mut i: usize = 0;
    while i < rows.len()
        invariant
            i <= rows@.len(),
            rv == rows.deep_view(),
            rv == dview(rows@),
            out.deep_view() == grid_rows(rv.take(i as int)),
        decreases rows@.len() - i,
    {
        proof {
            assert(rv.take(i + 1).drop_last() =~= rv.take(i as int));
            assert(rv.take(i + 1).last() == rows@[i as int].deep_view());
        }
        let t = trim_strings(&rows[i]);
        proof {
            lemma_vec_dview(t);
        }
        if t.len() >= 2 {
            let ghost prev = out@;
            out.push(t);
            proof {
                lemma_vec_dview(out);
                lemma_dview_push(prev, t);
                lemma_vec_dview(out);
            }
        }
        proof {
            lemma_vec_dview(out);
        }
        i += 1;
    }
    proof {
        assert(rv.take(rows@.len() as int) =~= rv);
    }
    out
}

/// A table block of a page: the rows of cell texts of its grid, when the
/// layout found one, and its text.
pub struct TableBlock {
    pub grid: Option<Vec<Vec<String>>>,
    pub text: String,
}

/// The rows of a table block: those of its grid, else those recovered from
/// its text.
pub open spec fn table_block_rows(b: TableBlock) -> Seq<Seq<Seq<char>>> {
    match b.grid {
        Some(g) => grid_rows(g.deep_view()),
        None => parsed_table_rows(b.text@),
    }
}

/// The non-empty row lists of some table blocks, in block order.
pub open spec fn row_groups(blocks: Seq<TableBlock>) -> Seq<Seq<Seq<Seq<char>>>>
    decreases blocks.len(),
{
    if blocks.len() == 0 {
        seq![]
    } else {
        let prev = row_groups(blocks.drop_last());
        let r = table_block_rows(blocks.last());
        if r.len() > 0 {
            prev.push(r)
        } else {
            prev
        }
    }
}

/// The row groups of the table blocks of a page.
pub fn table_row_groups(blocks: &Vec<TableBlock>) -> (groups: Vec<Vec<Vec<String>>>)
    ensures
        groups.deep_view() == row_groups(blocks@),
{
    let mut out: Vec<Vec<Vec<String>>> = Vec::new();
    let mut i: usize = 0;
    while i < blocks.len()
        invariant
            i <= blocks@.len(),
            out.deep_view() == row_groups(blocks@.take(i as int)),
        decreases blocks@.len() - i,
    {
        proof {
            assert(blocks@.take(i + 1).drop_last() =~= blocks@.take(i as int));
            assert(blocks@.take(i + 1).last() == blocks@[i as int]);
        }
        let rows = match &blocks[i].grid {
            Some(g) => table_rows_from_grid(g),
            None => parse_table_rows(blocks[i].text.as_str()),
        };
        proof {
            lemma_vec_dview(rows);
        }
        if rows.len() > 0 {
            let ghost prev = out@;
            out.push(rows);
            proof {
                lemma_vec_dview(out);
                lemma_dview_push(prev, rows);
                lemma_vec_dview(out);
            }
        }
        proof {
            lemma_vec_dview(out);
        }
        i += 1;
    }
    proof {
        assert(blocks@.take(blocks@.len() as int) =~= blocks@);
    }
    out
}

/// The rows of several groups, one group after the other.
pub open spec fn flatten_groups(groups: Seq<Seq<Seq<Seq<char>>>>) -> Seq<Seq<Seq<char>>>
    decreases groups.len(),
{
    if groups.len() == 0 {
        seq![]
    } else {
        flatten_groups(groups.drop_last()) + groups.last()
    }
}

/// The candidate row lists of each group, one group after the other.
pub open spec fn group_candidates(groups: Seq<Seq<Seq<Seq<char>>>>, expected_row_count: nat) -> Seq<
    Seq<Seq<Seq<char>>>,
>
    decreases groups.len(),
{
    if groups.len() == 0 {
        seq![]
    } else {
        group_candidates(groups.drop_last(), expected_row_count) + row_candidates(
            groups.last(),
            expected_row_count,
        )
    }
}

/// The candidate row lists of a page: those of each group and, when there
/// are several groups, those of all their rows together.
pub open spec fn table_candidates(groups: Seq<Seq<Seq<Seq<char>>>>, expected_row_count: nat) -> Seq<
    Seq<Seq<Seq<char>>>,
> {
    group_candidates(groups, expected_row_count) + if groups.len() > 1 {
        row_candidates(flatten_groups(groups), expected_row_count)
    } else {
        seq![]
    }
}

/// The rows of all groups, one group after the other.
pub fn flattened_rows(groups: &Vec<Vec<Vec<String>>>) -> (out: Vec<Vec<String>>)
    ensures
        out.deep_view() == flatten_groups(groups.deep_view()),
{
    let ghost gv = groups.deep_view();
    proof {
        lemma_vec_dview(*groups);
    }
    let mut out: Vec<Vec<String>> = Vec::new();
    let mut i: usize = 0;
    while i < groups.len()
        invariant
            i <= groups@.len(),
            gv == groups.deep_view(),
            gv == dview(groups@),
            out.deep_view() == flatten_groups(gv.take(i as int)),
        decreases groups@.len() - i,
    {
        proof {
            assert(gv.take(i + 1).drop_last() =~= gv.take(i as int));
            assert(gv.take(i + 1).last() == groups@[i as int].deep_view());
            lemma_vec_dview(groups@[i as int]);
        }
        let ghost before = out.deep_view();
        let mut j: usize = 0;
        while j < groups[i].len()
            invariant
                i < groups@.len(),
                j <= groups@[i as int]@.len(),
                out.deep_view() == before + dview(groups@[i as int]@).take(j as int),
            decreases groups@[i as int]@.len() - j,
        {
            let row = groups[i][j].clone();
            proof {
                assert(row.deep_view() =~= groups@[i as int]@[j as int].deep_view());
            }
            let ghost prev = out@;
            out.push(row);
            proof {
                lemma_vec_dview(out);
                lemma_dview_push(prev, row);
                lemma_vec_dview(out);
                assert(out.deep_view() =~= before + dview(groups@[i as int]@).take(j + 1));
            }
            j += 1;
        }
        proof {
            assert(dview(groups@[i as int]@).take(groups@[i as int]@.len() as int) =~= dview(
                groups@[i as int]@,
            ));
        }
        i += 1;
    }
    proof {
        assert(gv.take(groups@.len() as int) =~= gv);
    }
    out
}

/// The candidate row lists for a table expectation of `expected_row_count`
/// rows, from the row groups of the page.
pub fn table_row_candidates(groups: &Vec<Vec<Vec<String>>>, expected_row_count: usize) -> (c: Vec<
    Vec<Vec<String>>,
>)
    ensures
        c.deep_view() == table_candidates(groups.deep_view(), expected_row_count as nat),
{
    let ghost gv = groups.deep_view();
    proof {
        lemma_vec_dview(*groups);
    }
    let mut out: Vec<Vec<Vec<String>>> = Vec::new();
    proof {
        lemma_vec_dview(out);
        assert(out.deep_view() =~= group_candidates(gv.take(0), expected_row_count as nat));
    }
    let mut i: usize = 0;
    while i < groups.len()
        invariant
            i <= groups@.len(),
            gv == groups.deep_view(),
            gv == dview(groups@),
            out.deep_view() == group_candidates(gv.take(i as int), expected_row_count as nat),
        decreases groups@.len() - i,
    {
        proof {
            assert(gv.take(i + 1).drop_last() =~= gv.take(i as int));
            assert(gv.take(i + 1).last() == groups@[i as int].deep_view());
            lemma_vec_dview(groups@[i as int]);
        }
        push_table_row_candidates(&mut out, groups[i].as_slice(), expected_row_count);
        i += 1;
    }
    proof {
        assert(gv.take(groups@.len() as int) =~= gv);
    }
    if groups.len() > 1 {
        let flat = flattened_rows(groups);
        proof {
            lemma_vec_dview(flat);
        }
        push_table_row_candidates(&mut out, flat.as_slice(), expected_row_count);
    } else {
        assert(out.deep_view() =~= table_candidates(gv, expected_row_count as nat));
    }
    out
}

/// All rows of a page's table blocks, block after block.
pub fn table_rows_for_page(blocks: &Vec<TableBlock>) -> (rows: Vec<Vec<String>>)
    ensures
        rows.deep_view() == flatten_groups(row_groups(blocks@)),
{
    let groups = table_row_groups(blocks);
    flattened_rows(&groups)
}

/// The table blocks of one page.
pub struct PageTableBlocks {
    pub page_index: u32,
    pub blocks: Vec<TableBlock>,
}

/// A generated table expectation: a page and all rows of its tables.
pub struct GeneratedTableExpectation {
    pub page: u32,
    pub expected_rows: Vec<Vec<String>>,
}

/// The pages, in order, whose tables hold two rows or more, with those rows.
pub open spec fn generated_tables(pages: Seq<PageTableBlocks>) -> Seq<(u32, Seq<Seq<Seq<char>>>)>
    decreases pages.len(),
{
    if pages.len() == 0 {
        seq![]
    } else {
        let prev = generated_tables(pages.drop_last());
        let rows = flatten_groups(row_groups(pages.last().blocks@));
        if rows.len() >= 2 {
            prev.push((pages.last().page_index, rows))
        } else {
            prev
        }
    }
}

pub open spec fn generated_table_view(t: GeneratedTableExpectation) -> (u32, Seq<Seq<Seq<char>>>) {
    (t.page, t.expected_rows.deep_view())
}

/// The table expectations a generated manifest holds: one for each page
/// whose tables hold two rows or more, expecting all those rows.
pub fn generated_table_structure_expectations(pages: &Vec<PageTableBlocks>) -> (r: Vec<GeneratedTableExpectation>)
    ensures
        r@.map_values(|t: GeneratedTableExpectation| generated_table_view(t)) == generated_tables(pages@),
{
    let mut out: Vec<GeneratedTableExpectation> = Vec::new();
    let mut i: usize = 0;
    while i < pages.len()
        invariant
            i <= pages@.len(),
            out@.map_values(|t: GeneratedTableExpectation| generated_table_view(t)) == generated_tables(
                pages@.take(i as int),
            ),
        decreases pages@.len() - i,
    {
        proof {
            assert(pages@.take(i + 1).drop_last() =~= pages@.take(i as int));
            assert(pages@.take(i + 1).last() == pages@[i as int]);
        }
        let rows = table_rows_for_page(&pages[i].blocks);
        proof {
            lemma_vec_dview(rows);
        }
        if rows.len() >= 2 {
            let t = GeneratedTableExpectation { page: pages[i].page_index, expected_rows: rows };
            let ghost prev = out@;
            out.push(t);
            proof {
                assert(out@.map_values(|t: GeneratedTableExpectation| generated_table_view(t))
                    =~= prev.map_values(|t: GeneratedTableExpectation| generated_table_view(t)).push(
                    generated_table_view(t),
                ));
            }
        }
        i += 1;
    }
    proof {
        assert(pages@.take(pages@.len() as int) =~= pages@);
    }
    out
}

/// The widest row's cell count; zero for no rows.
pub open spec fn max_width(rows: Seq<Seq<Seq<char>>>) -> nat
    decreases rows.len(),
{
    if rows.len() == 0 {
        0
    } else {
        let m = max_width(rows.drop_last());
        if rows.last().len() > m {
            rows.last().len()
        } else {
            m
        }
    }
}

/// Rows as pipe-table text, each padded with empty cells to the widest
/// row, one per line; only for two rows or more, two cells wide or more.
pub open spec fn structured_text(rows: Seq<Seq<Seq<char>>>) -> Option<Seq<char>> {
    if rows.len() < 2 || max_width(rows) < 2 {
        None
    } else {
        Some(
            join_with(
                rows.map_values(|r: Seq<Seq<char>>| markdown_row(resized_row(r, max_width(rows)))),
                seq!['\n'],
            ),
        )
    }
}

/// The text of a table grid for structure checks.
pub fn structured_table_text(grid: &Vec<Vec<String>>) -> (r: Option<String>)
    ensures
        r matches Some(s) ==> structured_text(grid_rows(grid.deep_view())) == Some(s@),
        r is None <==> structured_text(grid_rows(grid.deep_view())) is None,
{
    let rows = table_rows_from_grid(grid);
    let ghost rv = rows.deep_view();
    proof {
        lemma_vec_dview(rows);
    }
    let mut width: usize = 0;
    let mut i: usize = 0;
    while i < rows.len()
        invariant
            i <= rows@.len(),
            rv == dview(rows@),
            width == max_width(rv.take(i as int)),
        decreases rows@.len() - i,
    {
        proof {
            assert(rv.take(i + 1).drop_last() =~= rv.take(i as int));
            assert(rv.take(i + 1).last() == rows@[i as int].deep_view());
            lemma_vec_dview(rows@[i as int]);
        }
        if rows[i].len() > width {
            width = rows[i].len();
        }
        i += 1;
    }
    proof {
        assert(rv.take(rows@.len() as int) =~= rv);
    }
    if rows.len() < 2 || width < 2 {
        return None;
    }
    let ghost lines = rv.map_values(|r: Seq<Seq<char>>| markdown_row(resized_row(r, width as nat)));
    let mut out: Vec<String> = Vec::new();
    let mut k: usize = 0;
    while k < rows.len()
        invariant
            k <= rows@.len(),
            rv == dview(rows@),
            lines == rv.map_values(|r: Seq<Seq<char>>| markdown_row(resized_row(r, width as nat))),
            out.deep_view() == lines.take(k as int),
        decreases rows@.len() - k,
    {
        let line = format_structured_table_text_row(rows[k].as_slice(), width);
        let ghost prev = out@;
        out.push(line);
        proof {
            lemma_vec_dview(out);
            lemma_dview_push(prev, line);
            lemma_vec_dview(out);
            assert(out.deep_view() =~= lines.take(k + 1));
        }
        k += 1;
    }
    proof {
        assert(lines.take(rows@.len() as int) =~= lines);
        reveal_strlit("\n");
        let sp = rv.map_values(|r: Seq<Seq<char>>| markdown_row(resized_row(r, max_width(rv))));
        assert(sp =~= lines);
        assert(rv == grid_rows(grid.deep_view()));
        assert(structured_text(rv) == Some(join_with(sp, seq!['\n'])));
    }
    let newline = "\n";
    assert(newline@ =~= seq!['\n']);
    let joined = join_strings(&out, newline);
    assert(out.deep_view() == lines);
    assert(joined@ == join_with(lines, seq!['\n']));
    Some(joined)
}

} // verus!
