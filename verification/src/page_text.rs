//! The text of a page as quality checks read it: its layout blocks (tables
//! as padded pipe rows where their grid allows), or its trimmed spans where
//! layout found no block, then the OCR spans that text does not already
//! hold; one part per line. The plain text output and the document text
//! are built from it.
use vstd::prelude::*;

use crate::markdown::{all_span_texts, span_texts, string_views, LayoutBlockKind, LayoutBlockText, PageText};
use crate::metrics::{add_table_summary_counts, DebugLayoutSummary};
use crate::tables::{grid_rows, parsed_table_rows, structured_table_text, structured_text};
use crate::text::{
    append_chars, chars_of, contains_chars, join_strings, join_with, lit, nonempty_pieces,
    seq_contains, string_of, trim, trim_str,
};

verus! {

/// A block's text for quality checks: a table with a grid that renders as
/// structured text gives that text; any other block its trimmed text.
pub open spec fn quality_block_text(b: LayoutBlockText) -> Seq<char> {
    if b.kind == LayoutBlockKind::Table && b.grid is Some && structured_text(
        grid_rows(b.grid->0.deep_view()),
    ) is Some {
        structured_text(grid_rows(b.grid->0.deep_view()))->0
    } else {
        trim(b.text@)
    }
}

/// The non-empty parts of a page before OCR spans are added.
pub open spec fn quality_parts(p: PageText) -> Seq<Seq<char>> {
    if p.layout_blocks@.len() == 0 {
        nonempty_pieces(span_texts(p).map_values(|t: Seq<char>| trim(t)))
    } else {
        nonempty_pieces(p.layout_blocks@.map_values(|b: LayoutBlockText| quality_block_text(b)))
    }
}

/// The parts with each trimmed OCR span added that is not empty and does
/// not occur in `existing`.
pub open spec fn with_ocr_spans(parts: Seq<Seq<char>>, existing: Seq<char>, ocr: Seq<Seq<char>>) -> Seq<Seq<char>>
    decreases ocr.len(),
{
    if ocr.len() == 0 {
        parts
    } else {
        let prev = with_ocr_spans(parts, existing, ocr.drop_last());
        let t = trim(ocr.last());
        if t.len() > 0 && !seq_contains(existing, t) {
            prev.push(t)
        } else {
            prev
        }
    }
}

/// The text of a page for quality checks.
pub open spec fn quality_text(p: PageText) -> Seq<char> {
    let parts = quality_parts(p);
    join_with(
        with_ocr_spans(parts, join_with(parts, seq!['\n']), string_views(p.ocr_span_texts@)),
        seq!['\n'],
    )
}

fn quality_block_text_exec(b: &LayoutBlockText) -> (r: String)
    ensures
        r@ == quality_block_text(*b),
{
    if b.kind == LayoutBlockKind::Table {
        if let Some(g) = &b.grid {
            if let Some(t) = structured_table_text(g) {
                return t;
            }
        }
    }
    trim_str(b.text.as_str())
}

fn quality_parts_exec(p: &PageText) -> (r: Vec<String>)
    ensures
        string_views(r@) == quality_parts(*p),
{
    let mut out: Vec<String> = Vec::new();
    if p.layout_blocks.len() == 0 {
        let spans = all_span_texts(p);
        let ghost ts = span_texts(*p).map_values(|t: Seq<char>| trim(t));
        let mut i: usize = 0;
        while i < spans.len()
            invariant
                i <= spans@.len(),
                string_views(spans@) == span_texts(*p),
                ts == span_texts(*p).map_values(|t: Seq<char>| trim(t)),
                string_views(out@) == nonempty_pieces(ts.take(i as int)),
            decreases spans@.len() - i,
        {
            proof {
                assert(ts.take(i + 1).drop_last() =~= ts.take(i as int));
                assert(ts.take(i + 1).last() == trim(spans@[i as int]@));
            }
            let t = trim_str(spans[i].as_str());
            if chars_of(t.as_str()).len() > 0 {
                let ghost prev = out@;
                out.push(t);
                proof {
                    assert(string_views(out@) =~= string_views(prev).push(t@));
                }
            }
            i += 1;
        }
        proof {
            assert(ts.take(spans@.len() as int) =~= ts);
        }
    } else {
        let ghost bs = p.layout_blocks@.map_values(|b: LayoutBlockText| quality_block_text(b));
        let mut i: usize = 0;
        while i < p.layout_blocks.len()
            invariant
                i <= p.layout_blocks@.len(),
                bs == p.layout_blocks@.map_values(|b: LayoutBlockText| quality_block_text(b)),
                string_views(out@) == nonempty_pieces(bs.take(i as int)),
            decreases p.layout_blocks@.len() - i,
        {
            proof {
                assert(bs.take(i + 1).drop_last() =~= bs.take(i as int));
                assert(bs.take(i + 1).last() == quality_block_text(p.layout_blocks@[i as int]));
            }
            let t = quality_block_text_exec(&p.layout_blocks[i]);
            if chars_of(t.as_str()).len() > 0 {
                let ghost prev = out@;
                out.push(t);
                proof {
                    assert(string_views(out@) =~= string_views(prev).push(t@));
                }
            }
            i += 1;
        }
        proof {
            assert(bs.take(p.layout_blocks@.len() as int) =~= bs);
        }
    }
    out
}

proof fn lemma_string_views_dview(v: Vec<String>)
    ensures
        v.deep_view() == string_views(v@),
{
    assert(v.deep_view() =~= string_views(v@));
}

/// The text of a page for quality checks.
pub fn quality_text_from_page(p: &PageText) -> (r: String)
    ensures
        r@ == quality_text(*p),
{
    let mut parts = quality_parts_exec(p);
    let ghost base = string_views(parts@);
    let newline = "\n";
    proof {
        reveal_strlit("\n");
        lemma_string_views_dview(parts);
    }
    assert(newline@ =~= seq!['\n']);
    let existing = join_strings(&parts, newline);
    let existing_chars = chars_of(existing.as_str());
    let ghost ocr = string_views(p.ocr_span_texts@);
    let mut i: usize = 0;
    while i < p.ocr_span_texts.len()
        invariant
            i <= p.ocr_span_texts@.len(),
            ocr == string_views(p.ocr_span_texts@),
            existing_chars@ == join_with(base, seq!['\n']),
            string_views(parts@) == with_ocr_spans(base, existing_chars@, ocr.take(i as int)),
        decreases p.ocr_span_texts@.len() - i,
    {
        proof {
            assert(ocr.take(i + 1).drop_last() =~= ocr.take(i as int));
            assert(ocr.take(i + 1).last() == p.ocr_span_texts@[i as int]@);
        }
        let t = trim_str(p.ocr_span_texts[i].as_str());
        let tc = chars_of(t.as_str());
        if tc.len() > 0 && !contains_chars(&existing_chars, &tc) {
            let ghost prev = parts@;
            parts.push(t);
            proof {
                assert(string_views(parts@) =~= string_views(prev).push(t@));
            }
        }
        i += 1;
    }
    proof {
        assert(ocr.take(p.ocr_span_texts@.len() as int) =~= ocr);
        lemma_string_views_dview(parts);
    }
    join_strings(&parts, newline)
}

/// A page's plain text: its quality text and a line break, or nothing
/// when that text is empty.
pub open spec fn plain_text(p: PageText) -> Seq<char> {
    if quality_text(p).len() == 0 {
        seq![]
    } else {
        quality_text(p) + seq!['\n']
    }
}

pub fn plain_text_from_page(p: &PageText) -> (r: String)
    ensures
        r@ == plain_text(*p),
{
    let t = quality_text_from_page(p);
    let mut v = chars_of(t.as_str());
    if v.len() > 0 {
        let nl = lit("\n");
        proof {
            reveal_strlit("\n");
        }
        append_chars(&mut v, &nl);
    }
    string_of(&v)
}

/// The plain texts of some pages, one after the other.
pub open spec fn plain_text_of_pages(pages: Seq<PageText>) -> Seq<char>
    decreases pages.len(),
{
    if pages.len() == 0 {
        seq![]
    } else {
        plain_text_of_pages(pages.drop_last()) + plain_text(pages.last())
    }
}

/// The plain text of a document: its pages' plain texts, one after the
/// other.
pub fn plain_text_from_artifact(pages: &Vec<PageText>) -> (r: String)
    ensures
        r@ == plain_text_of_pages(pages@),
{
    let mut out: Vec<char> = Vec::new();
    let mut i: usize = 0;
    while i < pages.len()
        invariant
            i <= pages@.len(),
            out@ == plain_text_of_pages(pages@.take(i as int)),
        decreases pages@.len() - i,
    {
        proof {
            assert(pages@.take(i + 1).drop_last() =~= pages@.take(i as int));
            assert(pages@.take(i + 1).last() == pages@[i as int]);
        }
        let t = plain_text_from_page(&pages[i]);
        let tv = chars_of(t.as_str());
        append_chars(&mut out, &tv);
        i += 1;
    }
    proof {
        assert(pages@.take(pages@.len() as int) =~= pages@);
    }
    string_of(&out)
}

/// The text of a document for quality checks: its pages' quality texts, one
/// per line.
pub fn document_text(pages: &Vec<PageText>) -> (r: String)
    ensures
        r@ == join_with(pages@.map_values(|p: PageText| quality_text(p)), seq!['\n']),
{
    let ghost all = pages@.map_values(|p: PageText| quality_text(p));
    let mut texts: Vec<String> = Vec::new();
    let mut i: usize = 0;
    while i < pages.len()
        invariant
            i <= pages@.len(),
            all == pages@.map_values(|p: PageText| quality_text(p)),
            string_views(texts@) == all.take(i as int),
        decreases pages@.len() - i,
    {
        let t = quality_text_from_page(&pages[i]);
        let ghost prev = texts@;
        texts.push(t);
        proof {
            assert(string_views(texts@) =~= string_views(prev).push(t@));
            assert(all.take(i + 1) =~= all.take(i as int).push(all[i as int]));
        }
        i += 1;
    }
    proof {
        assert(all.take(pages@.len() as int) =~= all);
        lemma_string_views_dview(texts);
        reveal_strlit("\n");
    }
    let newline = "\n";
    assert(newline@ =~= seq!['\n']);
    join_strings(&texts, newline)
}

/// How many pages have no plain text.
pub open spec fn empty_text_pages(pages: Seq<PageText>) -> nat
    decreases pages.len(),
{
    if pages.len() == 0 {
        0
    } else {
        empty_text_pages(pages.drop_last()) + if plain_text(pages.last()).len() == 0 {
            1nat
        } else {
            0nat
        }
    }
}

/// Counts the pages whose plain text is empty.
pub fn empty_text_output_page_count(pages: &Vec<PageText>) -> (n: usize)
    ensures
        n == empty_text_pages(pages@),
{
    let mut n: usize = 0;
    let mut i: usize = 0;
    while i < pages.len()
        invariant
            i <= pages@.len(),
            n == empty_text_pages(pages@.take(i as int)),
            n <= i,
        decreases pages@.len() - i,
    {
        proof {
            assert(pages@.take(i + 1).drop_last() =~= pages@.take(i as int));
            assert(pages@.take(i + 1).last() == pages@[i as int]);
        }
        let t = plain_text_from_page(&pages[i]);
        if chars_of(t.as_str()).len() == 0 {
            n = n + 1;
        }
        i += 1;
    }
    proof {
        assert(pages@.take(pages@.len() as int) =~= pages@);
    }
    n
}

// ---------------------------------------------------------------------------
// Layout summary
// ---------------------------------------------------------------------------

/// The cells of some rows, counted.
pub open spec fn cell_count(rows: Seq<Seq<Seq<char>>>) -> nat
    decreases rows.len(),
{
    if rows.len() == 0 {
        0
    } else {
        cell_count(rows.drop_last()) + rows.last().len()
    }
}

/// What a table block adds to the table counts: its rows (those of its grid,
/// else those recovered from its text), its cells (all of the grid's, else
/// those of the recovered rows), and its cells with a bounding box (none
/// without a grid).
pub open spec fn table_contribution(b: LayoutBlockText) -> (nat, nat, nat) {
    match b.grid {
        Some(g) => (grid_rows(g.deep_view()).len(), cell_count(g.deep_view()), b.grid_cells_with_bbox as nat),
        None => (parsed_table_rows(b.text@).len(), cell_count(parsed_table_rows(b.text@)), 0),
    }
}

/// How many blocks are of a kind.
pub open spec fn kind_count(blocks: Seq<LayoutBlockText>, kind: LayoutBlockKind) -> nat
    decreases blocks.len(),
{
    if blocks.len() == 0 {
        0
    } else {
        kind_count(blocks.drop_last(), kind) + if blocks.last().kind == kind {
            1nat
        } else {
            0nat
        }
    }
}

/// The table rows, cells and cells with a bounding box of some blocks'
/// tables, added up.
pub open spec fn table_totals(blocks: Seq<LayoutBlockText>) -> (nat, nat, nat)
    decreases blocks.len(),
{
    if blocks.len() == 0 {
        (0, 0, 0)
    } else {
        let prev = table_totals(blocks.drop_last());
        if blocks.last().kind == LayoutBlockKind::Table {
            let c = table_contribution(blocks.last());
            (prev.0 + c.0, prev.1 + c.1, prev.2 + c.2)
        } else {
            prev
        }
    }
}

/// The layout summary of a page's blocks: how many of each kind, and, when
/// it has a table, the table counts added up.
pub open spec fn layout_summary(blocks: Seq<LayoutBlockText>) -> DebugLayoutSummary {
    let has_table = kind_count(blocks, LayoutBlockKind::Table) > 0;
    let t = table_totals(blocks);
    DebugLayoutSummary {
        block_count: blocks.len() as usize,
        paragraph_blocks: kind_count(blocks, LayoutBlockKind::Paragraph) as usize,
        heading_blocks: kind_count(blocks, LayoutBlockKind::Heading) as usize,
        list_blocks: kind_count(blocks, LayoutBlockKind::List) as usize,
        table_blocks: kind_count(blocks, LayoutBlockKind::Table) as usize,
        table_rows: if has_table {
            Some(t.0 as usize)
        } else {
            None
        },
        table_cells: if has_table {
            Some(t.1 as usize)
        } else {
            None
        },
        table_cells_with_bbox: if has_table {
            Some(t.2 as usize)
        } else {
            None
        },
        figure_blocks: kind_count(blocks, LayoutBlockKind::Figure) as usize,
        header_blocks: kind_count(blocks, LayoutBlockKind::Header) as usize,
        footer_blocks: kind_count(blocks, LayoutBlockKind::Footer) as usize,
    }
}

proof fn lemma_kind_count_bound(blocks: Seq<LayoutBlockText>, kind: LayoutBlockKind)
    ensures
        kind_count(blocks, kind) <= blocks.len(),
    decreases blocks.len(),
{
    if blocks.len() > 0 {
        lemma_kind_count_bound(blocks.drop_last(), kind);
    }
}

proof fn lemma_no_table_no_totals(blocks: Seq<LayoutBlockText>)
    requires
        kind_count(blocks, LayoutBlockKind::Table) == 0,
    ensures
        table_totals(blocks) == (0nat, 0nat, 0nat),
    decreases blocks.len(),
{
    if blocks.len() > 0 {
        lemma_no_table_no_totals(blocks.drop_last());
    }
}

proof fn lemma_table_totals_prefix(blocks: Seq<LayoutBlockText>, i: int)
    requires
        0 <= i <= blocks.len(),
    ensures
        table_totals(blocks.take(i)).0 <= table_totals(blocks).0,
        table_totals(blocks.take(i)).1 <= table_totals(blocks).1,
        table_totals(blocks.take(i)).2 <= table_totals(blocks).2,
    decreases blocks.len() - i,
{
    if i < blocks.len() {
        lemma_table_totals_prefix(blocks, i + 1);
        assert(blocks.take(i + 1).drop_last() =~= blocks.take(i));
    } else {
        assert(blocks.take(i) =~= blocks);
    }
}

fn cell_count_exec(rows: &Vec<Vec<String>>) -> (n: usize)
    requires
        cell_count(rows.deep_view()) <= usize::MAX,
    ensures
        n == cell_count(rows.deep_view()),
{
    let ghost rv = rows.deep_view();
    proof {
        crate::views::lemma_vec_dview(*rows);
    }
    let mut n: usize = 0;
    let mut i: usize = 0;
    while i < rows.len()
        invariant
            i <= rows@.len(),
            rv == rows.deep_view(),
            rv == crate::views::dview(rows@),
            cell_count(rv) <= usize::MAX,
            n == cell_count(rv.take(i as int)),
        decreases rows@.len() - i,
    {
        proof {
            assert(rv.take(i + 1).drop_last() =~= rv.take(i as int));
            assert(rv.take(i + 1).last() == rows@[i as int].deep_view());
            crate::views::lemma_vec_dview(rows@[i as int]);
            lemma_cell_count_prefix(rv, i + 1);
        }
        n = n + rows[i].len();
        i += 1;
    }
    proof {
        assert(rv.take(rows@.len() as int) =~= rv);
    }
    n
}

proof fn lemma_cell_count_prefix(rows: Seq<Seq<Seq<char>>>, i: int)
    requires
        0 <= i <= rows.len(),
    ensures
        cell_count(rows.take(i)) <= cell_count(rows),
    decreases rows.len() - i,
{
    if i < rows.len() {
        lemma_cell_count_prefix(rows, i + 1);
        assert(rows.take(i + 1).drop_last() =~= rows.take(i));
    } else {
        assert(rows.take(i) =~= rows);
    }
}

fn table_contribution_exec(b: &LayoutBlockText) -> (r: (usize, usize, usize))
    requires
        table_contribution(*b).0 <= usize::MAX,
        table_contribution(*b).1 <= usize::MAX,
    ensures
        (r.0 as nat, r.1 as nat, r.2 as nat) == table_contribution(*b),
{
    match &b.grid {
        Some(g) => {
            let rows = crate::tables::table_rows_from_grid(g);
            proof {
                crate::views::lemma_vec_dview(rows);
            }
            (rows.len(), cell_count_exec(g), b.grid_cells_with_bbox)
        },
        None => {
            let rows = crate::tables::parse_table_rows(b.text.as_str());
            proof {
                crate::views::lemma_vec_dview(rows);
            }
            (rows.len(), cell_count_exec(&rows), 0)
        },
    }
}

/// The layout summary of a page from its blocks; the table counts must fit
/// a `usize`.
pub fn layout_summary_from_page(p: &PageText) -> (r: DebugLayoutSummary)
    requires
        table_totals(p.layout_blocks@).0 <= usize::MAX,
        table_totals(p.layout_blocks@).1 <= usize::MAX,
        table_totals(p.layout_blocks@).2 <= usize::MAX,
    ensures
        r == layout_summary(p.layout_blocks@),
{
    let ghost bs = p.layout_blocks@;
    let mut r = DebugLayoutSummary {
        block_count: p.layout_blocks.len(),
        paragraph_blocks: 0,
        heading_blocks: 0,
        list_blocks: 0,
        table_blocks: 0,
        table_rows: None,
        table_cells: None,
        table_cells_with_bbox: None,
        figure_blocks: 0,
        header_blocks: 0,
        footer_blocks: 0,
    };
    let mut i: usize = 0;
    while i < p.layout_blocks.len()
        invariant
            i <= bs.len(),
            bs == p.layout_blocks@,
            table_totals(bs).0 <= usize::MAX,
            table_totals(bs).1 <= usize::MAX,
            table_totals(bs).2 <= usize::MAX,
            r == (DebugLayoutSummary { block_count: bs.len() as usize, ..layout_summary(bs.take(i as int)) }),
        decreases bs.len() - i,
    {
        let ghost pre = bs.take(i as int);
        proof {
            assert(bs.take(i + 1).drop_last() =~= pre);
            assert(bs.take(i + 1).last() == bs[i as int]);
            lemma_kind_count_bound(pre, LayoutBlockKind::Paragraph);
            lemma_kind_count_bound(pre, LayoutBlockKind::Heading);
            lemma_kind_count_bound(pre, LayoutBlockKind::List);
            lemma_kind_count_bound(pre, LayoutBlockKind::Table);
            lemma_kind_count_bound(pre, LayoutBlockKind::Figure);
            lemma_kind_count_bound(pre, LayoutBlockKind::Header);
            lemma_kind_count_bound(pre, LayoutBlockKind::Footer);
            lemma_table_totals_prefix(bs, i + 1);
            lemma_table_totals_prefix(bs, i as int);
        }
        let b = &p.layout_blocks[i];
        match b.kind {
            LayoutBlockKind::Paragraph => r.paragraph_blocks = r.paragraph_blocks + 1,
            LayoutBlockKind::Heading => r.heading_blocks = r.heading_blocks + 1,
            LayoutBlockKind::List => r.list_blocks = r.list_blocks + 1,
            LayoutBlockKind::Table => {
                r.table_blocks = r.table_blocks + 1;
                let (rows, cells, with_bbox) = table_contribution_exec(b);
                add_table_summary_counts(&mut r, rows, cells, with_bbox);
            },
            LayoutBlockKind::Figure => r.figure_blocks = r.figure_blocks + 1,
            LayoutBlockKind::Header => r.header_blocks = r.header_blocks + 1,
            LayoutBlockKind::Footer => r.footer_blocks = r.footer_blocks + 1,
        }
        proof {
            let post = bs.take(i + 1);
            assert(post.drop_last() == pre);
            assert(post.last() == *b);
            assert(table_totals(post) == (if b.kind == LayoutBlockKind::Table {
                let c = table_contribution(*b);
                (table_totals(pre).0 + c.0, table_totals(pre).1 + c.1, table_totals(pre).2 + c.2)
            } else {
                table_totals(pre)
            }));
            let t0 = table_totals(pre);
            let t1 = table_totals(post);
            assert(t0.0 <= t1.0 <= usize::MAX);
            assert(t0.1 <= t1.1 <= usize::MAX);
            assert(t0.2 <= t1.2 <= usize::MAX);
            if b.kind == LayoutBlockKind::Table {
                assert(kind_count(post, LayoutBlockKind::Table) == kind_count(pre, LayoutBlockKind::Table) + 1);
                if kind_count(pre, LayoutBlockKind::Table) == 0 {
                    lemma_no_table_no_totals(pre);
                }
            } else {
                assert(kind_count(post, LayoutBlockKind::Table) == kind_count(pre, LayoutBlockKind::Table));
            }
            assert(r == (DebugLayoutSummary { block_count: bs.len() as usize, ..layout_summary(post) }));
        }
        i += 1;
    }
    proof {
        assert(bs.take(bs.len() as int) =~= bs);
    }
    r
}

} // verus!
