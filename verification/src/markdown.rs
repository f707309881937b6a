//! Markdown output of a document: each page's layout blocks rendered as
//! Markdown (headings with `# `, tables as pipe tables where they can be),
//! or its text spans where layout found no block, and the pages joined with
//! horizontal rules.
use vstd::prelude::*;

use crate::tables::{
    block_rows, grid_rows, markdown_table, markdown_table_block, markdown_table_rows,
    renders_as_markdown, table_rows_from_grid,
};
use crate::text::{append_chars, chars_of, copy_string, lit, nonempty_pieces, string_of, trim, trim_str};

verus! {

/// The kinds of layout blocks.
#[derive(Clone, Copy, PartialEq, Eq, Structural, Debug)]
pub enum LayoutBlockKind {
    Paragraph,
    Heading,
    List,
    Table,
    Figure,
    Header,
    Footer,
}

/// A layout block: its kind, its text, and for a table the rows of cell
/// texts of its grid, when layout found one, and how many of the grid's
/// cells have a bounding box.
pub struct LayoutBlockText {
    pub kind: LayoutBlockKind,
    pub text: String,
    pub grid: Option<Vec<Vec<String>>>,
    pub grid_cells_with_bbox: usize,
}

/// The text of a page: its layout blocks, and the texts of its native and
/// of its OCR text spans.
pub struct PageText {
    pub layout_blocks: Vec<LayoutBlockText>,
    pub native_span_texts: Vec<String>,
    pub ocr_span_texts: Vec<String>,
}

/// A table's rows as a Markdown table, when they render as one.
pub open spec fn rows_markdown(rows: Seq<Seq<Seq<char>>>) -> Option<Seq<char>> {
    if renders_as_markdown(rows) {
        Some(markdown_table(rows))
    } else {
        None
    }
}

/// Table text as a Markdown table, when each line is a table row and the
/// rows render as one.
pub open spec fn text_markdown(text: Seq<char>) -> Option<Seq<char>> {
    match block_rows(text) {
        Some(rows) => rows_markdown(rows),
        None => None,
    }
}

/// A block in Markdown: a heading behind `# `; a table from its grid, else
/// from its text, else as its trimmed text; any other block as its trimmed
/// text.
pub open spec fn block_markdown(b: LayoutBlockText) -> Seq<char> {
    match b.kind {
        LayoutBlockKind::Heading => "# "@ + trim(b.text@),
        LayoutBlockKind::Table => {
            let from_grid = match b.grid {
                Some(g) => rows_markdown(grid_rows(g.deep_view())),
                None => None,
            };
            match from_grid {
                Some(s) => s,
                None => match text_markdown(b.text@) {
                    Some(s) => s,
                    None => trim(b.text@),
                },
            }
        },
        _ => trim(b.text@),
    }
}

pub open spec fn string_views(v: Seq<String>) -> Seq<Seq<char>> {
    v.map_values(|s: String| s@)
}

/// The texts of a page's spans: the native ones, then those of OCR.
pub open spec fn span_texts(p: PageText) -> Seq<Seq<char>> {
    string_views(p.native_span_texts@ + p.ocr_span_texts@)
}

/// The texts of a page's spans, the native ones first.
pub fn all_span_texts(p: &PageText) -> (r: Vec<String>)
    ensures
        string_views(r@) == span_texts(*p),
{
    let mut out: Vec<String> = Vec::new();
    let mut i: usize = 0;
    while i < p.native_span_texts.len()
        invariant
            i <= p.native_span_texts@.len(),
            string_views(out@) == string_views(p.native_span_texts@.take(i as int)),
        decreases p.native_span_texts@.len() - i,
    {
        let t = copy_string(&p.native_span_texts[i]);
        let ghost prev = out@;
        out.push(t);
        proof {
            assert(string_views(out@) =~= string_views(prev).push(t@));
            assert(p.native_span_texts@.take(i + 1) =~= p.native_span_texts@.take(i as int).push(
                p.native_span_texts@[i as int],
            ));
            assert(string_views(out@) =~= string_views(p.native_span_texts@.take(i + 1)));
        }
        i += 1;
    }
    proof {
        assert(p.native_span_texts@.take(p.native_span_texts@.len() as int) =~= p.native_span_texts@);
        assert(p.native_span_texts@ + p.ocr_span_texts@.take(0) =~= p.native_span_texts@);
    }
    let mut j: usize = 0;
    while j < p.ocr_span_texts.len()
        invariant
            j <= p.ocr_span_texts@.len(),
            string_views(out@) == string_views(p.native_span_texts@ + p.ocr_span_texts@.take(j as int)),
        decreases p.ocr_span_texts@.len() - j,
    {
        let t = copy_string(&p.ocr_span_texts[j]);
        let ghost prev = out@;
        out.push(t);
        proof {
            assert(string_views(out@) =~= string_views(prev).push(t@));
            assert(p.native_span_texts@ + p.ocr_span_texts@.take(j + 1) =~= (p.native_span_texts@
                + p.ocr_span_texts@.take(j as int)).push(p.ocr_span_texts@[j as int]));
            assert(string_views(out@) =~= string_views(
                p.native_span_texts@ + p.ocr_span_texts@.take(j + 1),
            ));
        }
        j += 1;
    }
    proof {
        assert(p.native_span_texts@ + p.ocr_span_texts@.take(p.ocr_span_texts@.len() as int)
            =~= p.native_span_texts@ + p.ocr_span_texts@);
    }
    out
}

/// The Markdown blocks of a page, the empty ones left out: its layout
/// blocks, or its trimmed span texts where it has no layout block.
pub open spec fn page_markdown_blocks(p: PageText) -> Seq<Seq<char>> {
    if p.layout_blocks@.len() == 0 {
        nonempty_pieces(span_texts(p).map_values(|t: Seq<char>| trim(t)))
    } else {
        nonempty_pieces(p.layout_blocks@.map_values(|b: LayoutBlockText| block_markdown(b)))
    }
}

fn block_markdown_exec(b: &LayoutBlockText) -> (r: String)
    ensures
        r@ == block_markdown(*b),
{
    match b.kind {
        LayoutBlockKind::Heading => {
            let mut v = lit("# ");
            let t = trim_str(b.text.as_str());
            let tv = chars_of(t.as_str());
            append_chars(&mut v, &tv);
            string_of(&v)
        },
        LayoutBlockKind::Table => {
            let from_grid = match &b.grid {
                Some(g) => {
                    let rows = table_rows_from_grid(g);
                    proof {
                        crate::views::lemma_vec_dview(rows);
                    }
                    markdown_table_rows(rows.as_slice())
                },
                None => None,
            };
            match from_grid {
                Some(s) => s,
                None => match markdown_table_block(b.text.as_str()) {
                    Some(s) => s,
                    None => trim_str(b.text.as_str()),
                },
            }
        },
        _ => trim_str(b.text.as_str()),
    }
}

/// The Markdown blocks of a page, in order, the empty ones left out.
pub fn markdown_blocks(p: &PageText) -> (r: Vec<String>)
    ensures
        string_views(r@) == page_markdown_blocks(*p),
{
    let mut out: Vec<String> = Vec::new();
    if p.layout_blocks.len() == 0 {
        let spans = all_span_texts(p);
        let ghost ts = span_texts(*p).map_values(|t: Seq<char>| trim(t));
        let mut i: usize = 0;
        while i < spans.len()
            invariant
                i <= spans@.len(),
                string_views(spans@) == span_texts(*p),
                ts == span_texts(*p).map_values(|t: Seq<char>| trim(t)),
                string_views(out@) == nonempty_pieces(ts.take(i as int)),
            decreases spans@.len() - i,
        {
            proof {
                assert(ts.take(i + 1).drop_last() =~= ts.take(i as int));
                assert(ts.take(i + 1).last() == trim(spans@[i as int]@));
            }
            let t = trim_str(spans[i].as_str());
            if chars_of(t.as_str()).len() > 0 {
                let ghost prev = out@;
                out.push(t);
                proof {
                    assert(string_views(out@) =~= string_views(prev).push(t@));
                }
            }
            i += 1;
        }
        proof {
            assert(ts.take(spans@.len() as int) =~= ts);
        }
    } else {
        let ghost bs = p.layout_blocks@.map_values(|b: LayoutBlockText| block_markdown(b));
        let mut i: usize = 0;
        while i < p.layout_blocks.len()
            invariant
                i <= p.layout_blocks@.len(),
                bs == p.layout_blocks@.map_values(|b: LayoutBlockText| block_markdown(b)),
                string_views(out@) == nonempty_pieces(bs.take(i as int)),
            decreases p.layout_blocks@.len() - i,
        {
            proof {
                assert(bs.take(i + 1).drop_last() =~= bs.take(i as int));
                assert(bs.take(i + 1).last() == block_markdown(p.layout_blocks@[i as int]));
            }
            let t = block_markdown_exec(&p.layout_blocks[i]);
            if chars_of(t.as_str()).len() > 0 {
                let ghost prev = out@;
                out.push(t);
                proof {
                    assert(string_views(out@) =~= string_views(prev).push(t@));
                }
            }
            i += 1;
        }
        proof {
            assert(bs.take(p.layout_blocks@.len() as int) =~= bs);
        }
    }
    out
}

/// A page's blocks, each on its own lines, a blank line between blocks.
pub open spec fn page_lines(blocks: Seq<Seq<char>>) -> Seq<char>
    decreases blocks.len(),
{
    if blocks.len() == 0 {
        seq![]
    } else {
        page_lines(blocks.drop_last()) + (if blocks.len() > 1 {
            seq!['\n']
        } else {
            seq![]
        }) + blocks.last() + seq!['\n']
    }
}

/// The pages' blocks, a `---` rule between blank lines between pages.
pub open spec fn markdown_document(pages: Seq<Seq<Seq<char>>>) -> Seq<char>
    decreases pages.len(),
{
    if pages.len() == 0 {
        seq![]
    } else {
        markdown_document(pages.drop_last()) + (if pages.len() > 1 {
            "\n---\n\n"@
        } else {
            seq![]
        }) + page_lines(pages.last())
    }
}

/// The Markdown text of a document from the blocks of each page.
pub fn markdown_text(pages: &Vec<Vec<String>>) -> (r: String)
    ensures
        r@ == markdown_document(pages@.map_values(|p: Vec<String>| string_views(p@))),
{
    let ghost all = pages@.map_values(|p: Vec<String>| string_views(p@));
    let newline = lit("\n");
    proof {
        reveal_strlit("\n");
    }
    let rule = lit("\n---\n\n");
    let mut out: Vec<char> = Vec::new();
    let mut i: usize = 0;
    while i < pages.len()
        invariant
            i <= pages@.len(),
            all == pages@.map_values(|p: Vec<String>| string_views(p@)),
            newline@ == seq!['\n'],
            rule@ == "\n---\n\n"@,
            out@ == markdown_document(all.take(i as int)),
        decreases pages@.len() - i,
    {
        proof {
            assert(all.take(i + 1).drop_last() =~= all.take(i as int));
            assert(all.take(i + 1).last() == string_views(pages@[i as int]@));
        }
        if i > 0 {
            append_chars(&mut out, &rule);
        }
        let ghost before = out@;
        let blocks = &pages[i];
        let ghost bs = string_views(blocks@);
        let mut j: usize = 0;
        while j < blocks.len()
            invariant
                j <= blocks@.len(),
                bs == string_views(blocks@),
                newline@ == seq!['\n'],
                out@ == before + page_lines(bs.take(j as int)),
            decreases blocks@.len() - j,
        {
            proof {
                assert(bs.take(j + 1).drop_last() =~= bs.take(j as int));
                assert(bs.take(j + 1).last() == blocks@[j as int]@);
            }
            if j > 0 {
                append_chars(&mut out, &newline);
            }
            let b = chars_of(blocks[j].as_str());
            append_chars(&mut out, &b);
            append_chars(&mut out, &newline);
            proof {
                assert(out@ =~= before + page_lines(bs.take(j + 1)));
            }
            j += 1;
        }
        proof {
            assert(bs.take(blocks@.len() as int) =~= bs);
            assert(out@ =~= markdown_document(all.take(i + 1)));
        }
        i += 1;
    }
    proof {
        assert(all.take(pages@.len() as int) =~= all);
    }
    string_of(&out)
}

} // verus!
