//! Page quality flags that a document's expectations announce, grouped by
//! page, and the silent-failure check: a page fails silently when it carries
//! a quality flag that no expectation announced, or comes out without text
//! where no expectation said so.
use vstd::prelude::*;

use crate::order::{is_strictly_sorted, sorted_unique, Sortable};

verus! {

/// The quality flags a page can carry.
#[derive(Clone, Copy, PartialEq, Eq, Structural, Debug)]
pub enum PageQuality {
    RequiresOcr,
    LowConfidenceText,
    BrokenEncoding,
    LayoutUncertain,
    TableUncertain,
    UnsupportedFeature,
}

/// The name a flag has in reports.
pub open spec fn quality_name(flag: PageQuality) -> Seq<char> {
    match flag {
        PageQuality::RequiresOcr => "requires_ocr"@,
        PageQuality::LowConfidenceText => "low_confidence_text"@,
        PageQuality::BrokenEncoding => "broken_encoding"@,
        PageQuality::LayoutUncertain => "layout_uncertain"@,
        PageQuality::TableUncertain => "table_uncertain"@,
        PageQuality::UnsupportedFeature => "unsupported_feature"@,
    }
}

pub fn page_quality_name(flag: PageQuality) -> (r: &'static str)
    ensures
        r@ == quality_name(flag),
{
    match flag {
        PageQuality::RequiresOcr => "requires_ocr",
        PageQuality::LowConfidenceText => "low_confidence_text",
        PageQuality::BrokenEncoding => "broken_encoding",
        PageQuality::LayoutUncertain => "layout_uncertain",
        PageQuality::TableUncertain => "table_uncertain",
        PageQuality::UnsupportedFeature => "unsupported_feature",
    }
}

/// What the expectations of one page say about its quality.
pub struct PageQualityExpectation {
    pub index: u32,
    pub required_flags: Vec<PageQuality>,
    pub empty_text_output: Option<bool>,
}

/// A classification expectation: the pages that must carry a flag.
pub struct QualityFlagClassification {
    pub flag: PageQuality,
    pub expected_pages: Vec<u32>,
}

/// The parts of a document's expectations that announce quality flags: the
/// pages' own flags, the pages that need OCR, the flag classifications, and
/// the pages whose tables are checked (their tables are uncertain).
pub struct QualityFlagExpectations {
    pub pages: Vec<PageQualityExpectation>,
    pub ocr_required_pages: Option<Vec<u32>>,
    pub quality_flag_classification: Vec<QualityFlagClassification>,
    pub table_structure_pages: Vec<u32>,
}

/// A page paired with each of some flags.
pub open spec fn on_page(page: u32, flags: Seq<PageQuality>) -> Seq<(u32, PageQuality)> {
    flags.map_values(|f: PageQuality| (page, f))
}

/// Each of some pages paired with a flag.
pub open spec fn with_flag(pages: Seq<u32>, flag: PageQuality) -> Seq<(u32, PageQuality)> {
    pages.map_values(|p: u32| (p, flag))
}

pub open spec fn page_flag_insertions(pages: Seq<PageQualityExpectation>) -> Seq<(u32, PageQuality)>
    decreases pages.len(),
{
    if pages.len() == 0 {
        seq![]
    } else {
        page_flag_insertions(pages.drop_last()) + on_page(
            pages.last().index,
            pages.last().required_flags@,
        )
    }
}

pub open spec fn classification_insertions(cs: Seq<QualityFlagClassification>) -> Seq<(u32, PageQuality)>
    decreases cs.len(),
{
    if cs.len() == 0 {
        seq![]
    } else {
        classification_insertions(cs.drop_last()) + with_flag(cs.last().expected_pages@, cs.last().flag)
    }
}

/// Every (page, flag) the expectations announce, in the order they are met.
pub open spec fn quality_flag_insertions(e: QualityFlagExpectations) -> Seq<(u32, PageQuality)> {
    page_flag_insertions(e.pages@) + match e.ocr_required_pages {
        Some(v) => with_flag(v@, PageQuality::RequiresOcr),
        None => seq![],
    } + classification_insertions(e.quality_flag_classification@) + with_flag(
        e.table_structure_pages@,
        PageQuality::TableUncertain,
    )
}

/// The flags announced for a page, each once, in the order first met.
pub open spec fn flags_on(ins: Seq<(u32, PageQuality)>, page: u32) -> Seq<PageQuality>
    decreases ins.len(),
{
    if ins.len() == 0 {
        seq![]
    } else {
        let prev = flags_on(ins.drop_last(), page);
        if ins.last().0 == page && !prev.contains(ins.last().1) {
            prev.push(ins.last().1)
        } else {
            prev
        }
    }
}

/// The pages of some announcements.
pub open spec fn insertion_pages(ins: Seq<(u32, PageQuality)>) -> Seq<u32> {
    ins.map_values(|x: (u32, PageQuality)| x.0)
}

/// Appends a page paired with each of some flags.
pub fn push_on_page(out: &mut Vec<(u32, PageQuality)>, page: u32, flags: &Vec<PageQuality>)
    ensures
        final(out)@ == old(out)@ + on_page(page, flags@),
{
    let ghost start = out@;
    let mut i: usize = 0;
    while i < flags.len()
        invariant
            i <= flags@.len(),
            out@ == start + on_page(page, flags@.take(i as int)),
        decreases flags@.len() - i,
    {
        out.push((page, flags[i]));
        i += 1;
        assert(out@ =~= start + on_page(page, flags@.take(i as int)));
    }
    assert(flags@.take(flags@.len() as int) =~= flags@);
}

/// Appends each of some pages paired with a flag.
pub fn push_with_flag(out: &mut Vec<(u32, PageQuality)>, pages: &Vec<u32>, flag: PageQuality)
    ensures
        final(out)@ == old(out)@ + with_flag(pages@, flag),
{
    let ghost start = out@;
    let mut i: usize = 0;
    while i < pages.len()
        invariant
            i <= pages@.len(),
            out@ == start + with_flag(pages@.take(i as int), flag),
        decreases pages@.len() - i,
    {
        out.push((pages[i], flag));
        i += 1;
        assert(out@ =~= start + with_flag(pages@.take(i as int), flag));
    }
    assert(pages@.take(pages@.len() as int) =~= pages@);
}

/// Lists the (page, flag) announcements of the expectations in order.
pub fn quality_flag_insertions_of(e: &QualityFlagExpectations) -> (r: Vec<(u32, PageQuality)>)
    ensures
        r@ == quality_flag_insertions(*e),
{
    let mut out: Vec<(u32, PageQuality)> = Vec::new();
    let mut i: usize = 0;
    while i < e.pages.len()
        invariant
            i <= e.pages@.len(),
            out@ == page_flag_insertions(e.pages@.take(i as int)),
        decreases e.pages@.len() - i,
    {
        proof {
            assert(e.pages@.take(i + 1).drop_last() =~= e.pages@.take(i as int));
        }
        push_on_page(&mut out, e.pages[i].index, &e.pages[i].required_flags);
        i += 1;
    }
    proof {
        assert(e.pages@.take(e.pages@.len() as int) =~= e.pages@);
    }
    let ghost after_pages = out@;
    match &e.ocr_required_pages {
        Some(v) => push_with_flag(&mut out, v, PageQuality::RequiresOcr),
        None => {
            assert(out@ =~= after_pages + seq![]);
        },
    }
    let ghost after_ocr = out@;
    let mut c: usize = 0;
    while c < e.quality_flag_classification.len()
        invariant
            c <= e.quality_flag_classification@.len(),
            out@ == after_ocr + classification_insertions(
                e.quality_flag_classification@.take(c as int),
            ),
        decreases e.quality_flag_classification@.len() - c,
    {
        proof {
            assert(e.quality_flag_classification@.take(c + 1).drop_last()
                =~= e.quality_flag_classification@.take(c as int));
        }
        let ghost before = out@;
        push_with_flag(
            &mut out,
            &e.quality_flag_classification[c].expected_pages,
            e.quality_flag_classification[c].flag,
        );
        proof {
            let cs = e.quality_flag_classification@.take(c + 1);
            assert(cs.last() == e.quality_flag_classification@[c as int]);
            assert(out@ =~= after_ocr + classification_insertions(cs));
        }
        c += 1;
    }
    proof {
        assert(e.quality_flag_classification@.take(e.quality_flag_classification@.len() as int)
            =~= e.quality_flag_classification@);
    }
    push_with_flag(&mut out, &e.table_structure_pages, PageQuality::TableUncertain);
    proof {
        assert(out@ =~= quality_flag_insertions(*e));
    }
    out
}

/// Whether some flags hold `f`.
pub fn contains_flag(v: &Vec<PageQuality>, f: PageQuality) -> (r: bool)
    ensures
        r == v@.contains(f),
{
    let mut i: usize = 0;
    while i < v.len()
        invariant
            i <= v@.len(),
            forall|k: int| 0 <= k < i ==> v@[k] != f,
        decreases v@.len() - i,
    {
        if v[i] == f {
            assert(v@[i as int] == f);
            return true;
        }
        i += 1;
    }
    false
}

/// The flags announced for a page, each once, in the order first met.
pub fn flags_on_exec(ins: &Vec<(u32, PageQuality)>, page: u32) -> (r: Vec<PageQuality>)
    ensures
        r@ == flags_on(ins@, page),
{
    let mut out: Vec<PageQuality> = Vec::new();
    let mut i: usize = 0;
    while i < ins.len()
        invariant
            i <= ins@.len(),
            out@ == flags_on(ins@.take(i as int), page),
        decreases ins@.len() - i,
    {
        proof {
            assert(ins@.take(i + 1).drop_last() =~= ins@.take(i as int));
            assert(ins@.take(i + 1).last() == ins@[i as int]);
        }
        let (p, f) = ins[i];
        if p == page {
            if !contains_flag(&out, f) {
                out.push(f);
            }
        }
        i += 1;
    }
    proof {
        assert(ins@.take(ins@.len() as int) =~= ins@);
    }
    out
}

/// The flags announced for one page.
pub struct PageFlags {
    pub page: u32,
    pub flags: Vec<PageQuality>,
}

pub open spec fn flag_pages(r: Seq<PageFlags>) -> Seq<u32> {
    r.map_values(|x: PageFlags| x.page)
}

/// What `expected_quality_flags_by_page` gives: the announced pages in
/// ascending order, each once, with the flags announced for it.
pub open spec fn is_flags_by_page(ins: Seq<(u32, PageQuality)>, r: Seq<PageFlags>) -> bool {
    &&& forall|i: int, j: int| 0 <= i < j < r.len() ==> r[i].page < r[j].page
    &&& forall|p: u32| flag_pages(r).contains(p) <==> insertion_pages(ins).contains(p)
    &&& forall|i: int| 0 <= i < r.len() ==> #[trigger] r[i].flags@ == flags_on(ins, r[i].page)
}

proof fn lemma_strictly_sorted_at(s: Seq<u32>, a: int, b: int)
    requires
        is_strictly_sorted::<u32>(s),
        0 <= a < b < s.len(),
    ensures
        s[a] < s[b],
{
    let x = s[a];
    let y = s[b];
    assert(u32::le_spec(x, y));
}

proof fn lemma_u32_vec_deep_view(v: &Vec<u32>)
    ensures
        v.deep_view() == v@,
{
    assert(v.deep_view() =~= v@);
}

/// The quality flags the expectations announce, by page: for each announced
/// page, in ascending order, its flags each once in the order first met.
pub fn expected_quality_flags_by_page(e: &QualityFlagExpectations) -> (r: Vec<PageFlags>)
    ensures
        is_flags_by_page(quality_flag_insertions(*e), r@),
{
    let ins = quality_flag_insertions_of(e);
    let mut pages: Vec<u32> = Vec::new();
    let mut i: usize = 0;
    while i < ins.len()
        invariant
            i <= ins@.len(),
            pages@ == insertion_pages(ins@.take(i as int)),
        decreases ins@.len() - i,
    {
        pages.push(ins[i].0);
        i += 1;
        assert(pages@ =~= insertion_pages(ins@.take(i as int)));
    }
    proof {
        assert(ins@.take(ins@.len() as int) =~= ins@);
        lemma_u32_vec_deep_view(&pages);
    }
    let ghost all_pages = pages@;
    let keys = sorted_unique(pages);
    proof {
        lemma_u32_vec_deep_view(&keys);
        assert(is_strictly_sorted::<u32>(keys@));
    }
    let mut out: Vec<PageFlags> = Vec::new();
    let mut j: usize = 0;
    while j < keys.len()
        invariant
            j <= keys@.len(),
            is_strictly_sorted::<u32>(keys@),
            forall|x: u32| keys@.contains(x) <==> all_pages.contains(x),
            all_pages == insertion_pages(ins@),
            flag_pages(out@) == keys@.take(j as int),
            forall|m: int| 0 <= m < out@.len() ==> #[trigger] out@[m].flags@ == flags_on(
                ins@,
                out@[m].page,
            ),
        decreases keys@.len() - j,
    {
        let page = keys[j];
        let flags = flags_on_exec(&ins, page);
        let ghost prev = out@;
        out.push(PageFlags { page, flags });
        proof {
            assert(flag_pages(out@) =~= flag_pages(prev).push(page));
            assert(keys@.take(j + 1) =~= keys@.take(j as int).push(keys@[j as int]));
        }
        j += 1;
    }
    proof {
        assert(keys@.take(keys@.len() as int) =~= keys@);
        assert(flag_pages(out@) == keys@);
        assert forall|a: int, b: int| 0 <= a < b < out@.len() implies out@[a].page < out@[b].page by {
            assert(out@[a].page == flag_pages(out@)[a]);
            assert(out@[b].page == flag_pages(out@)[b]);
            lemma_strictly_sorted_at(keys@, a, b);
        }
    }
    out
}

proof fn lemma_flags_on_absent(ins: Seq<(u32, PageQuality)>, page: u32)
    requires
        !insertion_pages(ins).contains(page),
    ensures
        flags_on(ins, page) == Seq::<PageQuality>::empty(),
    decreases ins.len(),
{
    if ins.len() > 0 {
        assert(insertion_pages(ins.drop_last()) =~= insertion_pages(ins).drop_last());
        assert(insertion_pages(ins)[ins.len() - 1] == ins.last().0);
        if insertion_pages(ins.drop_last()).contains(page) {
            let k = choose|k: int| 0 <= k < insertion_pages(ins.drop_last()).len()
                && insertion_pages(ins.drop_last())[k] == page;
            assert(insertion_pages(ins)[k] == page);
        }
        lemma_flags_on_absent(ins.drop_last(), page);
    }
}

/// The flags that the grouped expectations announce for a page; none for a
/// page they do not name.
fn expected_flags_for(by_page: &Vec<PageFlags>, page: u32, Ghost(ins): Ghost<Seq<(u32, PageQuality)>>) -> (r: Vec<PageQuality>)
    requires
        is_flags_by_page(ins, by_page@),
    ensures
        r@ == flags_on(ins, page),
{
    let mut i: usize = 0;
    while i < by_page.len()
        invariant
            i <= by_page@.len(),
            is_flags_by_page(ins, by_page@),
            forall|k: int| 0 <= k < i ==> by_page@[k].page != page,
        decreases by_page@.len() - i,
    {
        if by_page[i].page == page {
            assert(by_page@[i as int].flags@ == flags_on(ins, by_page@[i as int].page));
            return copy_flags(&by_page[i].flags);
        }
        i += 1;
    }
    proof {
        if insertion_pages(ins).contains(page) {
            assert(flag_pages(by_page@).contains(page));
            let k = choose|k: int| 0 <= k < flag_pages(by_page@).len() && flag_pages(by_page@)[k] == page;
            assert(by_page@[k].page == page);
        }
        lemma_flags_on_absent(ins, page);
    }
    Vec::new()
}

/// The same flags.
pub fn copy_flags(v: &Vec<PageQuality>) -> (r: Vec<PageQuality>)
    ensures
        r@ == v@,
{
    let mut out: Vec<PageQuality> = Vec::new();
    let mut i: usize = 0;
    while i < v.len()
        invariant
            i <= v@.len(),
            out@ == v@.take(i as int),
        decreases v@.len() - i,
    {
        out.push(v[i]);
        i += 1;
        assert(out@ =~= v@.take(i as int));
    }
    assert(v@.take(v@.len() as int) =~= v@);
    out
}

/// Whether a page's expectation says it comes out without text.
pub open spec fn expects_empty_text(pages: Seq<PageQualityExpectation>, page: u32) -> bool {
    exists|i: int| 0 <= i < pages.len() && #[trigger] pages[i].index == page
        && pages[i].empty_text_output == Some(true)
}

fn expects_empty_text_exec(pages: &Vec<PageQualityExpectation>, page: u32) -> (r: bool)
    ensures
        r == expects_empty_text(pages@, page),
{
    let mut i: usize = 0;
    while i < pages.len()
        invariant
            i <= pages@.len(),
            forall|k: int| 0 <= k < i ==> !(#[trigger] pages@[k].index == page
                && pages@[k].empty_text_output == Some(true)),
        decreases pages@.len() - i,
    {
        if pages[i].index == page {
            if let Some(true) = pages[i].empty_text_output {
                assert(pages@[i as int].index == page);
                return true;
            }
        }
        i += 1;
    }
    false
}

/// The quality of a page as extracted.
pub struct ActualPageQuality {
    pub page_index: u32,
    pub flags: Vec<PageQuality>,
    pub text_empty: bool,
}

/// A page that failed silently: its unannounced flags, and `Some(true)`
/// when its missing text was not announced.
pub struct SilentFailurePage {
    pub page: u32,
    pub flags: Vec<PageQuality>,
    pub empty_text_output: Option<bool>,
}

/// The flags of `actual` that `expected` does not hold, in order.
pub open spec fn unexpected_flags(actual: Seq<PageQuality>, expected: Seq<PageQuality>) -> Seq<PageQuality>
    decreases actual.len(),
{
    if actual.len() == 0 {
        seq![]
    } else {
        let prev = unexpected_flags(actual.drop_last(), expected);
        if expected.contains(actual.last()) {
            prev
        } else {
            prev.push(actual.last())
        }
    }
}

/// Whether a page came out without text where nothing announced it: not
/// its expectation, and no announced need for OCR.
pub open spec fn unexpected_empty_text(e: QualityFlagExpectations, a: ActualPageQuality) -> bool {
    a.text_empty && !expects_empty_text(e.pages@, a.page_index) && !flags_on(
        quality_flag_insertions(e),
        a.page_index,
    ).contains(PageQuality::RequiresOcr)
}

/// The silent failures of some pages, as (page, flags, missing text).
pub open spec fn silent_failures(e: QualityFlagExpectations, pages: Seq<ActualPageQuality>) -> Seq<(u32, Seq<PageQuality>, bool)>
    decreases pages.len(),
{
    if pages.len() == 0 {
        seq![]
    } else {
        let prev = silent_failures(e, pages.drop_last());
        let a = pages.last();
        let flags = unexpected_flags(a.flags@, flags_on(quality_flag_insertions(e), a.page_index));
        let empty = unexpected_empty_text(e, a);
        if flags.len() > 0 || empty {
            prev.push((a.page_index, flags, empty))
        } else {
            prev
        }
    }
}

pub open spec fn silent_page_view(p: SilentFailurePage) -> (u32, Seq<PageQuality>, bool) {
    (p.page, p.flags@, p.empty_text_output == Some(true))
}

/// The silent-failure check of a document.
pub struct SilentFailuresCheck {
    pub pages: Vec<SilentFailurePage>,
    pub count: usize,
    pub max_count: usize,
    pub passed: bool,
}

/// The flags of `actual` that `expected` does not hold, in order.
pub fn flags_not_in(actual: &Vec<PageQuality>, expected: &Vec<PageQuality>) -> (r: Vec<PageQuality>)
    ensures
        r@ == unexpected_flags(actual@, expected@),
{
    let mut out: Vec<PageQuality> = Vec::new();
    let mut i: usize = 0;
    while i < actual.len()
        invariant
            i <= actual@.len(),
            out@ == unexpected_flags(actual@.take(i as int), expected@),
        decreases actual@.len() - i,
    {
        proof {
            assert(actual@.take(i + 1).drop_last() =~= actual@.take(i as int));
            assert(actual@.take(i + 1).last() == actual@[i as int]);
        }
        if !contains_flag(expected, actual[i]) {
            out.push(actual[i]);
        }
        i += 1;
    }
    proof {
        assert(actual@.take(actual@.len() as int) =~= actual@);
    }
    out
}

/// Checks a document's pages for silent failures: each page with a flag no
/// expectation announced, or without text where none said so, is listed in
/// page order; the check passes when at most `max_count` (none when not
/// given) are listed.
pub fn silent_failures_check(
    e: &QualityFlagExpectations,
    pages: &Vec<ActualPageQuality>,
    max_count: Option<usize>,
) -> (r: SilentFailuresCheck)
    ensures
        r.pages@.map_values(|p: SilentFailurePage| silent_page_view(p)) == silent_failures(
            *e,
            pages@,
        ),
        forall|k: int| 0 <= k < r.pages@.len() ==> (#[trigger] r.pages@[k]).empty_text_output
            is None || r.pages@[k].empty_text_output == Some(true),
        r.count == r.pages@.len(),
        r.max_count == (match max_count {
            Some(m) => m,
            None => 0,
        }),
        r.passed == (r.count <= r.max_count),
{
    let by_page = expected_quality_flags_by_page(e);
    let ghost ins = quality_flag_insertions(*e);
    let mut out: Vec<SilentFailurePage> = Vec::new();
    let mut i: usize = 0;
    while i < pages.len()
        invariant
            i <= pages@.len(),
            is_flags_by_page(ins, by_page@),
            ins == quality_flag_insertions(*e),
            out@.map_values(|p: SilentFailurePage| silent_page_view(p)) == silent_failures(
                *e,
                pages@.take(i as int),
            ),
            forall|k: int| 0 <= k < out@.len() ==> (#[trigger] out@[k]).empty_text_output is None
                || out@[k].empty_text_output == Some(true),
        decreases pages@.len() - i,
    {
        proof {
            assert(pages@.take(i + 1).drop_last() =~= pages@.take(i as int));
            assert(pages@.take(i + 1).last() == pages@[i as int]);
        }
        let page = &pages[i];
        let expected = expected_flags_for(&by_page, page.page_index, Ghost(ins));
        let flags = flags_not_in(&page.flags, &expected);
        let empty = page.text_empty && !expects_empty_text_exec(&e.pages, page.page_index)
            && !contains_flag(&expected, PageQuality::RequiresOcr);
        let ghost prev = out@;
        if flags.len() > 0 || empty {
            let s = SilentFailurePage {
                page: page.page_index,
                flags,
                empty_text_output: if empty {
                    Some(true)
                } else {
                    None
                },
            };
            out.push(s);
            proof {
                assert(out@.map_values(|p: SilentFailurePage| silent_page_view(p)) =~= prev.map_values(
                    |p: SilentFailurePage| silent_page_view(p),
                ).push(silent_page_view(s)));
            }
        }
        i += 1;
    }
    proof {
        assert(pages@.take(pages@.len() as int) =~= pages@);
    }
    let limit = match max_count {
        Some(m) => m,
        None => 0,
    };
    let count = out.len();
    SilentFailuresCheck { pages: out, count, max_count: limit, passed: count <= limit }
}

/// The silent-failure check of one document of a benchmark, when it had one.
pub struct DocumentSilentFailures {
    pub path: String,
    pub check: Option<SilentFailuresCheck>,
}

/// A page that failed silently, with the path of its document.
pub struct SilentFailureSummaryPage {
    pub path: String,
    pub page: u32,
    pub flags: Vec<PageQuality>,
    pub empty_text_output: Option<bool>,
}

/// The silent failures of a benchmark: their count, and the pages.
pub struct SilentFailureSummary {
    pub count: usize,
    pub pages: Vec<SilentFailureSummaryPage>,
}

pub open spec fn summary_page_view(p: SilentFailureSummaryPage) -> (Seq<char>, u32, Seq<PageQuality>, Option<bool>) {
    (p.path@, p.page, p.flags@, p.empty_text_output)
}

/// The pages of a document's check, with its path.
pub open spec fn document_summary_pages(path: Seq<char>, pages: Seq<SilentFailurePage>) -> Seq<(Seq<char>, u32, Seq<PageQuality>, Option<bool>)> {
    pages.map_values(|p: SilentFailurePage| (path, p.page, p.flags@, p.empty_text_output))
}

/// The pages of all checks, document after document.
pub open spec fn summary_pages(docs: Seq<DocumentSilentFailures>) -> Seq<(Seq<char>, u32, Seq<PageQuality>, Option<bool>)>
    decreases docs.len(),
{
    if docs.len() == 0 {
        seq![]
    } else {
        summary_pages(docs.drop_last()) + match docs.last().check {
            Some(c) => document_summary_pages(docs.last().path@, c.pages@),
            None => seq![],
        }
    }
}

/// The counts of all checks added up.
pub open spec fn summary_count(docs: Seq<DocumentSilentFailures>) -> nat
    decreases docs.len(),
{
    if docs.len() == 0 {
        0
    } else {
        summary_count(docs.drop_last()) + match docs.last().check {
            Some(c) => c.count as nat,
            None => 0nat,
        }
    }
}

/// Whether some document had a silent-failure check.
pub open spec fn any_silent_check(docs: Seq<DocumentSilentFailures>) -> bool {
    exists|i: int| 0 <= i < docs.len() && (#[trigger] docs[i]).check is Some
}

proof fn lemma_summary_count_prefix(docs: Seq<DocumentSilentFailures>, i: int)
    requires
        0 <= i <= docs.len(),
    ensures
        summary_count(docs.take(i)) <= summary_count(docs),
    decreases docs.len() - i,
{
    if i < docs.len() {
        lemma_summary_count_prefix(docs, i + 1);
        assert(docs.take(i + 1).drop_last() =~= docs.take(i));
    } else {
        assert(docs.take(i) =~= docs);
    }
}

/// Sums up the silent-failure checks of a benchmark's documents: `None`
/// when no document had one, else their counts added up and their pages,
/// document after document.
pub fn benchmark_silent_failure_summary(docs: &Vec<DocumentSilentFailures>) -> (r: Option<SilentFailureSummary>)
    requires
        summary_count(docs@) <= usize::MAX,
    ensures
        r is Some <==> any_silent_check(docs@),
        r matches Some(sm) ==> sm.count == summary_count(docs@) && sm.pages@.map_values(
            |p: SilentFailureSummaryPage| summary_page_view(p),
        ) == summary_pages(docs@),
{
    let mut saw = false;
    let mut count: usize = 0;
    let mut pages: Vec<SilentFailureSummaryPage> = Vec::new();
    let mut i: usize = 0;
    while i < docs.len()
        invariant
            i <= docs@.len(),
            summary_count(docs@) <= usize::MAX,
            saw == any_silent_check(docs@.take(i as int)),
            count == summary_count(docs@.take(i as int)),
            pages@.map_values(|p: SilentFailureSummaryPage| summary_page_view(p)) == summary_pages(
                docs@.take(i as int),
            ),
        decreases docs@.len() - i,
    {
        proof {
            assert(docs@.take(i + 1).drop_last() =~= docs@.take(i as int));
            assert(docs@.take(i + 1).last() == docs@[i as int]);
            lemma_summary_count_prefix(docs@, i + 1);
        }
        let doc = &docs[i];
        match &doc.check {
            Some(c) => {
                let ghost before = pages@.map_values(|p: SilentFailureSummaryPage| summary_page_view(p));
                let mut j: usize = 0;
                while j < c.pages.len()
                    invariant
                        j <= c.pages@.len(),
                        pages@.map_values(|p: SilentFailureSummaryPage| summary_page_view(p)) == before
                            + document_summary_pages(doc.path@, c.pages@.take(j as int)),
                    decreases c.pages@.len() - j,
                {
                    let sp = &c.pages[j];
                    let entry = SilentFailureSummaryPage {
                        path: crate::text::copy_string(&doc.path),
                        page: sp.page,
                        flags: copy_flags(&sp.flags),
                        empty_text_output: sp.empty_text_output,
                    };
                    let ghost prev = pages@;
                    pages.push(entry);
                    proof {
                        assert(summary_page_view(entry) == (doc.path@, c.pages@[j as int].page,
                            c.pages@[j as int].flags@, c.pages@[j as int].empty_text_output));
                        assert(document_summary_pages(doc.path@, c.pages@.take(j + 1))
                            =~= document_summary_pages(doc.path@, c.pages@.take(j as int)).push(
                            summary_page_view(entry),
                        ));
                        assert(pages@.map_values(|p: SilentFailureSummaryPage| summary_page_view(p))
                            =~= prev.map_values(|p: SilentFailureSummaryPage| summary_page_view(p)).push(
                            summary_page_view(entry),
                        ));
                    }
                    j += 1;
                }
                proof {
                    assert(c.pages@.take(c.pages@.len() as int) =~= c.pages@);
                }
                count = count + c.count;
                saw = true;
            },
            None => {},
        }
        proof {
            let t = docs@.take(i + 1);
            if any_silent_check(t) {
                let k = choose|k: int| 0 <= k < t.len() && (#[trigger] t[k]).check is Some;
                if k < i {
                    assert(docs@.take(i as int)[k] == t[k]);
                }
            }
            if any_silent_check(docs@.take(i as int)) {
                let k = choose|k: int| 0 <= k < i && (#[trigger] docs@.take(i as int)[k]).check is Some;
                assert(t[k] == docs@.take(i as int)[k]);
            }
            if docs@[i as int].check is Some {
                assert(t[i as int] == docs@[i as int]);
            }
        }
        i += 1;
    }
    proof {
        assert(docs@.take(docs@.len() as int) =~= docs@);
    }
    if saw {
        Some(SilentFailureSummary { count, pages })
    } else {
        None
    }
}

/// When every flag of `a` is in `b`, none of `a` is missing from `b`.
pub proof fn lemma_no_flags_missing(a: Seq<PageQuality>, b: Seq<PageQuality>)
    requires
        forall|i: int| 0 <= i < a.len() ==> b.contains(#[trigger] a[i]),
    ensures
        unexpected_flags(a, b).len() == 0,
    decreases a.len(),
{
    if a.len() > 0 {
        assert(b.contains(a[a.len() - 1]));
        assert forall|i: int| 0 <= i < a.drop_last().len() implies b.contains(#[trigger] a.drop_last()[i]) by {
            assert(a.drop_last()[i] == a[i]);
        }
        lemma_no_flags_missing(a.drop_last(), b);
    }
}

proof fn lemma_flags_on_contains(ins: Seq<(u32, PageQuality)>, page: u32, f: PageQuality)
    requires
        ins.contains((page, f)),
    ensures
        flags_on(ins, page).contains(f),
    decreases ins.len(),
{
    let prev = flags_on(ins.drop_last(), page);
    if ins.last() == (page, f) {
        if !prev.contains(f) {
            assert(flags_on(ins, page) == prev.push(f));
            assert(prev.push(f)[prev.len() as int] == f);
        }
    } else {
        let k = choose|k: int| 0 <= k < ins.len() && ins[k] == (page, f);
        assert(k < ins.len() - 1);
        assert(ins.drop_last()[k] == (page, f));
        lemma_flags_on_contains(ins.drop_last(), page, f);
        let j = choose|j: int| 0 <= j < prev.len() && prev[j] == f;
        if ins.last().0 == page && !prev.contains(ins.last().1) {
            assert(flags_on(ins, page)[j] == f);
        }
    }
}

proof fn lemma_page_insertions_contain(pages: Seq<PageQualityExpectation>, k: int, j: int)
    requires
        0 <= k < pages.len(),
        0 <= j < pages[k].required_flags@.len(),
    ensures
        page_flag_insertions(pages).contains((pages[k].index, pages[k].required_flags@[j])),
    decreases pages.len(),
{
    let prev = page_flag_insertions(pages.drop_last());
    let last = on_page(pages.last().index, pages.last().required_flags@);
    assert(page_flag_insertions(pages) == prev + last);
    if k == pages.len() - 1 {
        assert((prev + last)[prev.len() + j] == last[j]);
    } else {
        assert(pages.drop_last()[k] == pages[k]);
        lemma_page_insertions_contain(pages.drop_last(), k, j);
        let m = choose|m: int| 0 <= m < prev.len() && prev[m] == (pages[k].index, pages[k].required_flags@[j]);
        assert((prev + last)[m] == prev[m]);
    }
}

/// Whether the page expectations were bootstrapped from the extracted pages:
/// one for each, with its index, its flags, and whether its text is empty.
pub open spec fn pages_bootstrapped(e: Seq<PageQualityExpectation>, pages: Seq<ActualPageQuality>) -> bool {
    &&& e.len() == pages.len()
    &&& forall|k: int| 0 <= k < pages.len() ==> {
        &&& (#[trigger] e[k]).index == pages[k].page_index
        &&& e[k].required_flags@ == pages[k].flags@
        &&& e[k].empty_text_output == Some(pages[k].text_empty)
    }
}

/// The page expectations a bootstrapped manifest holds for extracted pages.
pub fn generated_page_quality_expectations(pages: &Vec<ActualPageQuality>) -> (e: Vec<PageQualityExpectation>)
    ensures
        pages_bootstrapped(e@, pages@),
{
    let mut out: Vec<PageQualityExpectation> = Vec::new();
    let mut i: usize = 0;
    while i < pages.len()
        invariant
            i <= pages@.len(),
            pages_bootstrapped(out@, pages@.take(i as int)),
        decreases pages@.len() - i,
    {
        let p = &pages[i];
        let e = PageQualityExpectation {
            index: p.page_index,
            required_flags: copy_flags(&p.flags),
            empty_text_output: Some(p.text_empty),
        };
        out.push(e);
        i += 1;
        proof {
            assert forall|k: int| 0 <= k < pages@.take(i as int).len() implies {
                &&& (#[trigger] out@[k]).index == pages@.take(i as int)[k].page_index
                &&& out@[k].required_flags@ == pages@.take(i as int)[k].flags@
                &&& out@[k].empty_text_output == Some(pages@.take(i as int)[k].text_empty)
            } by {
                if k < i - 1 {
                    assert(pages@.take(i - 1)[k] == pages@.take(i as int)[k]);
                }
            }
        }
    }
    proof {
        assert(pages@.take(pages@.len() as int) =~= pages@);
    }
    out
}

proof fn lemma_bootstrapped_prefix(e: QualityFlagExpectations, pages: Seq<ActualPageQuality>, n: int)
    requires
        pages_bootstrapped(e.pages@, pages),
        0 <= n <= pages.len(),
    ensures
        silent_failures(e, pages.take(n)).len() == 0,
    decreases n,
{
    if n > 0 {
        lemma_bootstrapped_prefix(e, pages, n - 1);
        let ins = quality_flag_insertions(e);
        let rest = match e.ocr_required_pages {
            Some(v) => with_flag(v@, PageQuality::RequiresOcr),
            None => seq![],
        } + classification_insertions(e.quality_flag_classification@) + with_flag(
            e.table_structure_pages@,
            PageQuality::TableUncertain,
        );
        assert(ins =~= page_flag_insertions(e.pages@) + rest);
        let k = n - 1;
        let a = pages[k];
        let ep = e.pages@[k];
        assert(ep.index == a.page_index);
        assert forall|i: int| 0 <= i < a.flags@.len() implies flags_on(ins, a.page_index).contains(
            #[trigger] a.flags@[i],
        ) by {
            assert(ep.required_flags@[i] == a.flags@[i]);
            lemma_page_insertions_contain(e.pages@, k, i);
            let pf = page_flag_insertions(e.pages@);
            let m = choose|m: int| 0 <= m < pf.len() && pf[m] == (ep.index, ep.required_flags@[i]);
            assert(ins[m] == pf[m]);
            lemma_flags_on_contains(ins, a.page_index, a.flags@[i]);
        }
        lemma_no_flags_missing(a.flags@, flags_on(ins, a.page_index));
        if a.text_empty {
            assert(expects_empty_text(e.pages@, a.page_index)) by {
                assert(e.pages@[k].index == a.page_index);
            }
        }
        assert(pages.take(n).drop_last() =~= pages.take(k));
        assert(pages.take(n).last() == a);
    }
}

/// Extracted pages show no silent failure against expectations whose pages
/// were bootstrapped from them, whatever else the expectations announce: each
/// page's flags are announced, and its empty text expected.
pub proof fn lemma_bootstrapped_pages_fail_nothing_silently(
    e: QualityFlagExpectations,
    pages: Seq<ActualPageQuality>,
)
    requires
        pages_bootstrapped(e.pages@, pages),
    ensures
        silent_failures(e, pages).len() == 0,
{
    lemma_bootstrapped_prefix(e, pages, pages.len() as int);
    assert(pages.take(pages.len() as int) =~= pages);
}

} // verus!
