//! Document categories of an evaluation manifest: normalising names, category
//! filters, required categories, minimum counts per category and the coverage
//! report that compares them with what a corpus holds.
use vstd::prelude::*;

use crate::cli::{coverage_categories, CategoryCountSpec, CoveragePreset};
use crate::countmap::CountMap;
use crate::order::{is_strictly_sorted, sorted_unique};
use crate::text::{
    chars_of, copy_string, join_strings, join_with, split_by, split_chars, str_eq, string_of, trim,
    trim_ws, CharSet,
};

verus! {

broadcast use crate::views::lemma_char_vec_deep_view;

// ---------------------------------------------------------------------------
// Names and filters
// ---------------------------------------------------------------------------

/// A category name: the trimmed text, or nothing when that is empty.
pub open spec fn normalized_category(s: Seq<char>) -> Option<Seq<char>> {
    if trim(s).len() == 0 {
        None
    } else {
        Some(trim(s))
    }
}

/// The names among `ps` that normalise to a category, normalised, in order.
pub open spec fn normalized_all(ps: Seq<Seq<char>>) -> Seq<Seq<char>>
    decreases ps.len(),
{
    if ps.len() == 0 {
        Seq::empty()
    } else {
        match normalized_category(ps.last()) {
            Some(c) => normalized_all(ps.drop_last()).push(c),
            None => normalized_all(ps.drop_last()),
        }
    }
}

/// The categories that a comma-separated filter names.
pub open spec fn filter_categories(filter: Option<Seq<char>>) -> Seq<Seq<char>> {
    match filter {
        Some(f) => normalized_all(split_by(f, CharSet::Only(','))),
        None => Seq::empty(),
    }
}

/// An empty filter admits every category.
pub open spec fn filter_matches(filter: Seq<Seq<char>>, category: Seq<char>) -> bool {
    filter.len() == 0 || filter.contains(category)
}

pub open spec fn str_opt_view(s: Option<&str>) -> Option<Seq<char>> {
    match s {
        Some(x) => Some(x@),
        None => None,
    }
}

pub open spec fn string_opt_view(s: Option<String>) -> Option<Seq<char>> {
    match s {
        Some(x) => Some(x@),
        None => None,
    }
}

/// The trimmed category, or nothing when it is blank.
pub fn normalize_manifest_category(category: Option<&str>) -> (r: Option<String>)
    ensures
        string_opt_view(r) == (match category {
            Some(c) => normalized_category(c@),
            None => None,
        }),
{
    match category {
        None => None,
        Some(c) => {
            let v = chars_of(c);
            let t = trim_ws(&v);
            if t.len() == 0 {
                None
            } else {
                Some(string_of(&t))
            }
        },
    }
}

fn normalize_chars_category(v: &Vec<char>) -> (r: Option<Vec<char>>)
    ensures
        match normalized_category(v@) {
            Some(c) => r matches Some(x) && x@ == c,
            None => r is None,
        },
{
    let t = trim_ws(v);
    if t.len() == 0 {
        None
    } else {
        Some(t)
    }
}

proof fn lemma_push_contains(s: Seq<Seq<char>>, x: Seq<char>, c: Seq<char>)
    ensures
        s.push(x).contains(c) <==> (s.contains(c) || c == x),
{
    let t = s.push(x);
    if t.contains(c) && c != x {
        let j = choose|j: int| 0 <= j < t.len() && t[j] == c;
        assert(s[j] == c);
    }
    if s.contains(c) {
        let j = choose|j: int| 0 <= j < s.len() && s[j] == c;
        assert(t[j] == c);
    }
    if c == x {
        assert(t[s.len() as int] == c);
    }
}

/// Normalises every name, dropping the blank ones.
fn normalize_all_strings(names: &Vec<String>) -> (r: Vec<String>)
    ensures
        r.deep_view() == normalized_all(names.deep_view()),
{
    let mut out: Vec<String> = Vec::new();
    let mut i: usize = 0;
    proof {
        crate::views::lemma_vec_dview(*names);
    }
    while i < names.len()
        invariant
            i <= names.len(),
            names.deep_view().len() == names.len(),
            forall|j: int| 0 <= j < names.len() ==> #[trigger] names.deep_view()[j] == names@[j]@,
            out.deep_view() == normalized_all(names.deep_view().take(i as int)),
        decreases names.len() - i,
    {
        let v = chars_of(names[i].as_str());
        let ghost prev = out@;
        proof {
            assert(names.deep_view().take(i + 1).drop_last() =~= names.deep_view().take(i as int));
        }
        match normalize_chars_category(&v) {
            Some(t) => {
                let s = string_of(&t);
                out.push(s);
                proof {
                    crate::views::lemma_vec_dview(out);
                    crate::views::lemma_dview_push(prev, s);
                }
            },
            None => {},
        }
        i += 1;
    }
    assert(names.deep_view().take(names.len() as int) =~= names.deep_view());
    out
}

/// The categories of a comma-separated filter, each once, in ascending order.
pub fn normalize_manifest_category_filter(category: Option<&str>) -> (r: Vec<String>)
    ensures
        is_strictly_sorted::<String>(r.deep_view()),
        forall|c: Seq<char>| #[trigger]
            r.deep_view().contains(c) <==> filter_categories(str_opt_view(category)).contains(c),
{
    match category {
        None => {
            let r: Vec<String> = Vec::new();
            assert(r.deep_view() =~= Seq::<Seq<char>>::empty());
            r
        },
        Some(c) => {
            let v = chars_of(c);
            let pieces = split_chars(&v, CharSet::Only(','));
            let names = crate::text::strings_of(&pieces);
            let normalized = normalize_all_strings(&names);
            sorted_unique(normalized)
        },
    }
}

/// Whether the filter admits the category.
pub fn manifest_category_filter_matches(filter: &Vec<String>, category: &str) -> (r: bool)
    ensures
        r == filter_matches(filter.deep_view(), category@),
{
    proof {
        crate::views::lemma_vec_dview(*filter);
    }
    if filter.len() == 0 {
        return true;
    }
    let mut i: usize = 0;
    while i < filter.len()
        invariant
            i <= filter.len(),
            filter.deep_view().len() == filter.len(),
            forall|j: int| 0 <= j < filter.len() ==> #[trigger] filter.deep_view()[j] == filter@[j]@,
            forall|j: int| 0 <= j < i ==> filter.deep_view()[j] != category@,
        decreases filter.len() - i,
    {
        if str_eq(filter[i].as_str(), category) {
            assert(filter.deep_view()[i as int] == category@);
            return true;
        }
        i += 1;
    }
    false
}

/// The filter argument that a preset stands for (its categories joined with
/// commas), or else the category given.
pub fn manifest_category_filter_argument(
    category: Option<&str>,
    preset: Option<CoveragePreset>,
) -> (r: Option<String>)
    ensures
        string_opt_view(r) == (match preset {
            Some(p) => Some(join_with(coverage_categories(p), ","@)),
            None => str_opt_view(category),
        }),
{
    match preset {
        Some(p) => {
            let cats = p.categories();
            Some(join_strings(&cats, ","))
        },
        None => match category {
            Some(c) => Some(c.to_string()),
            None => None,
        },
    }
}

// ---------------------------------------------------------------------------
// Required categories
// ---------------------------------------------------------------------------

/// The preset's categories, if one is given, followed by the ones given one
/// by one.
pub fn manifest_required_categories_with_preset(
    required_categories: &Vec<String>,
    preset: Option<CoveragePreset>,
) -> (r: Vec<String>)
    ensures
        r.deep_view() == (match preset {
            Some(p) => coverage_categories(p),
            None => Seq::empty(),
        }) + required_categories.deep_view(),
{
    let mut out: Vec<String> = match preset {
        Some(p) => p.categories(),
        None => Vec::new(),
    };
    let ghost start = out.deep_view();
    let mut i: usize = 0;
    proof {
        crate::views::lemma_vec_dview(*required_categories);
    }
    while i < required_categories.len()
        invariant
            i <= required_categories.len(),
            required_categories.deep_view().len() == required_categories.len(),
            forall|j: int|
                0 <= j < required_categories.len() ==> #[trigger] required_categories.deep_view()[j]
                    == required_categories@[j]@,
            out.deep_view() == start + required_categories.deep_view().take(i as int),
        decreases required_categories.len() - i,
    {
        let ghost prev = out@;
        let s = copy_string(&required_categories[i]);
        out.push(s);
        proof {
            crate::views::lemma_vec_dview(out);
            crate::views::lemma_dview_push(prev, s);
        }
        i += 1;
        assert(out.deep_view() =~= start + required_categories.deep_view().take(i as int));
    }
    assert(required_categories.deep_view().take(required_categories.len() as int)
        =~= required_categories.deep_view());
    out
}

/// A minimum of one document for each category of the preset, if one is
/// given, followed by the minimums given one by one.
pub fn manifest_min_category_counts_with_preset(
    min_category_counts: &Vec<CategoryCountSpec>,
    preset: Option<CoveragePreset>,
) -> (r: Vec<CategoryCountSpec>)
    ensures
        r.deep_view() == (match preset {
            Some(p) => preset_minimums(coverage_categories(p)),
            None => Seq::empty(),
        }) + min_category_counts.deep_view(),
{
    let mut out: Vec<CategoryCountSpec> = Vec::new();
    match preset {
        Some(p) => {
            let cats = p.categories();
            let mut i: usize = 0;
            proof {
                crate::views::lemma_vec_dview(cats);
            }
            while i < cats.len()
                invariant
                    i <= cats.len(),
                    cats.deep_view() == coverage_categories(p),
                    cats.deep_view().len() == cats.len(),
                    forall|j: int| 0 <= j < cats.len() ==> #[trigger] cats.deep_view()[j] == cats@[j]@,
                    out.deep_view() == preset_minimums(cats.deep_view().take(i as int)),
                decreases cats.len() - i,
            {
                let ghost prev = out@;
                let item = CategoryCountSpec { category: copy_string(&cats[i]), count: 1 };
                out.push(item);
                proof {
                    crate::views::lemma_vec_dview(out);
                    crate::views::lemma_dview_push(prev, item);
                }
                i += 1;
                assert(out.deep_view() =~= preset_minimums(cats.deep_view().take(i as int)));
            }
            assert(cats.deep_view().take(cats.len() as int) =~= cats.deep_view());
        },
        None => {
            assert(out.deep_view() =~= Seq::<(Seq<char>, usize)>::empty());
        },
    }
    let ghost start = out.deep_view();
    let mut k: usize = 0;
    proof {
        crate::views::lemma_vec_dview(*min_category_counts);
    }
    while k < min_category_counts.len()
        invariant
            k <= min_category_counts.len(),
            min_category_counts.deep_view().len() == min_category_counts.len(),
            forall|j: int|
                0 <= j < min_category_counts.len() ==> #[trigger] min_category_counts.deep_view()[j]
                    == min_category_counts@[j].deep_view(),
            out.deep_view() == start + min_category_counts.deep_view().take(k as int),
        decreases min_category_counts.len() - k,
    {
        let ghost prev = out@;
        let item = min_category_counts[k].duplicate();
        out.push(item);
        proof {
            crate::views::lemma_vec_dview(out);
            crate::views::lemma_dview_push(prev, item);
        }
        k += 1;
        assert(out.deep_view() =~= start + min_category_counts.deep_view().take(k as int));
    }
    assert(min_category_counts.deep_view().take(min_category_counts.len() as int)
        =~= min_category_counts.deep_view());
    out
}

/// A minimum of one for each category.
pub open spec fn preset_minimums(categories: Seq<Seq<char>>) -> Seq<(Seq<char>, usize)> {
    Seq::new(categories.len(), |i: int| (categories[i], 1usize))
}

/// The required categories, normalised, admitted by the filter, each once and
/// in ascending order.
pub fn normalize_required_categories(categories: &Vec<String>, filter: Option<&str>) -> (r: Vec<
    String,
>)
    ensures
        is_required_categories(
            r.deep_view(),
            categories.deep_view(),
            filter_categories(str_opt_view(filter)),
        ),
{
    let filt = normalize_manifest_category_filter(filter);
    let names = normalize_all_strings(categories);
    let ghost fs = filter_categories(str_opt_view(filter));
    let ghost ns = names.deep_view();
    let mut kept: Vec<String> = Vec::new();
    let mut i: usize = 0;
    proof {
        crate::views::lemma_vec_dview(names);
        crate::views::lemma_vec_dview(filt);
        // The filter's list and its normalised form hold the same names.
        assert(filt.deep_view().len() == 0 <==> fs.len() == 0) by {
            if fs.len() > 0 {
                assert(fs.contains(fs[0]));
                assert(filt.deep_view().contains(fs[0]));
            }
            if filt.deep_view().len() > 0 {
                assert(filt.deep_view().contains(filt.deep_view()[0]));
            }
        }
    }
    while i < names.len()
        invariant
            i <= names.len(),
            ns == names.deep_view(),
            ns.len() == names.len(),
            forall|j: int| 0 <= j < names.len() ==> #[trigger] ns[j] == names@[j]@,
            filt.deep_view().len() == 0 <==> fs.len() == 0,
            forall|c: Seq<char>| #[trigger] filt.deep_view().contains(c) <==> fs.contains(c),
            forall|c: Seq<char>| #[trigger]
                kept.deep_view().contains(c) <==> (ns.take(i as int).contains(c) && filter_matches(
                    fs,
                    c,
                )),
        decreases names.len() - i,
    {
        let ghost prev = kept@;
        let ghost before = kept.deep_view();
        let ghost x = ns[i as int];
        let m = manifest_category_filter_matches(&filt, names[i].as_str());
        proof {
            if fs.len() > 0 && filt.deep_view().len() > 0 {
                assert(filt.deep_view().contains(x) == fs.contains(x));
            }
            assert(m == filter_matches(fs, x));
        }
        if m {
            let s = copy_string(&names[i]);
            kept.push(s);
            proof {
                crate::views::lemma_vec_dview(kept);
                crate::views::lemma_dview_push(prev, s);
            }
        }
        proof {
            let t0 = ns.take(i as int);
            let t1 = ns.take(i + 1);
            assert(t1 =~= t0.push(x));
            if m {
                assert(kept.deep_view() =~= before.push(x));
            } else {
                assert(kept.deep_view() =~= before);
            }
            assert forall|c: Seq<char>| #[trigger]
                kept.deep_view().contains(c) <==> (t1.contains(c) && filter_matches(fs, c)) by {
                lemma_push_contains(t0, x, c);
                lemma_push_contains(before, x, c);
            }
        }
        i += 1;
    }
    assert(ns.take(names.len() as int) =~= ns);
    sorted_unique(kept)
}

/// What `normalize_required_categories` gives: the admitted normalised
/// categories, each once, in ascending order.
pub open spec fn is_required_categories(
    r: Seq<Seq<char>>,
    categories: Seq<Seq<char>>,
    filter: Seq<Seq<char>>,
) -> bool {
    &&& is_strictly_sorted::<String>(r)
    &&& forall|c: Seq<char>| #[trigger]
        r.contains(c) <==> (normalized_all(categories).contains(c) && filter_matches(filter, c))
}

/// A normalised category is its own normal form.
pub proof fn lemma_normalized_category_stable(s: Seq<char>)
    ensures
        normalized_category(s) matches Some(c) ==> normalized_category(c) == Some(c),
{
    crate::text::lemma_trim_set_idempotent(s, CharSet::Whitespace);
}

proof fn lemma_normalized_all_fixed(ps: Seq<Seq<char>>)
    ensures
        forall|i: int|
            0 <= i < normalized_all(ps).len() ==> normalized_category(#[trigger] normalized_all(ps)[i])
                == Some(normalized_all(ps)[i]),
    decreases ps.len(),
{
    if ps.len() > 0 {
        let prev = ps.drop_last();
        lemma_normalized_all_fixed(prev);
        lemma_normalized_category_stable(ps.last());
        let n = normalized_all(ps);
        assert forall|i: int| 0 <= i < n.len() implies normalized_category(#[trigger] n[i]) == Some(
            n[i],
        ) by {
            if i < normalized_all(prev).len() {
                assert(n[i] == normalized_all(prev)[i]);
            }
        }
    }
}

proof fn lemma_normalized_all_of_fixed(ps: Seq<Seq<char>>)
    requires
        forall|i: int| 0 <= i < ps.len() ==> normalized_category(#[trigger] ps[i]) == Some(ps[i]),
    ensures
        normalized_all(ps) == ps,
    decreases ps.len(),
{
    if ps.len() > 0 {
        let prev = ps.drop_last();
        assert forall|i: int| 0 <= i < prev.len() implies normalized_category(#[trigger] prev[i])
            == Some(prev[i]) by {
            assert(prev[i] == ps[i]);
        }
        lemma_normalized_all_of_fixed(prev);
        assert(normalized_category(ps[ps.len() - 1]) == Some(ps[ps.len() - 1]));
        assert(prev.push(ps.last()) =~= ps);
    }
}

/// Normalising the required categories a second time, with no filter,
/// gives them back unchanged.
pub proof fn lemma_required_categories_idempotent(
    r: Seq<Seq<char>>,
    categories: Seq<Seq<char>>,
    filter: Seq<Seq<char>>,
    again: Seq<Seq<char>>,
)
    requires
        is_required_categories(r, categories, filter),
        is_required_categories(again, r, Seq::empty()),
    ensures
        again == r,
{
    lemma_normalized_all_fixed(categories);
    assert forall|i: int| 0 <= i < r.len() implies normalized_category(#[trigger] r[i]) == Some(
        r[i],
    ) by {
        assert(r.contains(r[i]));
        let n = normalized_all(categories);
        let j = choose|j: int| 0 <= j < n.len() && n[j] == r[i];
        assert(normalized_category(n[j]) == Some(n[j]));
    }
    lemma_normalized_all_of_fixed(r);
    assert forall|c: Seq<char>| #![trigger again.contains(c)] #![trigger r.contains(c)]
        again.contains(c) <==> r.contains(c) by {
        assert(filter_matches(Seq::<Seq<char>>::empty(), c));
    }
    crate::order::lemma_strictly_sorted_unique::<String>(again, r);
}

// ---------------------------------------------------------------------------
// Minimum counts
// ---------------------------------------------------------------------------

/// Per category, the largest count asked for; counts are taken in order and
/// a later, smaller one leaves the larger in place.
pub open spec fn max_counts(entries: Seq<(Seq<char>, usize)>) -> Map<Seq<char>, usize>
    decreases entries.len(),
{
    if entries.len() == 0 {
        Map::empty()
    } else {
        let prev = max_counts(entries.drop_last());
        match normalized_category(entries.last().0) {
            None => prev,
            Some(k) => if prev.dom().contains(k) {
                prev.insert(
                    k,
                    if prev[k] >= entries.last().1 {
                        prev[k]
                    } else {
                        entries.last().1
                    },
                )
            } else {
                prev.insert(k, entries.last().1)
            },
        }
    }
}

/// Of the entries, those with a positive count whose category the filter
/// admits.
pub open spec fn admitted_entries(entries: Seq<(Seq<char>, usize)>, filter: Seq<Seq<char>>) -> Seq<
    (Seq<char>, usize),
>
    decreases entries.len(),
{
    if entries.len() == 0 {
        Seq::empty()
    } else {
        let prev = admitted_entries(entries.drop_last(), filter);
        let e = entries.last();
        if e.1 != 0 && (match normalized_category(e.0) {
            Some(k) => filter_matches(filter, k),
            None => false,
        }) {
            prev.push(e)
        } else {
            prev
        }
    }
}

/// The entries of a map, in key order.
pub open spec fn map_entries(m: CountMap<usize>) -> Seq<(Seq<char>, usize)> {
    Seq::new(m.keys_view().len(), |i: int| (m.keys_view()[i], m.values_view()[i]))
}

/// Raises the count for `category` to at least `count`.
fn raise_count(m: &mut CountMap<usize>, category: String, count: usize)
    requires
        old(m).wf(),
    ensures
        final(m).wf(),
        final(m).as_map() == (if old(m).as_map().dom().contains(category@) {
            old(m).as_map().insert(
                category@,
                if old(m).as_map()[category@] >= count {
                    old(m).as_map()[category@]
                } else {
                    count
                },
            )
        } else {
            old(m).as_map().insert(category@, count)
        }),
{
    match m.get(category.as_str()) {
        Some(existing) => {
            let v = if existing >= count {
                existing
            } else {
                count
            };
            m.set(category, v);
        },
        None => {
            m.set(category, count);
        },
    }
}

/// The minimum count per category, the largest where a category is given
/// more than once; blank categories are dropped.
pub fn min_category_counts_from_specs(specs: &Vec<CategoryCountSpec>) -> (r: CountMap<usize>)
    ensures
        r.wf(),
        r.as_map() == max_counts(specs.deep_view()),
{
    let mut counts: CountMap<usize> = CountMap::new();
    let mut i: usize = 0;
    proof {
        crate::views::lemma_vec_dview(*specs);
    }
    while i < specs.len()
        invariant
            i <= specs.len(),
            specs.deep_view().len() == specs.len(),
            forall|j: int| 0 <= j < specs.len() ==> #[trigger] specs.deep_view()[j] == specs@[j].deep_view(),
            counts.wf(),
            counts.as_map() == max_counts(specs.deep_view().take(i as int)),
        decreases specs.len() - i,
    {
        proof {
            assert(specs.deep_view().take(i + 1).drop_last() =~= specs.deep_view().take(i as int));
        }
        let v = chars_of(specs[i].category.as_str());
        match normalize_chars_category(&v) {
            Some(t) => raise_count(&mut counts, string_of(&t), specs[i].count),
            None => {},
        }
        i += 1;
    }
    assert(specs.deep_view().take(specs.len() as int) =~= specs.deep_view());
    counts
}

/// The minimum counts of a manifest, with their categories normalised, zero
/// counts dropped and only the categories the filter admits.
pub fn normalize_min_category_counts(categories: &CountMap<usize>, filter: Option<&str>) -> (r:
    CountMap<usize>)
    requires
        categories.wf(),
    ensures
        r.wf(),
        r.as_map() == max_counts(
            admitted_entries(map_entries(*categories), filter_categories(str_opt_view(filter))),
        ),
{
    let filt = normalize_manifest_category_filter(filter);
    let ghost fs = filter_categories(str_opt_view(filter));
    let ghost es = map_entries(*categories);
    proof {
        crate::views::lemma_vec_dview(filt);
        assert(filt.deep_view().len() == 0 <==> fs.len() == 0) by {
            if fs.len() > 0 {
                assert(fs.contains(fs[0]));
                assert(filt.deep_view().contains(fs[0]));
            }
            if filt.deep_view().len() > 0 {
                assert(filt.deep_view().contains(filt.deep_view()[0]));
            }
        }
    }
    let mut counts: CountMap<usize> = CountMap::new();
    let n = categories.len();
    let mut i: usize = 0;
    while i < n
        invariant
            i <= n,
            n == categories.keys_view().len(),
            categories.wf(),
            es == map_entries(*categories),
            filt.deep_view().len() == 0 <==> fs.len() == 0,
            forall|c: Seq<char>| #[trigger] filt.deep_view().contains(c) <==> fs.contains(c),
            counts.wf(),
            counts.as_map() == max_counts(admitted_entries(es.take(i as int), fs)),
        decreases n - i,
    {
        proof {
            assert(es.take(i + 1).drop_last() =~= es.take(i as int));
        }
        let key = categories.key(i);
        let count = categories.value(i);
        proof {
            assert(es.take(i + 1).last() == es[i as int]);
            assert(es[i as int] == (key@, count));
            let pre = admitted_entries(es.take(i as int), fs);
            assert(pre.push(es[i as int]).drop_last() =~= pre);
        }
        let v = chars_of(key.as_str());
        if count != 0 {
            match normalize_chars_category(&v) {
                Some(t) => {
                    let s = string_of(&t);
                    let m = manifest_category_filter_matches(&filt, s.as_str());
                    proof {
                        if fs.len() > 0 && filt.deep_view().len() > 0 {
                            assert(filt.deep_view().contains(s@) == fs.contains(s@));
                        }
                        assert(m == filter_matches(fs, s@));
                    }
                    if m {
                        raise_count(&mut counts, s, count);
                    }
                },
                None => {},
            }
        }
        i += 1;
    }
    assert(es.take(n as int) =~= es);
    counts
}

// ---------------------------------------------------------------------------
// Coverage
// ---------------------------------------------------------------------------

/// A category with fewer documents than its minimum.
pub struct CategoryShortfall {
    pub category: String,
    pub required: usize,
    pub actual: usize,
}

impl DeepView for CategoryShortfall {
    type V = (Seq<char>, usize, usize);

    open spec fn deep_view(&self) -> (Seq<char>, usize, usize) {
        (self.category@, self.required, self.actual)
    }
}

/// How the categories of a corpus compare with what was required.
pub struct CategoryCoverageOutput {
    pub required: Vec<String>,
    pub present: Vec<String>,
    pub missing: Vec<String>,
    pub min_category_counts: CountMap<usize>,
    pub under_minimum: Vec<CategoryShortfall>,
    pub passed: bool,
}

/// The number of documents a category has, zero where it has none.
pub open spec fn count_of(counts: Map<Seq<char>, usize>, c: Seq<char>) -> usize {
    if counts.dom().contains(c) {
        counts[c]
    } else {
        0
    }
}

/// The required categories that no document carries, in order.
pub open spec fn missing_categories(required: Seq<Seq<char>>, counts: Map<Seq<char>, usize>) -> Seq<
    Seq<char>,
>
    decreases required.len(),
{
    if required.len() == 0 {
        Seq::empty()
    } else {
        let prev = missing_categories(required.drop_last(), counts);
        if counts.dom().contains(required.last()) {
            prev
        } else {
            prev.push(required.last())
        }
    }
}

/// The minimums that are not met: category, minimum and actual count, in
/// the order of the minimums.
pub open spec fn shortfalls(
    minimums: Seq<(Seq<char>, usize)>,
    counts: Map<Seq<char>, usize>,
) -> Seq<(Seq<char>, usize, usize)>
    decreases minimums.len(),
{
    if minimums.len() == 0 {
        Seq::empty()
    } else {
        let prev = shortfalls(minimums.drop_last(), counts);
        let (c, req) = minimums.last();
        if count_of(counts, c) < req {
            prev.push((c, req, count_of(counts, c)))
        } else {
            prev
        }
    }
}

/// Compares the categories that documents carry with the required ones and
/// the minimum counts; there is no report when nothing is required.
pub fn category_coverage(
    required: Vec<String>,
    min_category_counts: CountMap<usize>,
    category_counts: &CountMap<usize>,
) -> (r: Option<CategoryCoverageOutput>)
    requires
        min_category_counts.wf(),
        category_counts.wf(),
    ensures
        r is None <==> (required@.len() == 0 && min_category_counts.keys_view().len() == 0),
        r matches Some(out) ==> {
            &&& out.required.deep_view() == required.deep_view()
            &&& out.present.deep_view() == category_counts.keys_view()
            &&& out.missing.deep_view() == missing_categories(
                required.deep_view(),
                category_counts.as_map(),
            )
            &&& out.min_category_counts.wf()
            &&& out.min_category_counts.keys_view() == min_category_counts.keys_view()
            &&& out.min_category_counts.values_view() == min_category_counts.values_view()
            &&& out.under_minimum.deep_view() == shortfalls(
                map_entries(min_category_counts),
                category_counts.as_map(),
            )
            &&& out.passed == (out.missing@.len() == 0 && out.under_minimum@.len() == 0)
        },
{
    if required.len() == 0 && min_category_counts.len() == 0 {
        return None;
    }
    let ghost cm = category_counts.as_map();
    // Present: the keys of the counts, in order.
    let mut present: Vec<String> = Vec::new();
    let n = category_counts.len();
    let mut i: usize = 0;
    while i < n
        invariant
            i <= n,
            n == category_counts.keys_view().len(),
            category_counts.wf(),
            present.deep_view() == category_counts.keys_view().take(i as int),
        decreases n - i,
    {
        let ghost prev = present@;
        let s = copy_string(category_counts.key(i));
        present.push(s);
        proof {
            crate::views::lemma_vec_dview(present);
            crate::views::lemma_dview_push(prev, s);
        }
        i += 1;
        assert(present.deep_view() =~= category_counts.keys_view().take(i as int));
    }
    assert(category_counts.keys_view().take(n as int) =~= category_counts.keys_view());
    // Missing: the required categories no document carries.
    let mut missing: Vec<String> = Vec::new();
    let mut j: usize = 0;
    proof {
        crate::views::lemma_vec_dview(required);
    }
    while j < required.len()
        invariant
            j <= required.len(),
            category_counts.wf(),
            cm == category_counts.as_map(),
            required.deep_view().len() == required.len(),
            forall|k: int| 0 <= k < required.len() ==> #[trigger] required.deep_view()[k] == required@[k]@,
            missing.deep_view() == missing_categories(required.deep_view().take(j as int), cm),
        decreases required.len() - j,
    {
        proof {
            assert(required.deep_view().take(j + 1).drop_last() =~= required.deep_view().take(
                j as int,
            ));
        }
        let found = category_counts.get(required[j].as_str());
        if found.is_none() {
            let ghost prev = missing@;
            let s = copy_string(&required[j]);
            missing.push(s);
            proof {
                crate::views::lemma_vec_dview(missing);
                crate::views::lemma_dview_push(prev, s);
            }
        }
        j += 1;
    }
    assert(required.deep_view().take(required.len() as int) =~= required.deep_view());
    // Under minimum: the minimums that the counts do not reach.
    let mut under: Vec<CategoryShortfall> = Vec::new();
    let ghost ms = map_entries(min_category_counts);
    let m = min_category_counts.len();
    let mut k: usize = 0;
    while k < m
        invariant
            k <= m,
            m == min_category_counts.keys_view().len(),
            min_category_counts.wf(),
            category_counts.wf(),
            cm == category_counts.as_map(),
            ms == map_entries(min_category_counts),
            under.deep_view() == shortfalls(ms.take(k as int), cm),
        decreases m - k,
    {
        proof {
            assert(ms.take(k + 1).drop_last() =~= ms.take(k as int));
        }
        let key = min_category_counts.key(k);
        let req = min_category_counts.value(k);
        let actual: usize = match category_counts.get(key.as_str()) {
            Some(a) => a,
            None => 0,
        };
        if actual < req {
            let ghost prev = under@;
            let item = CategoryShortfall { category: copy_string(key), required: req, actual };
            under.push(item);
            proof {
                crate::views::lemma_vec_dview(under);
                crate::views::lemma_dview_push(prev, item);
            }
        }
        k += 1;
    }
    assert(ms.take(m as int) =~= ms);
    let passed = missing.len() == 0 && under.len() == 0;
    Some(
        CategoryCoverageOutput {
            required,
            present,
            missing,
            min_category_counts,
            under_minimum: under,
            passed,
        },
    )
}

/// Coverage passes exactly when every required category has a document and
/// every minimum count is met.
pub proof fn lemma_coverage_passes_iff(
    required: Seq<Seq<char>>,
    minimums: Seq<(Seq<char>, usize)>,
    counts: Map<Seq<char>, usize>,
)
    ensures
        (missing_categories(required, counts).len() == 0 && shortfalls(minimums, counts).len() == 0)
            <==> ((forall|i: int| 0 <= i < required.len() ==> counts.dom().contains(#[trigger] required[i]))
            && (forall|i: int|
            0 <= i < minimums.len() ==> count_of(counts, (#[trigger] minimums[i]).0) >= minimums[i].1)),
{
    lemma_missing_empty(required, counts);
    lemma_shortfalls_empty(minimums, counts);
}

proof fn lemma_missing_empty(required: Seq<Seq<char>>, counts: Map<Seq<char>, usize>)
    ensures
        missing_categories(required, counts).len() == 0 <==> (forall|i: int|
            0 <= i < required.len() ==> counts.dom().contains(#[trigger] required[i])),
    decreases required.len(),
{
    if required.len() > 0 {
        let prev = required.drop_last();
        lemma_missing_empty(prev, counts);
        if counts.dom().contains(required.last()) {
            if forall|i: int| 0 <= i < prev.len() ==> counts.dom().contains(#[trigger] prev[i]) {
                assert forall|i: int| 0 <= i < required.len() implies counts.dom().contains(
                    #[trigger] required[i],
                ) by {
                    if i < prev.len() {
                        assert(prev[i] == required[i]);
                    }
                }
            }
            if forall|i: int| 0 <= i < required.len() ==> counts.dom().contains(#[trigger] required[i]) {
                assert forall|i: int| 0 <= i < prev.len() implies counts.dom().contains(
                    #[trigger] prev[i],
                ) by {
                    assert(prev[i] == required[i]);
                }
            }
        } else {
            assert(!counts.dom().contains(required[required.len() - 1]));
        }
    }
}

proof fn lemma_shortfalls_empty(minimums: Seq<(Seq<char>, usize)>, counts: Map<Seq<char>, usize>)
    ensures
        shortfalls(minimums, counts).len() == 0 <==> (forall|i: int|
            0 <= i < minimums.len() ==> count_of(counts, (#[trigger] minimums[i]).0)
                >= minimums[i].1),
    decreases minimums.len(),
{
    if minimums.len() > 0 {
        let prev = minimums.drop_last();
        lemma_shortfalls_empty(prev, counts);
        let last = minimums.last();
        if count_of(counts, last.0) >= last.1 {
            if forall|i: int|
                0 <= i < prev.len() ==> count_of(counts, (#[trigger] prev[i]).0) >= prev[i].1 {
                assert forall|i: int| 0 <= i < minimums.len() implies count_of(
                    counts,
                    (#[trigger] minimums[i]).0,
                ) >= minimums[i].1 by {
                    if i < prev.len() {
                        assert(prev[i] == minimums[i]);
                    }
                }
            }
            if forall|i: int|
                0 <= i < minimums.len() ==> count_of(counts, (#[trigger] minimums[i]).0)
                    >= minimums[i].1 {
                assert forall|i: int| 0 <= i < prev.len() implies count_of(
                    counts,
                    (#[trigger] prev[i]).0,
                ) >= prev[i].1 by {
                    assert(prev[i] == minimums[i]);
                }
            }
        } else {
            assert(count_of(counts, minimums[minimums.len() - 1].0) < minimums[minimums.len() - 1].1);
        }
    }
}

/// The minimum kept for a category is the largest count asked for it: at
/// least every such count, and one of them.
pub proof fn lemma_max_counts(entries: Seq<(Seq<char>, usize)>)
    ensures
        forall|i: int|
            0 <= i < entries.len() && (#[trigger] normalized_category(entries[i].0)) is Some ==> {
                let k = normalized_category(entries[i].0)->0;
                &&& max_counts(entries).dom().contains(k)
                &&& max_counts(entries)[k] >= entries[i].1
            },
        forall|k: Seq<char>| #[trigger]
            max_counts(entries).dom().contains(k) ==> exists|i: int|
                0 <= i < entries.len() && normalized_category(entries[i].0) == Some(k)
                    && max_counts(entries)[k] == #[trigger] entries[i].1,
    decreases entries.len(),
{
    if entries.len() > 0 {
        let prev = entries.drop_last();
        lemma_max_counts(prev);
        let n = entries.len() - 1;
        assert forall|i: int|
            0 <= i < entries.len() && (#[trigger] normalized_category(entries[i].0)) is Some implies {
            let k = normalized_category(entries[i].0)->0;
            &&& max_counts(entries).dom().contains(k)
            &&& max_counts(entries)[k] >= entries[i].1
        } by {
            if i < n {
                assert(prev[i] == entries[i]);
                assert(normalized_category(prev[i].0) is Some);
            }
        }
        assert forall|k: Seq<char>| #[trigger]
            max_counts(entries).dom().contains(k) implies exists|i: int|
            0 <= i < entries.len() && normalized_category(entries[i].0) == Some(k)
                && max_counts(entries)[k] == #[trigger] entries[i].1 by {
            if normalized_category(entries[n].0) == Some(k) && (!max_counts(prev).dom().contains(k)
                || max_counts(entries)[k] == entries[n].1) {
                assert(max_counts(entries)[k] == entries[n].1);
            } else {
                assert(max_counts(prev).dom().contains(k));
                assert(max_counts(entries)[k] == max_counts(prev)[k]);
                let j = choose|j: int|
                    0 <= j < prev.len() && normalized_category(prev[j].0) == Some(k)
                        && max_counts(prev)[k] == #[trigger] prev[j].1;
                assert(entries[j] == prev[j]);
            }
        }
    }
}

/// The category a document is counted under: its trimmed category, or
/// `uncategorized` when it has none.
pub open spec fn document_category_spec(category: Option<Seq<char>>) -> Seq<char> {
    match category {
        Some(c) => if trim(c).len() == 0 {
            "uncategorized"@
        } else {
            trim(c)
        },
        None => "uncategorized"@,
    }
}

pub fn document_category(category: Option<&str>) -> (r: String)
    ensures
        r@ == document_category_spec(str_opt_view(category)),
{
    match normalize_manifest_category(category) {
        Some(c) => c,
        None => "uncategorized".to_string(),
    }
}

/// How many documents each category has.
pub open spec fn category_tally(categories: Seq<Option<Seq<char>>>) -> Map<Seq<char>, usize>
    decreases categories.len(),
{
    if categories.len() == 0 {
        Map::empty()
    } else {
        let prev = category_tally(categories.drop_last());
        let c = document_category_spec(categories.last());
        prev.insert(c, (count_of(prev, c) + 1) as usize)
    }
}

pub open spec fn string_opts_view(v: Seq<Option<String>>) -> Seq<Option<Seq<char>>> {
    Seq::new(v.len(), |i: int| string_opt_view(v[i]))
}

/// Counts the documents of each category.
pub fn count_document_categories(categories: &Vec<Option<String>>) -> (r: CountMap<usize>)
    ensures
        r.wf(),
        r.as_map() == category_tally(string_opts_view(categories@)),
{
    let ghost cs = string_opts_view(categories@);
    let mut counts: CountMap<usize> = CountMap::new();
    let mut i: usize = 0;
    while i < categories.len()
        invariant
            i <= categories.len(),
            cs == string_opts_view(categories@),
            counts.wf(),
            counts.as_map() == category_tally(cs.take(i as int)),
            forall|k: Seq<char>| #[trigger] counts.as_map().dom().contains(k) ==> counts.as_map()[k] <= i,
        decreases categories.len() - i,
    {
        proof {
            assert(cs.take(i + 1).drop_last() =~= cs.take(i as int));
        }
        let c = match &categories[i] {
            Some(s) => document_category(Some(s.as_str())),
            None => document_category(None),
        };
        let now: usize = match counts.get(c.as_str()) {
            Some(n) => n,
            None => 0,
        };
        assert(now <= i);
        counts.set(c, now + 1);
        i += 1;
    }
    assert(cs.take(categories.len() as int) =~= cs);
    counts
}

} // verus!
