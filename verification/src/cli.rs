//! The presets and small `NAME=VALUE` specs that the command line accepts.
use vstd::prelude::*;

use crate::numbers::{parse_unsigned, parse_unsigned_chars};
use crate::text::{chars_of, split_once, split_once_char, string_of, trim, trim_ws};

verus! {

broadcast use crate::views::lemma_char_vec_deep_view;

// ---------------------------------------------------------------------------
// Coverage presets
// ---------------------------------------------------------------------------

/// A named set of document categories that a corpus is expected to cover.
#[derive(Clone, Copy, PartialEq, Eq, Structural, Debug)]
pub enum CoveragePreset {
    GlyphrushV0,
    GlyphrushV0NativeText,
}

pub open spec fn coverage_preset_name(p: CoveragePreset) -> Seq<char> {
    match p {
        CoveragePreset::GlyphrushV0 => "glyphrush-v0"@,
        CoveragePreset::GlyphrushV0NativeText => "glyphrush-v0-native-text"@,
    }
}

/// The categories of the full preset; the native-text preset is the same
/// list without `scanned`.
pub open spec fn coverage_categories(p: CoveragePreset) -> Seq<Seq<char>> {
    match p {
        CoveragePreset::GlyphrushV0 => seq![
            "clean_digital"@,
            "scanned"@,
            "hybrid"@,
            "academic_columns"@,
            "tables"@,
            "forms"@,
            "rotated"@,
            "weird_encoding"@,
            "large"@,
        ],
        CoveragePreset::GlyphrushV0NativeText => seq![
            "clean_digital"@,
            "hybrid"@,
            "academic_columns"@,
            "tables"@,
            "forms"@,
            "rotated"@,
            "weird_encoding"@,
            "large"@,
        ],
    }
}

fn push_str(out: &mut Vec<String>, s: &str)
    ensures
        final(out).deep_view() == old(out).deep_view().push(s@),
{
    let ghost prev = out@;
    let t = s.to_string();
    out.push(t);
    proof {
        crate::views::lemma_vec_dview(*out);
        crate::views::lemma_dview_push(prev, t);
        crate::views::lemma_vec_dview(*old(out));
    }
}

impl CoveragePreset {
    pub fn name(self) -> (r: &'static str)
        ensures
            r@ == coverage_preset_name(self),
    {
        match self {
            CoveragePreset::GlyphrushV0 => "glyphrush-v0",
            CoveragePreset::GlyphrushV0NativeText => "glyphrush-v0-native-text",
        }
    }

    pub fn categories(self) -> (r: Vec<String>)
        ensures
            r.deep_view() == coverage_categories(self),
    {
        let mut out: Vec<String> = Vec::new();
        push_str(&mut out, "clean_digital");
        if self == CoveragePreset::GlyphrushV0 {
            push_str(&mut out, "scanned");
        }
        push_str(&mut out, "hybrid");
        push_str(&mut out, "academic_columns");
        push_str(&mut out, "tables");
        push_str(&mut out, "forms");
        push_str(&mut out, "rotated");
        push_str(&mut out, "weird_encoding");
        push_str(&mut out, "large");
        assert(out.deep_view() =~= coverage_categories(self));
        out
    }
}

// ---------------------------------------------------------------------------
// External baselines
// ---------------------------------------------------------------------------

/// An external parser to compare against: a name and the program to run.
pub struct BaselineSpec {
    pub name: String,
    pub command: String,
}

impl DeepView for BaselineSpec {
    type V = (Seq<char>, Seq<char>);

    open spec fn deep_view(&self) -> (Seq<char>, Seq<char>) {
        (self.name@, self.command@)
    }
}

/// A named set of external baselines.
#[derive(Clone, Copy, PartialEq, Eq, Structural, Debug)]
pub enum BaselinePreset {
    GlyphrushV0,
}

pub open spec fn baseline_preset_name(p: BaselinePreset) -> Seq<char> {
    match p {
        BaselinePreset::GlyphrushV0 => "glyphrush-v0"@,
    }
}

pub open spec fn baseline_preset_specs(p: BaselinePreset) -> Seq<(Seq<char>, Seq<char>)> {
    match p {
        BaselinePreset::GlyphrushV0 => seq![
            ("liteparse"@, "tools/baselines/liteparse-text.sh"@),
            ("liteparse-no-ocr"@, "tools/baselines/liteparse-no-ocr-text.sh"@),
            ("pymupdf"@, "tools/baselines/pymupdf-text.sh"@),
            ("pdfplumber"@, "tools/baselines/pdfplumber-text.sh"@),
        ],
    }
}

fn push_spec(out: &mut Vec<BaselineSpec>, name: &str, command: &str)
    ensures
        final(out).deep_view() == old(out).deep_view().push((name@, command@)),
{
    let ghost prev = out@;
    let spec = BaselineSpec { name: name.to_string(), command: command.to_string() };
    out.push(spec);
    proof {
        crate::views::lemma_vec_dview(*out);
        crate::views::lemma_dview_push(prev, spec);
        crate::views::lemma_vec_dview(*old(out));
    }
}

impl BaselinePreset {
    pub fn name(self) -> (r: &'static str)
        ensures
            r@ == baseline_preset_name(self),
    {
        match self {
            BaselinePreset::GlyphrushV0 => "glyphrush-v0",
        }
    }

    pub fn specs(self) -> (r: Vec<BaselineSpec>)
        ensures
            r.deep_view() == baseline_preset_specs(self),
    {
        let mut out: Vec<BaselineSpec> = Vec::new();
        push_spec(&mut out, "liteparse", "tools/baselines/liteparse-text.sh");
        push_spec(&mut out, "liteparse-no-ocr", "tools/baselines/liteparse-no-ocr-text.sh");
        push_spec(&mut out, "pymupdf", "tools/baselines/pymupdf-text.sh");
        push_spec(&mut out, "pdfplumber", "tools/baselines/pdfplumber-text.sh");
        assert(out.deep_view() =~= baseline_preset_specs(self));
        out
    }
}

/// What `NAME=EXECUTABLE` parses to: both sides trimmed and non-empty.
pub open spec fn baseline_spec_parse(v: Seq<char>) -> Result<(Seq<char>, Seq<char>), Seq<char>> {
    match split_once(v, '=') {
        None => Err("baseline must use NAME=EXECUTABLE"@),
        Some((n, c)) => if trim(n).len() == 0 {
            Err("baseline name cannot be empty"@)
        } else if trim(c).len() == 0 {
            Err("baseline executable cannot be empty"@)
        } else {
            Ok((trim(n), trim(c)))
        },
    }
}

impl BaselineSpec {
    pub fn duplicate(&self) -> (r: BaselineSpec)
        ensures
            r.deep_view() == self.deep_view(),
    {
        BaselineSpec { name: self.name.clone(), command: self.command.clone() }
    }

    /// The program, as it is shown in reports.
    pub fn command_label(&self) -> (r: String)
        ensures
            r@ == self.command@,
    {
        self.command.clone()
    }

    /// Parses `NAME=EXECUTABLE`.
    pub fn parse(value: &str) -> (r: Result<BaselineSpec, String>)
        ensures
            match r {
                Ok(b) => baseline_spec_parse(value@) == Ok::<(Seq<char>, Seq<char>), Seq<char>>(
                    b.deep_view(),
                ),
                Err(e) => baseline_spec_parse(value@) == Err::<(Seq<char>, Seq<char>), Seq<char>>(
                    e@,
                ),
            },
    {
        let v = chars_of(value);
        match split_once_char(&v, '=') {
            None => Err("baseline must use NAME=EXECUTABLE".to_string()),
            Some((n, c)) => {
                let name = trim_ws(&n);
                let command = trim_ws(&c);
                if name.len() == 0 {
                    Err("baseline name cannot be empty".to_string())
                } else if command.len() == 0 {
                    Err("baseline executable cannot be empty".to_string())
                } else {
                    Ok(BaselineSpec { name: string_of(&name), command: string_of(&command) })
                }
            },
        }
    }
}

impl std::str::FromStr for BaselineSpec {
    type Err = String;

    fn from_str(value: &str) -> (r: Result<BaselineSpec, String>)
        ensures
            match r {
                Ok(b) => baseline_spec_parse(value@) == Ok::<(Seq<char>, Seq<char>), Seq<char>>(
                    b.deep_view(),
                ),
                Err(e) => baseline_spec_parse(value@) == Err::<(Seq<char>, Seq<char>), Seq<char>>(
                    e@,
                ),
            },
    {
        BaselineSpec::parse(value)
    }
}

/// The baselines of the preset, if one is given, followed by the ones given
/// one by one.
pub fn baseline_specs_with_preset(baselines: &Vec<BaselineSpec>, preset: Option<BaselinePreset>) -> (r:
    Vec<BaselineSpec>)
    ensures
        r.deep_view() == (match preset {
            Some(p) => baseline_preset_specs(p),
            None => Seq::empty(),
        }) + baselines.deep_view(),
{
    let mut specs: Vec<BaselineSpec> = match preset {
        Some(p) => p.specs(),
        None => Vec::new(),
    };
    let ghost start = specs.deep_view();
    let mut i: usize = 0;
    while i < baselines.len()
        invariant
            i <= baselines.len(),
            specs.deep_view() == start + baselines.deep_view().take(i as int),
        decreases baselines.len() - i,
    {
        let ghost prev = specs@;
        let b = baselines[i].duplicate();
        specs.push(b);
        proof {
            crate::views::lemma_vec_dview(specs);
            crate::views::lemma_dview_push(prev, b);
            crate::views::lemma_vec_dview(*baselines);
        }
        i += 1;
        assert(specs.deep_view() =~= start + baselines.deep_view().take(i as int));
    }
    assert(baselines.deep_view().take(baselines.len() as int) =~= baselines.deep_view());
    specs
}

/// The name of the requested preset, if any.
pub fn baseline_preset_names(preset: Option<BaselinePreset>) -> (r: Vec<&'static str>)
    ensures
        r.len() == (if preset is Some {
            1int
        } else {
            0int
        }),
        preset matches Some(p) ==> r@[0]@ == baseline_preset_name(p),
{
    let mut out: Vec<&'static str> = Vec::new();
    match preset {
        Some(p) => out.push(p.name()),
        None => {},
    }
    out
}

// ---------------------------------------------------------------------------
// Minimum category counts
// ---------------------------------------------------------------------------

/// A category and the least number of documents that must carry it.
pub struct CategoryCountSpec {
    pub category: String,
    pub count: usize,
}

impl DeepView for CategoryCountSpec {
    type V = (Seq<char>, usize);

    open spec fn deep_view(&self) -> (Seq<char>, usize) {
        (self.category@, self.count)
    }
}

/// What `NAME=COUNT` parses to: a trimmed, non-empty name and a positive
/// count in the range of `usize`.
pub open spec fn category_count_parse(v: Seq<char>) -> Result<(Seq<char>, usize), Seq<char>> {
    match split_once(v, '=') {
        None => Err("category count must use NAME=COUNT"@),
        Some((n, c)) => if trim(n).len() == 0 {
            Err("category name cannot be empty"@)
        } else if trim(c).len() == 0 {
            Err("category count cannot be empty"@)
        } else {
            match parse_unsigned(trim(c), usize::MAX as nat) {
                None => Err("category count must be a positive integer"@),
                Some(k) => if k == 0 {
                    Err("category count must be greater than zero"@)
                } else {
                    Ok((trim(n), k as usize))
                },
            }
        },
    }
}

impl CategoryCountSpec {
    pub fn duplicate(&self) -> (r: CategoryCountSpec)
        ensures
            r.deep_view() == self.deep_view(),
    {
        CategoryCountSpec { category: self.category.clone(), count: self.count }
    }

    /// Parses `NAME=COUNT`.
    pub fn parse(value: &str) -> (r: Result<CategoryCountSpec, String>)
        ensures
            match r {
                Ok(b) => category_count_parse(value@) == Ok::<(Seq<char>, usize), Seq<char>>(
                    b.deep_view(),
                ),
                Err(e) => category_count_parse(value@) == Err::<(Seq<char>, usize), Seq<char>>(e@),
            },
    {
        let v = chars_of(value);
        match split_once_char(&v, '=') {
            None => Err("category count must use NAME=COUNT".to_string()),
            Some((n, c)) => {
                let category = trim_ws(&n);
                let count = trim_ws(&c);
                if category.len() == 0 {
                    Err("category name cannot be empty".to_string())
                } else if count.len() == 0 {
                    Err("category count cannot be empty".to_string())
                } else {
                    match parse_unsigned_chars(&count, usize::MAX as u64) {
                        None => Err("category count must be a positive integer".to_string()),
                        Some(k) => {
                            if k == 0 {
                                Err("category count must be greater than zero".to_string())
                            } else {
                                Ok(
                                    CategoryCountSpec {
                                        category: string_of(&category),
                                        count: k as usize,
                                    },
                                )
                            }
                        },
                    }
                }
            },
        }
    }
}

impl std::str::FromStr for CategoryCountSpec {
    type Err = String;

    fn from_str(value: &str) -> (r: Result<CategoryCountSpec, String>)
        ensures
            match r {
                Ok(b) => category_count_parse(value@) == Ok::<(Seq<char>, usize), Seq<char>>(
                    b.deep_view(),
                ),
                Err(e) => category_count_parse(value@) == Err::<(Seq<char>, usize), Seq<char>>(e@),
            },
    {
        CategoryCountSpec::parse(value)
    }
}

} // verus!
