//! The feature comparison with LiteParse: the capability table, its summary
//! and readiness, the coverage requirement a benchmark report is held to, and
//! the per-category tallies of unchecked baseline quality.
use vstd::prelude::*;

use crate::cli::{coverage_categories, coverage_preset_name, CoveragePreset};
use crate::categories::string_opt_view;
use crate::text::{copy_string, str_eq};

verus! {

broadcast use crate::views::lemma_char_vec_deep_view;

// ---------------------------------------------------------------------------
// Capabilities
// ---------------------------------------------------------------------------

/// How far a capability is implemented.
#[derive(Clone, Copy, PartialEq, Eq, Structural, Debug)]
pub enum FeatureParityStatus {
    Implemented,
    Partial,
    Planned,
    NotPlanned,
}

/// One capability of LiteParse and where this tool stands on it.
pub struct FeatureParityCapability {
    pub id: String,
    pub area: String,
    pub liteparse: String,
    pub glyphrush: String,
    pub glyphrush_status: FeatureParityStatus,
    pub hot_path: bool,
    pub quality_guard: String,
    pub notes: String,
}

/// A capability as text.
pub struct CapabilityRow {
    pub id: Seq<char>,
    pub area: Seq<char>,
    pub liteparse: Seq<char>,
    pub glyphrush: Seq<char>,
    pub status: FeatureParityStatus,
    pub hot_path: bool,
    pub quality_guard: Seq<char>,
    pub notes: Seq<char>,
}

pub open spec fn capability_row(c: FeatureParityCapability) -> CapabilityRow {
    CapabilityRow {
        id: c.id@,
        area: c.area@,
        liteparse: c.liteparse@,
        glyphrush: c.glyphrush@,
        status: c.glyphrush_status,
        hot_path: c.hot_path,
        quality_guard: c.quality_guard@,
        notes: c.notes@,
    }
}

pub open spec fn capability_rows(cs: Seq<FeatureParityCapability>) -> Seq<CapabilityRow> {
    Seq::new(cs.len(), |i: int| capability_row(cs[i]))
}

fn push_capability(
    caps: &mut Vec<FeatureParityCapability>,
    id: &str,
    area: &str,
    liteparse: &str,
    glyphrush: &str,
    status: FeatureParityStatus,
    hot_path: bool,
    quality_guard: &str,
    notes: &str,
)
    ensures
        capability_rows(final(caps)@) == capability_rows(old(caps)@).push(
            CapabilityRow {
                id: id@,
                area: area@,
                liteparse: liteparse@,
                glyphrush: glyphrush@,
                status,
                hot_path,
                quality_guard: quality_guard@,
                notes: notes@,
            },
        ),
{
    caps.push(
        FeatureParityCapability {
            id: id.to_string(),
            area: area.to_string(),
            liteparse: liteparse.to_string(),
            glyphrush: glyphrush.to_string(),
            glyphrush_status: status,
            hot_path,
            quality_guard: quality_guard.to_string(),
            notes: notes.to_string(),
        },
    );
    assert(capability_rows(caps@) =~= capability_rows(old(caps)@).push(
        CapabilityRow {
            id: id@,
            area: area@,
            liteparse: liteparse@,
            glyphrush: glyphrush@,
            status,
            hot_path,
            quality_guard: quality_guard@,
            notes: notes@,
        },
    ));
}

pub const NATIVE_TEXT_EXTRACTION_NOTES: &'static str = "PDFium is the default fast backend when the pdfium feature is enabled; lopdf remains the dependency-light explicit backend and the auto fallback in plain builds.";
pub const PAGE_CLASSIFIER_QUALITY_FLAGS_NOTES: &'static str = "Glyphrush treats uncertain extraction as a reported condition instead of silently claiming success.";
pub const STRUCTURED_JSON_TEXT_MARKDOWN_EXPORTS_NOTES: &'static str = "The structured artifact is the source of truth; text and markdown are derived views.";
pub const QUALITY_BACKED_BENCHMARKING_NOTES: &'static str = "This is intentionally stronger than a speed-only comparison.";
pub const SPAN_GEOMETRY_LAYOUT_NOTES: &'static str = "Glyphrush avoids always-on per-character metadata, preserves full-width bands, fragmented full-width heading rows, fragmented middle cross-column bands, fragmented short section separators, leading, middle, and trailing cross-column bands, conservative short section separators, narrow academic gutters with trailing centered page numbers, column-row bands that keep centered banners, gutter-straddling rows, and trailing page numbers out of column splits, and clearly separated 2-5 column reading order when span geometry is available, seeds bounded span-bbox manifest samples, reports the per-page reading-order strategy as layout_strategy, escalates layout work when signals require it, and flags unresolved multi-column evidence as layout_uncertain with a column_layout_unresolved reason instead of silently interleaving columns. Labeled real-PDF reading-order and span-bbox fixtures gate this in test/corpus.v0.layout.json.";
pub const OCR_NOTES: &'static str = "OCR is adapter-based, supports sidecar, generic command, HTTP endpoint, and an explicit local Tesseract rendered-image wrapper, invokes adapters only for OCR-routed pages, exposes ocr-check preflights, and stays outside the default hot path.";
pub const TABLE_RECOVERY_NOTES: &'static str = "Current table support is conservative, tied to explicit uncertainty flags, preserves blank cells for delimited text, fixed-width whitespace, fixed-width wrapped descriptor fragments, key-value metadata rows, embedded pin/function tables, number-first pin-description tables, fragmented symbol/rating tables, bullet/leader spec tables, electrical-characteristics min/typ/max tables, AWINIC parameter/test-condition electrical tables with split frequency ranges, split ppm/degree-C units, ohm values, thermal shutdown rows, and footer exclusion, parameter/symbol/conditions electrical tables with condition continuations and thermal/EN threshold tail rows, reflow-profile Sn-Pb/Pb-free assembly tables, classification-temperature package/volume tables, package pin-description tables, part-number ordering tables, OMB-style budget projection tables, header-guided whitespace rows with table-header cues, same-line or wrapped multi-word descriptor cells, two-column descriptor/value rows, trailing descriptor continuations, header-guided trailing blank cells, header-guided section rows, and prefixed leading delimited/text-table captions outside table grids, aligned whitespace and positioned interior section rows, keeps positioned captions outside table grids, rejects routed description prose without table-header cues, rejects positioned-table windows that are really the page's own two-column prose lines so figure-ruling-routed academic pages keep column reading order instead of fake parallel-prose tables, recovers column-ruled grids from extracted vector ruling lines (composed through nested form XObject transforms) with text-row row structure, blank-cell preservation, wrapped-descriptor merges, and diagram-lattice rejection so filled vouchers and ruled month-grid forms produce structured cells, and aligned positioned rows including same-line fragmented positioned cells, first-column positioned section rows, fragmented first-column positioned section rows, interior positioned condition/note rows, multi-cell wrapped continuations, and same-column wrapped header rows when table recovery is routed, splits side-by-side per-column tables on two-column pages instead of mashing them into one grid, and exposes structured grids to eval text anchors. Labeled real-PDF table fixtures pass across datasheet, invoice/form, budget, and academic categories in test/corpus.v0.layout.json and test/corpus.v0.json. Two-level header groups, merged cells, and cross-page continuation stitching remain conservative and are tracked as later advanced-table-semantics work, with table_uncertain flags preserved.";
pub const ARTIFACT_CACHE_SNAPSHOTS_NOTES: &'static str = "JSON cache snapshots use explicit schema/parser/backend/source provenance, reuse artifacts on warm runs, and treat unreadable or invalid snapshots as explicit misses with cache_snapshot_ignored warnings; mmap-friendly snapshots remain a later runtime optimization, not a LiteParse parity blocker.";
pub const PYTHON_NODE_BINDINGS_NOTES: &'static str = "Dependency-free Python and Node wrappers delegate parse, text and markdown derived-output helpers, inspect-page triage, debug-page, OCR/backend/baseline preflights, feature-parity reports, eval-manifest quality gates, benchmark reports, and manifest generation to the native CLI artifact paths.";
pub const WASM_BINDINGS_NOTES: &'static str = "bindings/wasm wraps glyphrush-core and the shared glyphrush-lopdf extraction crate behind wasm-bindgen: PDF bytes in, the identical JSON document artifact out, verified by a deep-equal parity test against the CLI's lopdf backend (only timing and source-mtime fields are exempt). OCR adapters are process/network seams that do not apply to the wasm surface; OCR-required pages keep their requires_ocr flags and warnings exactly like a no-OCR CLI run.";
pub const MUPDF_BACKEND_NOTES: &'static str = "MuPDF is AGPL-3.0 licensed while Glyphrush is MIT; wiring it as a shipped backend would constrain every downstream distribution, and the BSD-licensed PDFium adapter already provides the measured native-text fast path with rendered-image OCR handoff. Rejected deliberately rather than left as an open promise; backend-check continues to report the adapter slot so the decision stays visible.";
pub const BUNDLED_BUILTIN_OCR_NOTES: &'static str = "Bundling OCR into the default parser would violate the hot-path dependency policy.";
pub const PAGE_RENDER_FOR_OCR_RENDERING_NOTES: &'static str = "PDFium renders only OCR-routed pages to temporary PPM files for command or HTTP adapters, records render timing and fallback-action counts, and removes temporary image files after OCR returns.";
pub const PAGE_RENDER_FOR_OCR_LIMITED_NOTES: &'static str = "Rendered-image OCR handoff exists for the PDFium backend; non-rendering backends report the limitation instead of silently switching OCR input contracts.";

/// The capabilities compared with LiteParse, in report order; the
/// rendering of pages for OCR is implemented only where the backend can
/// render.
pub open spec fn parity_capability_table(supports_page_render_for_ocr: bool) -> Seq<CapabilityRow> {
    seq![
        CapabilityRow {
            id: "native_text_extraction"@,
            area: "extraction"@,
            liteparse: "pdfium_native_text"@,
            glyphrush: "lopdf_or_pdfium_native_text"@,
            status: FeatureParityStatus::Implemented,
            hot_path: true,
            quality_guard: "text_recall_and_silent_failure_eval"@,
            notes: NATIVE_TEXT_EXTRACTION_NOTES@,
        },
        CapabilityRow {
            id: "page_classifier_quality_flags"@,
            area: "quality"@,
            liteparse: "implicit_parser_behavior"@,
            glyphrush: "explicit_page_routes_flags_and_reasons"@,
            status: FeatureParityStatus::Implemented,
            hot_path: true,
            quality_guard: "requires_ocr_low_confidence_unsupported_flags"@,
            notes: PAGE_CLASSIFIER_QUALITY_FLAGS_NOTES@,
        },
        CapabilityRow {
            id: "structured_json_text_markdown_exports"@,
            area: "outputs"@,
            liteparse: "text_markdown_json_bindings"@,
            glyphrush: "document_artifact_plus_text_and_markdown"@,
            status: FeatureParityStatus::Implemented,
            hot_path: true,
            quality_guard: "derived_outputs_from_single_artifact"@,
            notes: STRUCTURED_JSON_TEXT_MARKDOWN_EXPORTS_NOTES@,
        },
        CapabilityRow {
            id: "quality_backed_benchmarking"@,
            area: "evaluation"@,
            liteparse: "latency_benchmarks"@,
            glyphrush: "strict_speedup_claim_gate"@,
            status: FeatureParityStatus::Implemented,
            hot_path: false,
            quality_guard: "require_speedup_claim_requires_glyphrush_and_baseline_quality"@,
            notes: QUALITY_BACKED_BENCHMARKING_NOTES@,
        },
        CapabilityRow {
            id: "span_geometry_layout"@,
            area: "layout"@,
            liteparse: "layout_projection_and_character_geometry"@,
            glyphrush: "bounded_span_geometry_and_full_width_aware_layout_blocks"@,
            status: FeatureParityStatus::Implemented,
            hot_path: false,
            quality_guard: "layout_uncertain_flag_reading_order_and_span_bbox_eval"@,
            notes: SPAN_GEOMETRY_LAYOUT_NOTES@,
        },
        CapabilityRow {
            id: "ocr"@,
            area: "ocr"@,
            liteparse: "tesseract_or_http_ocr"@,
            glyphrush: "sidecar_command_http_or_tesseract_rendered_image_wrapper_invoked_page_selectively"@,
            status: FeatureParityStatus::Implemented,
            hot_path: false,
            quality_guard: "page_selective_adapter_preflight_and_requires_ocr_flag"@,
            notes: OCR_NOTES@,
        },
        if supports_page_render_for_ocr {
            CapabilityRow {
                id: "page_render_for_ocr"@,
                area: "ocr"@,
                liteparse: "render_pages_for_ocr"@,
                glyphrush: "pdfium_rendered_image_command_or_http_input"@,
                status: FeatureParityStatus::Implemented,
                hot_path: false,
                quality_guard: "rendered_image_ocr_check_and_render_page_fallback_counts"@,
                notes: PAGE_RENDER_FOR_OCR_RENDERING_NOTES@,
            }
        } else {
            CapabilityRow {
                id: "page_render_for_ocr"@,
                area: "ocr"@,
                liteparse: "render_pages_for_ocr"@,
                glyphrush: "pdfium_rendered_image_command_or_http_input"@,
                status: FeatureParityStatus::Partial,
                hot_path: false,
                quality_guard: "ocr_check_render_backend_required"@,
                notes: PAGE_RENDER_FOR_OCR_LIMITED_NOTES@,
            }
        },
        CapabilityRow {
            id: "table_recovery"@,
            area: "tables"@,
            liteparse: "layout_projection_tables"@,
            glyphrush: "table_likelihood_and_basic_structure_recovery_with_empty_cell_preservation"@,
            status: FeatureParityStatus::Implemented,
            hot_path: false,
            quality_guard: "table_uncertain_flag_and_table_structure_eval"@,
            notes: TABLE_RECOVERY_NOTES@,
        },
        CapabilityRow {
            id: "artifact_cache_snapshots"@,
            area: "runtime"@,
            liteparse: "fresh_parse_by_default"@,
            glyphrush: "cache_dir_snapshot_envelope_artifact_reuse"@,
            status: FeatureParityStatus::Implemented,
            hot_path: false,
            quality_guard: "cache_key_includes_parser_backend_ocr_options"@,
            notes: ARTIFACT_CACHE_SNAPSHOTS_NOTES@,
        },
        CapabilityRow {
            id: "python_node_bindings"@,
            area: "bindings"@,
            liteparse: "python_node_bindings"@,
            glyphrush: "thin_python_node_parse_inspect_debug_eval_bench_manifest_preflight_wrappers"@,
            status: FeatureParityStatus::Implemented,
            hot_path: false,
            quality_guard: "bindings_must_share_native_core_artifact"@,
            notes: PYTHON_NODE_BINDINGS_NOTES@,
        },
        CapabilityRow {
            id: "wasm_bindings"@,
            area: "bindings"@,
            liteparse: "wasm_bindings"@,
            glyphrush: "wasm_parse_pdf_bytes_over_native_core_artifact"@,
            status: FeatureParityStatus::Implemented,
            hot_path: false,
            quality_guard: "wasm_must_share_native_core_artifact"@,
            notes: WASM_BINDINGS_NOTES@,
        },
        CapabilityRow {
            id: "mupdf_backend"@,
            area: "backend"@,
            liteparse: "pdfium_core"@,
            glyphrush: "mupdf_adapter_rejected_on_license"@,
            status: FeatureParityStatus::NotPlanned,
            hot_path: false,
            quality_guard: "backend_check_reports_adapter_status"@,
            notes: MUPDF_BACKEND_NOTES@,
        },
        CapabilityRow {
            id: "bundled_builtin_ocr"@,
            area: "ocr"@,
            liteparse: "ocr_dependency_integrated_with_parser_package"@,
            glyphrush: "optional_external_ocr_adapters"@,
            status: FeatureParityStatus::NotPlanned,
            hot_path: false,
            quality_guard: "no_hidden_ocr_or_network_dependency"@,
            notes: BUNDLED_BUILTIN_OCR_NOTES@,
        },
    ]
}

pub fn liteparse_feature_parity_capabilities(supports_page_render_for_ocr: bool) -> (r: Vec<
    FeatureParityCapability,
>)
    ensures
        capability_rows(r@) == parity_capability_table(supports_page_render_for_ocr),
{
    let mut caps: Vec<FeatureParityCapability> = Vec::new();
    push_capability(
        &mut caps,
        "native_text_extraction",
        "extraction",
        "pdfium_native_text",
        "lopdf_or_pdfium_native_text",
        FeatureParityStatus::Implemented,
        true,
        "text_recall_and_silent_failure_eval",
        NATIVE_TEXT_EXTRACTION_NOTES,
    );
    push_capability(
        &mut caps,
        "page_classifier_quality_flags",
        "quality",
        "implicit_parser_behavior",
        "explicit_page_routes_flags_and_reasons",
        FeatureParityStatus::Implemented,
        true,
        "requires_ocr_low_confidence_unsupported_flags",
        PAGE_CLASSIFIER_QUALITY_FLAGS_NOTES,
    );
    push_capability(
        &mut caps,
        "structured_json_text_markdown_exports",
        "outputs",
        "text_markdown_json_bindings",
        "document_artifact_plus_text_and_markdown",
        FeatureParityStatus::Implemented,
        true,
        "derived_outputs_from_single_artifact",
        STRUCTURED_JSON_TEXT_MARKDOWN_EXPORTS_NOTES,
    );
    push_capability(
        &mut caps,
        "quality_backed_benchmarking",
        "evaluation",
        "latency_benchmarks",
        "strict_speedup_claim_gate",
        FeatureParityStatus::Implemented,
        false,
        "require_speedup_claim_requires_glyphrush_and_baseline_quality",
        QUALITY_BACKED_BENCHMARKING_NOTES,
    );
    push_capability(
        &mut caps,
        "span_geometry_layout",
        "layout",
        "layout_projection_and_character_geometry",
        "bounded_span_geometry_and_full_width_aware_layout_blocks",
        FeatureParityStatus::Implemented,
        false,
        "layout_uncertain_flag_reading_order_and_span_bbox_eval",
        SPAN_GEOMETRY_LAYOUT_NOTES,
    );
    push_capability(
        &mut caps,
        "ocr",
        "ocr",
        "tesseract_or_http_ocr",
        "sidecar_command_http_or_tesseract_rendered_image_wrapper_invoked_page_selectively",
        FeatureParityStatus::Implemented,
        false,
        "page_selective_adapter_preflight_and_requires_ocr_flag",
        OCR_NOTES,
    );
    if supports_page_render_for_ocr {
        push_capability(
            &mut caps,
            "page_render_for_ocr",
            "ocr",
            "render_pages_for_ocr",
            "pdfium_rendered_image_command_or_http_input",
            FeatureParityStatus::Implemented,
            false,
            "rendered_image_ocr_check_and_render_page_fallback_counts",
            PAGE_RENDER_FOR_OCR_RENDERING_NOTES,
        );
    } else {
        push_capability(
            &mut caps,
            "page_render_for_ocr",
            "ocr",
            "render_pages_for_ocr",
            "pdfium_rendered_image_command_or_http_input",
            FeatureParityStatus::Partial,
            false,
            "ocr_check_render_backend_required",
            PAGE_RENDER_FOR_OCR_LIMITED_NOTES,
        );
    }
    push_capability(
        &mut caps,
        "table_recovery",
        "tables",
        "layout_projection_tables",
        "table_likelihood_and_basic_structure_recovery_with_empty_cell_preservation",
        FeatureParityStatus::Implemented,
        false,
        "table_uncertain_flag_and_table_structure_eval",
        TABLE_RECOVERY_NOTES,
    );
    push_capability(
        &mut caps,
        "artifact_cache_snapshots",
        "runtime",
        "fresh_parse_by_default",
        "cache_dir_snapshot_envelope_artifact_reuse",
        FeatureParityStatus::Implemented,
        false,
        "cache_key_includes_parser_backend_ocr_options",
        ARTIFACT_CACHE_SNAPSHOTS_NOTES,
    );
    push_capability(
        &mut caps,
        "python_node_bindings",
        "bindings",
        "python_node_bindings",
        "thin_python_node_parse_inspect_debug_eval_bench_manifest_preflight_wrappers",
        FeatureParityStatus::Implemented,
        false,
        "bindings_must_share_native_core_artifact",
        PYTHON_NODE_BINDINGS_NOTES,
    );
    push_capability(
        &mut caps,
        "wasm_bindings",
        "bindings",
        "wasm_bindings",
        "wasm_parse_pdf_bytes_over_native_core_artifact",
        FeatureParityStatus::Implemented,
        false,
        "wasm_must_share_native_core_artifact",
        WASM_BINDINGS_NOTES,
    );
    push_capability(
        &mut caps,
        "mupdf_backend",
        "backend",
        "pdfium_core",
        "mupdf_adapter_rejected_on_license",
        FeatureParityStatus::NotPlanned,
        false,
        "backend_check_reports_adapter_status",
        MUPDF_BACKEND_NOTES,
    );
    push_capability(
        &mut caps,
        "bundled_builtin_ocr",
        "ocr",
        "ocr_dependency_integrated_with_parser_package",
        "optional_external_ocr_adapters",
        FeatureParityStatus::NotPlanned,
        false,
        "no_hidden_ocr_or_network_dependency",
        BUNDLED_BUILTIN_OCR_NOTES,
    );
    assert(capability_rows(caps@) =~= parity_capability_table(supports_page_render_for_ocr));
    caps
}

// ---------------------------------------------------------------------------
// Summary and readiness
// ---------------------------------------------------------------------------

/// How many capabilities have each status.
#[derive(Clone, Copy, PartialEq, Eq, Structural, Debug)]
pub struct FeatureParitySummary {
    pub target_capability_count: usize,
    pub implemented: usize,
    pub partial: usize,
    pub planned: usize,
    pub not_planned: usize,
}

/// The number of rows with the status.
pub open spec fn status_count(rows: Seq<CapabilityRow>, status: FeatureParityStatus) -> nat
    decreases rows.len(),
{
    if rows.len() == 0 {
        0
    } else {
        status_count(rows.drop_last(), status) + if rows.last().status == status {
            1nat
        } else {
            0nat
        }
    }
}

proof fn lemma_status_counts_sum(rows: Seq<CapabilityRow>)
    ensures
        status_count(rows, FeatureParityStatus::Implemented) + status_count(
            rows,
            FeatureParityStatus::Partial,
        ) + status_count(rows, FeatureParityStatus::Planned) + status_count(
            rows,
            FeatureParityStatus::NotPlanned,
        ) == rows.len(),
    decreases rows.len(),
{
    if rows.len() > 0 {
        lemma_status_counts_sum(rows.drop_last());
    }
}

pub fn feature_parity_summary(capabilities: &Vec<FeatureParityCapability>) -> (s:
    FeatureParitySummary)
    ensures
        s.target_capability_count == capabilities@.len(),
        s.implemented == status_count(capability_rows(capabilities@), FeatureParityStatus::Implemented),
        s.partial == status_count(capability_rows(capabilities@), FeatureParityStatus::Partial),
        s.planned == status_count(capability_rows(capabilities@), FeatureParityStatus::Planned),
        s.not_planned == status_count(capability_rows(capabilities@), FeatureParityStatus::NotPlanned),
{
    let ghost rows = capability_rows(capabilities@);
    let mut s = FeatureParitySummary {
        target_capability_count: capabilities.len(),
        implemented: 0,
        partial: 0,
        planned: 0,
        not_planned: 0,
    };
    let mut i: usize = 0;
    while i < capabilities.len()
        invariant
            i <= capabilities.len(),
            rows == capability_rows(capabilities@),
            s.target_capability_count == capabilities@.len(),
            s.implemented == status_count(rows.take(i as int), FeatureParityStatus::Implemented),
            s.partial == status_count(rows.take(i as int), FeatureParityStatus::Partial),
            s.planned == status_count(rows.take(i as int), FeatureParityStatus::Planned),
            s.not_planned == status_count(rows.take(i as int), FeatureParityStatus::NotPlanned),
        decreases capabilities.len() - i,
    {
        proof {
            assert(rows.take(i + 1).drop_last() =~= rows.take(i as int));
            lemma_status_counts_sum(rows.take(i as int));
        }
        match capabilities[i].glyphrush_status {
            FeatureParityStatus::Implemented => s.implemented = s.implemented + 1,
            FeatureParityStatus::Partial => s.partial = s.partial + 1,
            FeatureParityStatus::Planned => s.planned = s.planned + 1,
            FeatureParityStatus::NotPlanned => s.not_planned = s.not_planned + 1,
        }
        i += 1;
    }
    assert(rows.take(capabilities.len() as int) =~= rows);
    s
}

/// The statuses of a summary account for every capability.
pub proof fn lemma_summary_accounts_for_every_capability(capabilities: Seq<FeatureParityCapability>)
    ensures
        status_count(capability_rows(capabilities), FeatureParityStatus::Implemented) + status_count(
            capability_rows(capabilities),
            FeatureParityStatus::Partial,
        ) + status_count(capability_rows(capabilities), FeatureParityStatus::Planned)
            + status_count(capability_rows(capabilities), FeatureParityStatus::NotPlanned)
            == capabilities.len(),
{
    lemma_status_counts_sum(capability_rows(capabilities));
}

/// The number of hot-path rows, and of those implemented.
pub open spec fn hot_path_count(rows: Seq<CapabilityRow>, implemented_only: bool) -> nat
    decreases rows.len(),
{
    if rows.len() == 0 {
        0
    } else {
        hot_path_count(rows.drop_last(), implemented_only) + if rows.last().hot_path && (
        !implemented_only || rows.last().status == FeatureParityStatus::Implemented) {
            1nat
        } else {
            0nat
        }
    }
}

proof fn lemma_hot_path_count_bound(rows: Seq<CapabilityRow>, implemented_only: bool)
    ensures
        hot_path_count(rows, implemented_only) <= rows.len(),
        hot_path_count(rows, true) <= hot_path_count(rows, false),
    decreases rows.len(),
{
    if rows.len() > 0 {
        lemma_hot_path_count_bound(rows.drop_last(), implemented_only);
    }
}

/// The hot-path part of the readiness report.
#[derive(Clone, Copy, PartialEq, Eq, Structural, Debug)]
pub struct FeatureParityHotPathReadiness {
    pub capability_count: usize,
    pub implemented: usize,
    pub ready: bool,
}

/// The hot path is ready when it has capabilities and all are implemented.
pub fn feature_parity_hot_path(capabilities: &Vec<FeatureParityCapability>) -> (r:
    FeatureParityHotPathReadiness)
    ensures
        r.capability_count == hot_path_count(capability_rows(capabilities@), false),
        r.implemented == hot_path_count(capability_rows(capabilities@), true),
        r.ready == (r.capability_count > 0 && r.implemented == r.capability_count),
{
    let ghost rows = capability_rows(capabilities@);
    let mut count: usize = 0;
    let mut implemented: usize = 0;
    let mut i: usize = 0;
    while i < capabilities.len()
        invariant
            i <= capabilities.len(),
            rows == capability_rows(capabilities@),
            count == hot_path_count(rows.take(i as int), false),
            implemented == hot_path_count(rows.take(i as int), true),
        decreases capabilities.len() - i,
    {
        proof {
            assert(rows.take(i + 1).drop_last() =~= rows.take(i as int));
            lemma_hot_path_count_bound(rows.take(i as int), false);
            lemma_hot_path_count_bound(rows.take(i as int), true);
        }
        let c = &capabilities[i];
        if c.hot_path {
            count = count + 1;
            if c.glyphrush_status == FeatureParityStatus::Implemented {
                implemented = implemented + 1;
            }
        }
        i += 1;
    }
    assert(rows.take(capabilities.len() as int) =~= rows);
    FeatureParityHotPathReadiness {
        capability_count: count,
        implemented,
        ready: count > 0 && implemented == count,
    }
}

/// What a benchmark report shows of its own validity and coverage.
#[derive(Clone, Copy, PartialEq, Eq, Structural, Debug)]
pub struct BenchmarkEvidenceGate {
    pub report_valid: bool,
    pub evidence_passed: bool,
    pub coverage_required: bool,
    pub coverage_passed: bool,
}

/// Why a native-text speed claim cannot be made yet, in report order.
pub open spec fn speed_claim_blockers(
    capability_ready: bool,
    evidence: Option<BenchmarkEvidenceGate>,
) -> Seq<Seq<char>> {
    let first: Seq<Seq<char>> = if capability_ready {
        seq![]
    } else {
        seq!["native_text_speed_race_capabilities_not_ready"@]
    };
    match evidence {
        None => first.push("missing_benchmark_evidence"@),
        Some(e) => {
            let second: Seq<Seq<char>> = if !e.report_valid {
                seq!["invalid_benchmark_report"@]
            } else if !e.evidence_passed {
                seq!["missing_quality_backed_liteparse_claims"@]
            } else {
                seq![]
            };
            let third: Seq<Seq<char>> = if !e.coverage_required {
                seq!["missing_coverage_preset"@]
            } else if !e.coverage_passed {
                seq!["coverage_preset_missing_categories"@]
            } else {
                seq![]
            };
            first + second + third
        },
    }
}

fn push_text(out: &mut Vec<String>, s: &str)
    ensures
        final(out).deep_view() == old(out).deep_view().push(s@),
{
    let ghost prev = out@;
    let t = s.to_string();
    out.push(t);
    proof {
        crate::views::lemma_vec_dview(*out);
        crate::views::lemma_dview_push(prev, t);
        crate::views::lemma_vec_dview(*old(out));
    }
}

/// Whether a native-text speed claim can be made, and what blocks it.
pub fn feature_parity_speed_claim_readiness(
    capability_ready: bool,
    benchmark_evidence: Option<BenchmarkEvidenceGate>,
) -> (r: (bool, Vec<String>))
    ensures
        r.1.deep_view() == speed_claim_blockers(capability_ready, benchmark_evidence),
        r.0 == (r.1@.len() == 0),
{
    let mut blockers: Vec<String> = Vec::new();
    if !capability_ready {
        push_text(&mut blockers, "native_text_speed_race_capabilities_not_ready");
    }
    match benchmark_evidence {
        None => {
            push_text(&mut blockers, "missing_benchmark_evidence");
            assert(blockers.deep_view() =~= speed_claim_blockers(capability_ready, benchmark_evidence));
            return (false, blockers);
        },
        Some(e) => {
            if !e.report_valid {
                push_text(&mut blockers, "invalid_benchmark_report");
            } else if !e.evidence_passed {
                push_text(&mut blockers, "missing_quality_backed_liteparse_claims");
            }
            if !e.coverage_required {
                push_text(&mut blockers, "missing_coverage_preset");
            } else if !e.coverage_passed {
                push_text(&mut blockers, "coverage_preset_missing_categories");
            }
            assert(blockers.deep_view() =~= speed_claim_blockers(capability_ready, benchmark_evidence));
            let ready = blockers.len() == 0;
            (ready, blockers)
        },
    }
}

/// A speed claim can be made exactly when every gate is passed.
pub proof fn lemma_speed_claim_ready_iff(capability_ready: bool, evidence: Option<BenchmarkEvidenceGate>)
    ensures
        speed_claim_blockers(capability_ready, evidence).len() == 0 <==> (capability_ready && (
        evidence matches Some(e) && e.report_valid && e.evidence_passed && e.coverage_required
            && e.coverage_passed)),
{
}

/// What a benchmark report shows of one required speed claim: whether the
/// requested and the measured speed-up both reach the required ratio on a
/// comparable, passed speed check, whether this tool's quality backs it, and
/// whether the baseline's quality was checked.
#[derive(Clone, Copy, PartialEq, Eq, Structural, Debug)]
pub struct RequiredClaimGate {
    pub speed_met: bool,
    pub glyphrush_quality_backed: bool,
    pub baseline_quality_checked: bool,
}

/// What a benchmark report shows for a speed-advantage claim: its validity,
/// each required claim in order (`None` where the report lacks it), and its
/// coverage.
pub struct SpeedAdvantageEvidence {
    pub report_valid: bool,
    pub required_claims: Vec<Option<RequiredClaimGate>>,
    pub coverage_required: bool,
    pub coverage_passed: bool,
}

/// A required claim that is present and whose speed check failed.
pub open spec fn slow_claim(c: Option<RequiredClaimGate>) -> bool {
    c matches Some(g) && !g.speed_met
}

/// A required claim that is present and not backed by this tool's quality.
pub open spec fn unbacked_claim(c: Option<RequiredClaimGate>) -> bool {
    c matches Some(g) && !g.glyphrush_quality_backed
}

/// A required claim that is present and whose baseline quality was not checked.
pub open spec fn unchecked_claim(c: Option<RequiredClaimGate>) -> bool {
    c matches Some(g) && !g.baseline_quality_checked
}

/// What the required claims block, in report order: a missing claim, then
/// failed speed, unbacked quality and unchecked baseline quality among those
/// present.
pub open spec fn required_claim_blockers(claims: Seq<Option<RequiredClaimGate>>) -> Seq<Seq<char>> {
    let missing: Seq<Seq<char>> = if exists|i: int| 0 <= i < claims.len() && #[trigger] claims[i] is None {
        seq!["missing_required_liteparse_claims"@]
    } else {
        seq![]
    };
    let speed: Seq<Seq<char>> = if exists|i: int| 0 <= i < claims.len() && #[trigger] slow_claim(claims[i]) {
        seq!["speed_evidence_failed"@]
    } else {
        seq![]
    };
    let backed: Seq<Seq<char>> = if exists|i: int|
        0 <= i < claims.len() && #[trigger] unbacked_claim(claims[i]) {
        seq!["glyphrush_quality_not_backed"@]
    } else {
        seq![]
    };
    let checked: Seq<Seq<char>> = if exists|i: int|
        0 <= i < claims.len() && #[trigger] unchecked_claim(claims[i]) {
        seq!["baseline_quality_not_checked"@]
    } else {
        seq![]
    };
    missing + speed + backed + checked
}

/// What a benchmark report's coverage blocks.
pub open spec fn coverage_blockers(coverage_required: bool, coverage_passed: bool) -> Seq<Seq<char>> {
    if !coverage_required {
        seq!["missing_coverage_preset"@]
    } else if !coverage_passed {
        seq!["coverage_preset_missing_categories"@]
    } else {
        seq![]
    }
}

/// Why a native-text speed advantage cannot be claimed yet, in report order.
pub open spec fn speed_advantage_blockers(
    capability_ready: bool,
    evidence: Option<(bool, Seq<Option<RequiredClaimGate>>, bool, bool)>,
) -> Seq<Seq<char>> {
    let first: Seq<Seq<char>> = if capability_ready {
        seq![]
    } else {
        seq!["native_text_speed_race_capabilities_not_ready"@]
    };
    match evidence {
        None => first.push("missing_benchmark_evidence"@),
        Some((report_valid, claims, coverage_required, coverage_passed)) => {
            let claim_part: Seq<Seq<char>> = if !report_valid {
                seq!["invalid_benchmark_report"@]
            } else {
                required_claim_blockers(claims)
            };
            first + claim_part + coverage_blockers(coverage_required, coverage_passed)
        },
    }
}

/// An advantage evidence as plain values.
pub open spec fn advantage_view(e: Option<SpeedAdvantageEvidence>) -> Option<(bool, Seq<Option<RequiredClaimGate>>, bool, bool)> {
    match e {
        Some(e) => Some((e.report_valid, e.required_claims@, e.coverage_required, e.coverage_passed)),
        None => None,
    }
}

/// Looks through the required claims for a missing one and for each kind of
/// failure among those present.
fn scan_required_claims(claims: &Vec<Option<RequiredClaimGate>>) -> (r: (bool, bool, bool, bool))
    ensures
        r.0 == exists|i: int| 0 <= i < claims@.len() && #[trigger] claims@[i] is None,
        r.1 == exists|i: int|
            0 <= i < claims@.len() && #[trigger] slow_claim(claims@[i]),
        r.2 == exists|i: int|
            0 <= i < claims@.len() && #[trigger] unbacked_claim(claims@[i]),
        r.3 == exists|i: int|
            0 <= i < claims@.len() && #[trigger] unchecked_claim(claims@[i]),
{
    let mut missing = false;
    let mut slow = false;
    let mut unbacked = false;
    let mut unchecked = false;
    let mut i: usize = 0;
    while i < claims.len()
        invariant
            i <= claims@.len(),
            missing == exists|j: int| 0 <= j < i && #[trigger] claims@[j] is None,
            slow == exists|j: int| 0 <= j < i && #[trigger] slow_claim(claims@[j]),
            unbacked == exists|j: int|
                0 <= j < i && #[trigger] unbacked_claim(claims@[j]),
            unchecked == exists|j: int|
                0 <= j < i && #[trigger] unchecked_claim(claims@[j]),
        decreases claims@.len() - i,
    {
        match claims[i] {
            None => {
                missing = true;
            },
            Some(c) => {
                if !c.speed_met {
                    slow = true;
                }
                if !c.glyphrush_quality_backed {
                    unbacked = true;
                }
                if !c.baseline_quality_checked {
                    unchecked = true;
                }
            },
        }
        proof {
            let c = claims@[i as int];
            assert(slow_claim(c) == (c matches Some(g) && !g.speed_met));
            assert(unbacked_claim(c) == (c matches Some(g) && !g.glyphrush_quality_backed));
            assert(unchecked_claim(c) == (c matches Some(g) && !g.baseline_quality_checked));
        }
        i += 1;
    }
    (missing, slow, unbacked, unchecked)
}

fn push_if(out: &mut Vec<String>, cond: bool, s: &str)
    ensures
        final(out).deep_view() == old(out).deep_view() + (if cond {
            seq![s@]
        } else {
            Seq::<Seq<char>>::empty()
        }),
{
    if cond {
        push_text(out, s);
    }
    assert(out.deep_view() =~= old(out).deep_view() + (if cond {
        seq![s@]
    } else {
        Seq::<Seq<char>>::empty()
    }));
}

fn push_required_claim_blockers(out: &mut Vec<String>, claims: &Vec<Option<RequiredClaimGate>>)
    ensures
        final(out).deep_view() == old(out).deep_view() + required_claim_blockers(claims@),
{
    let ghost start = out.deep_view();
    let (missing, slow, unbacked, unchecked) = scan_required_claims(claims);
    push_if(out, missing, "missing_required_liteparse_claims");
    push_if(out, slow, "speed_evidence_failed");
    push_if(out, unbacked, "glyphrush_quality_not_backed");
    push_if(out, unchecked, "baseline_quality_not_checked");
    assert(out.deep_view() =~= start + required_claim_blockers(claims@));
}

fn push_coverage_blockers(out: &mut Vec<String>, coverage_required: bool, coverage_passed: bool)
    ensures
        final(out).deep_view() == old(out).deep_view() + coverage_blockers(coverage_required, coverage_passed),
{
    if !coverage_required {
        push_text(out, "missing_coverage_preset");
    } else if !coverage_passed {
        push_text(out, "coverage_preset_missing_categories");
    }
    assert(out.deep_view() =~= old(out).deep_view() + coverage_blockers(coverage_required, coverage_passed));
}

/// Whether a native-text speed advantage can be claimed, and what blocks it.
pub fn feature_parity_speed_advantage_readiness(
    capability_ready: bool,
    benchmark_evidence: &Option<SpeedAdvantageEvidence>,
) -> (r: (bool, Vec<String>))
    ensures
        r.1.deep_view() == speed_advantage_blockers(capability_ready, advantage_view(*benchmark_evidence)),
        r.0 == (r.1@.len() == 0),
{
    let mut blockers: Vec<String> = Vec::new();
    push_if(&mut blockers, !capability_ready, "native_text_speed_race_capabilities_not_ready");
    let ghost first = blockers.deep_view();
    match benchmark_evidence {
        None => {
            push_text(&mut blockers, "missing_benchmark_evidence");
            assert(blockers.deep_view() =~= speed_advantage_blockers(
                capability_ready,
                advantage_view(*benchmark_evidence),
            ));
            (false, blockers)
        },
        Some(e) => {
            if !e.report_valid {
                push_text(&mut blockers, "invalid_benchmark_report");
            } else {
                push_required_claim_blockers(&mut blockers, &e.required_claims);
            }
            let ghost middle = blockers.deep_view();
            push_coverage_blockers(&mut blockers, e.coverage_required, e.coverage_passed);
            proof {
                let claim_part: Seq<Seq<char>> = if !e.report_valid {
                    seq!["invalid_benchmark_report"@]
                } else {
                    required_claim_blockers(e.required_claims@)
                };
                assert(middle =~= first + claim_part);
                assert(blockers.deep_view() =~= first + claim_part + coverage_blockers(
                    e.coverage_required,
                    e.coverage_passed,
                ));
            }
            let ready = blockers.len() == 0;
            proof {
                crate::views::lemma_vec_dview(blockers);
            }
            (ready, blockers)
        },
    }
}

/// A speed advantage can be claimed exactly when the race is ready, the report
/// is valid, every required claim is present with its speed met, backed by
/// this tool's quality and with the baseline's quality checked, and the
/// report covers the required preset.
pub proof fn lemma_speed_advantage_ready_iff(
    capability_ready: bool,
    evidence: Option<(bool, Seq<Option<RequiredClaimGate>>, bool, bool)>,
)
    ensures
        speed_advantage_blockers(capability_ready, evidence).len() == 0 <==> (capability_ready && (
        evidence matches Some((valid, claims, coverage_required, coverage_passed)) && valid
            && coverage_required && coverage_passed && (forall|i: int|
            0 <= i < claims.len() ==> (#[trigger] claims[i] matches Some(c) && c.speed_met
                && c.glyphrush_quality_backed && c.baseline_quality_checked)))),
{
    if let Some((valid, claims, coverage_required, coverage_passed)) = evidence {
        if valid {
            let b = required_claim_blockers(claims);
            if b.len() == 0 {
                assert forall|i: int| 0 <= i < claims.len() implies (#[trigger] claims[i] matches Some(
                    c,
                ) && c.speed_met && c.glyphrush_quality_backed && c.baseline_quality_checked) by {
                    assert(!(claims[i] is None));
                    assert(!slow_claim(claims[i]));
                    assert(!unbacked_claim(claims[i]));
                    assert(!unchecked_claim(claims[i]));
                }
            }
            if forall|i: int|
                0 <= i < claims.len() ==> (#[trigger] claims[i] matches Some(c) && c.speed_met
                    && c.glyphrush_quality_backed && c.baseline_quality_checked) {
                assert(!exists|i: int| 0 <= i < claims.len() && #[trigger] claims[i] is None);
                assert(!exists|i: int| 0 <= i < claims.len() && #[trigger] slow_claim(claims[i]));
                assert(!exists|i: int| 0 <= i < claims.len() && #[trigger] unbacked_claim(claims[i]));
                assert(!exists|i: int| 0 <= i < claims.len() && #[trigger] unchecked_claim(claims[i]));
                assert(b =~= Seq::<Seq<char>>::empty());
            }
        }
    }
}

/// Whether a claim is backed by this tool's quality: as the report says, or
/// else checked and passed (unknown where the report lacks what decides it).
pub open spec fn claim_quality_backed(explicit: Option<bool>, checked: Option<bool>, passed: Option<bool>) -> Option<bool> {
    match explicit {
        Some(b) => Some(b),
        None => match checked {
            None => None,
            Some(false) => Some(false),
            Some(true) => passed,
        },
    }
}

pub fn claim_glyphrush_quality_backed(
    explicit: Option<bool>,
    checked: Option<bool>,
    passed: Option<bool>,
) -> (r: Option<bool>)
    ensures
        r == claim_quality_backed(explicit, checked, passed),
{
    match explicit {
        Some(b) => Some(b),
        None => match checked {
            None => None,
            Some(false) => Some(false),
            Some(true) => passed,
        },
    }
}

/// A claim is backed by this tool's quality only as the report says, or
/// when that quality was checked and passed: without the report's own flag
/// and with the quality checked, the answer is whether it passed, so failed
/// quality never backs a claim; unchecked quality never does either.
pub proof fn law_quality_backing(explicit: Option<bool>, checked: Option<bool>, passed: Option<bool>)
    ensures
        explicit matches Some(b) ==> claim_quality_backed(explicit, checked, passed) == Some(b),
        explicit is None && checked == Some(true) ==> claim_quality_backed(explicit, checked, passed)
            == passed,
        claim_quality_backed(explicit, checked, passed) == Some(true) ==> explicit == Some(true) || (
        explicit is None && checked == Some(true) && passed == Some(true)),
        explicit is None && passed == Some(false) ==> claim_quality_backed(explicit, checked, passed)
            != Some(true),
        explicit is None && checked is None ==> claim_quality_backed(explicit, checked, passed) is None,
{
}

/// What keeps a claim from being quality-backed: as the report says, or
/// else the first of this tool's and then the baseline's quality that was
/// not checked or failed.
pub open spec fn claim_blocker(
    explicit: Option<Seq<char>>,
    glyphrush_checked: Option<bool>,
    glyphrush_passed: Option<bool>,
    baseline_checked: Option<bool>,
    baseline_passed: Option<bool>,
) -> Option<Seq<char>> {
    match explicit {
        Some(b) => Some(b),
        None => if glyphrush_checked == Some(false) {
            Some("glyphrush_quality_not_checked"@)
        } else if glyphrush_checked == Some(true) && glyphrush_passed == Some(false) {
            Some("glyphrush_quality_failed"@)
        } else if baseline_checked == Some(false) {
            Some("baseline_quality_not_checked"@)
        } else if baseline_checked == Some(true) && baseline_passed == Some(false) {
            Some("baseline_quality_failed"@)
        } else {
            None
        },
    }
}

pub fn claim_quality_blocker(
    explicit: Option<String>,
    glyphrush_checked: Option<bool>,
    glyphrush_passed: Option<bool>,
    baseline_checked: Option<bool>,
    baseline_passed: Option<bool>,
) -> (r: Option<String>)
    ensures
        string_opt_view(r) == claim_blocker(
            string_opt_view(explicit),
            glyphrush_checked,
            glyphrush_passed,
            baseline_checked,
            baseline_passed,
        ),
{
    match explicit {
        Some(b) => Some(b),
        None => if glyphrush_checked == Some(false) {
            Some("glyphrush_quality_not_checked".to_string())
        } else if glyphrush_checked == Some(true) && glyphrush_passed == Some(false) {
            Some("glyphrush_quality_failed".to_string())
        } else if baseline_checked == Some(false) {
            Some("baseline_quality_not_checked".to_string())
        } else if baseline_checked == Some(true) && baseline_passed == Some(false) {
            Some("baseline_quality_failed".to_string())
        } else {
            None
        },
    }
}

/// What a report shows of one required claim: whether it passed, whether it
/// is quality-backed, and whether its requested and measured speed-ups both
/// reach the required ratio on a comparable, passed speed check.
#[derive(Clone, Copy, PartialEq, Eq, Structural, Debug)]
pub struct RequiredClaimOutcome {
    pub claim_passed: bool,
    pub quality_backed: bool,
    pub speed_met: bool,
}

pub open spec fn claim_failed(c: Option<RequiredClaimOutcome>) -> bool {
    c matches Some(o) && !(o.claim_passed && o.quality_backed && o.speed_met)
}

pub open spec fn outcome_count(claims: Seq<Option<RequiredClaimOutcome>>, backed: bool) -> nat
    decreases claims.len(),
{
    if claims.len() == 0 {
        0
    } else {
        outcome_count(claims.drop_last(), backed) + if claims.last() matches Some(o) && (if backed {
            o.quality_backed
        } else {
            o.claim_passed
        }) {
            1nat
        } else {
            0nat
        }
    }
}

proof fn lemma_outcome_count_bound(claims: Seq<Option<RequiredClaimOutcome>>, backed: bool)
    ensures
        outcome_count(claims, backed) <= claims.len(),
    decreases claims.len(),
{
    if claims.len() > 0 {
        lemma_outcome_count_bound(claims.drop_last(), backed);
    }
}

/// How the required claims of a report fare: the number quality-backed, the
/// number passed, which present ones failed, and whether the evidence holds:
/// every claim present, none failed, all backed and all passed.
pub struct RequiredClaimsEvidence {
    pub quality_backed_claim_count: usize,
    pub claim_passed_count: usize,
    pub failed: Vec<bool>,
    pub evidence_passed: bool,
}

pub fn required_claims_evidence(claims: &Vec<Option<RequiredClaimOutcome>>) -> (r: RequiredClaimsEvidence)
    ensures
        r.quality_backed_claim_count == outcome_count(claims@, true),
        r.claim_passed_count == outcome_count(claims@, false),
        r.failed@.len() == claims@.len(),
        forall|i: int| 0 <= i < claims@.len() ==> r.failed@[i] == claim_failed(#[trigger] claims@[i]),
        r.evidence_passed == ((forall|i: int| 0 <= i < claims@.len() ==> #[trigger] claims@[i] is Some)
            && (forall|i: int| 0 <= i < claims@.len() ==> !claim_failed(#[trigger] claims@[i]))
            && outcome_count(claims@, true) == claims@.len() && outcome_count(claims@, false)
            == claims@.len()),
{
    let mut backed: usize = 0;
    let mut passed: usize = 0;
    let mut failed: Vec<bool> = Vec::new();
    let mut all_present = true;
    let mut none_failed = true;
    let mut i: usize = 0;
    while i < claims.len()
        invariant
            i <= claims@.len(),
            backed == outcome_count(claims@.take(i as int), true),
            passed == outcome_count(claims@.take(i as int), false),
            failed@.len() == i,
            forall|j: int| 0 <= j < i ==> failed@[j] == claim_failed(#[trigger] claims@[j]),
            all_present == forall|j: int| 0 <= j < i ==> #[trigger] claims@[j] is Some,
            none_failed == forall|j: int| 0 <= j < i ==> !claim_failed(#[trigger] claims@[j]),
        decreases claims@.len() - i,
    {
        proof {
            assert(claims@.take(i + 1).drop_last() =~= claims@.take(i as int));
            lemma_outcome_count_bound(claims@.take(i as int), true);
            lemma_outcome_count_bound(claims@.take(i as int), false);
        }
        let is_failed = match claims[i] {
            None => {
                all_present = false;
                false
            },
            Some(o) => {
                if o.quality_backed {
                    backed = backed + 1;
                }
                if o.claim_passed {
                    passed = passed + 1;
                }
                !(o.claim_passed && o.quality_backed && o.speed_met)
            },
        };
        if is_failed {
            none_failed = false;
        }
        failed.push(is_failed);
        i += 1;
    }
    proof {
        assert(claims@.take(claims@.len() as int) =~= claims@);
    }
    let n = claims.len();
    RequiredClaimsEvidence {
        quality_backed_claim_count: backed,
        claim_passed_count: passed,
        failed,
        evidence_passed: all_present && none_failed && backed == n && passed == n,
    }
}

/// A speed claim of a benchmark report as the required-claim lookup reads
/// it: its baseline, its pass and quality flags, and, for each required
/// baseline in order, whether its speed check meets the ratio that baseline
/// requires (a comparison of floating-point ratios that the caller makes).
pub struct SpeedClaimFacts {
    pub baseline: String,
    pub claim_passed: Option<bool>,
    pub quality_backed: Option<bool>,
    pub glyphrush_quality_backed: Option<bool>,
    pub baseline_quality_checked: Option<bool>,
    pub speed_checks: Vec<bool>,
}

/// The position of the first claim for a baseline.
pub open spec fn first_claim(claims: Seq<SpeedClaimFacts>, baseline: Seq<char>) -> Option<int>
    decreases claims.len(),
{
    if claims.len() == 0 {
        None
    } else {
        match first_claim(claims.drop_last(), baseline) {
            Some(i) => Some(i),
            None => if claims.last().baseline@ == baseline {
                Some(claims.len() - 1)
            } else {
                None
            },
        }
    }
}

/// What a claim shows of the `k`-th required claim.
pub open spec fn claim_outcome(c: SpeedClaimFacts, k: int) -> RequiredClaimOutcome {
    RequiredClaimOutcome {
        claim_passed: c.claim_passed == Some(true),
        quality_backed: c.quality_backed == Some(true),
        speed_met: c.speed_checks@[k],
    }
}

/// What a claim shows of the `k`-th required claim for a speed advantage.
pub open spec fn claim_gate(c: SpeedClaimFacts, k: int) -> RequiredClaimGate {
    RequiredClaimGate {
        speed_met: c.speed_checks@[k],
        glyphrush_quality_backed: c.glyphrush_quality_backed == Some(true),
        baseline_quality_checked: c.baseline_quality_checked == Some(true),
    }
}

/// The required baselines that no claim is for, in order.
pub open spec fn missing_claims(claims: Seq<SpeedClaimFacts>, required: Seq<Seq<char>>) -> Seq<Seq<char>>
    decreases required.len(),
{
    if required.len() == 0 {
        seq![]
    } else {
        let prev = missing_claims(claims, required.drop_last());
        if first_claim(claims, required.last()) is None {
            prev.push(required.last())
        } else {
            prev
        }
    }
}

/// The required claims of a report: for each required baseline in order, the
/// position of the first claim for it, what it shows (none where there is no
/// such claim), and the baselines without a claim.
pub struct RequiredClaimLookup {
    pub positions: Vec<Option<usize>>,
    pub outcomes: Vec<Option<RequiredClaimOutcome>>,
    pub gates: Vec<Option<RequiredClaimGate>>,
    pub missing: Vec<String>,
}

/// A position as an optional integer.
pub open spec fn position_view(p: Option<usize>) -> Option<int> {
    match p {
        Some(i) => Some(i as int),
        None => None,
    }
}

fn first_claim_exec(claims: &Vec<SpeedClaimFacts>, baseline: &String) -> (r: Option<usize>)
    ensures
        position_view(r) == first_claim(claims@, baseline@),
        r matches Some(i) ==> i < claims@.len(),
{
    let mut i: usize = 0;
    while i < claims.len()
        invariant
            i <= claims@.len(),
            first_claim(claims@.take(i as int), baseline@) is None,
        decreases claims@.len() - i,
    {
        proof {
            assert(claims@.take(i + 1).drop_last() =~= claims@.take(i as int));
            assert(claims@.take(i + 1).last() == claims@[i as int]);
        }
        if str_eq(claims[i].baseline.as_str(), baseline.as_str()) {
            proof {
                lemma_first_claim_extend(claims@, baseline@, i + 1);
            }
            return Some(i);
        }
        i += 1;
    }
    proof {
        assert(claims@.take(claims@.len() as int) =~= claims@);
    }
    None
}

/// Once a claim for the baseline is found, later claims change nothing.
proof fn lemma_first_claim_extend(claims: Seq<SpeedClaimFacts>, baseline: Seq<char>, n: int)
    requires
        0 < n <= claims.len(),
        first_claim(claims.take(n), baseline) is Some,
    ensures
        first_claim(claims, baseline) == first_claim(claims.take(n), baseline),
    decreases claims.len() - n,
{
    if n < claims.len() {
        assert(claims.take(n + 1).drop_last() =~= claims.take(n));
        lemma_first_claim_extend(claims, baseline, n + 1);
    } else {
        assert(claims.take(n) =~= claims);
    }
}

/// The first claim of a baseline lies among the claims.
proof fn lemma_first_claim_bound(claims: Seq<SpeedClaimFacts>, baseline: Seq<char>)
    ensures
        first_claim(claims, baseline) matches Some(i) ==> 0 <= i < claims.len()
            && claims[i].baseline@ == baseline,
    decreases claims.len(),
{
    if claims.len() > 0 {
        lemma_first_claim_bound(claims.drop_last(), baseline);
    }
}

/// Finds, for each required baseline in order, the first claim for it, and
/// what it shows of the required claim; lists the baselines without one.
pub fn required_claims(claims: &Vec<SpeedClaimFacts>, required: &Vec<String>) -> (r: RequiredClaimLookup)
    requires
        forall|i: int| 0 <= i < claims@.len() ==> (#[trigger] claims@[i]).speed_checks@.len() == required@.len(),
    ensures
        r.positions@.len() == required@.len(),
        r.outcomes@.len() == required@.len(),
        r.gates@.len() == required@.len(),
        forall|k: int| 0 <= k < required@.len() ==> position_view(#[trigger] r.positions@[k]) == first_claim(
            claims@,
            required@[k]@,
        ),
        forall|k: int| 0 <= k < required@.len() ==> (#[trigger] r.positions@[k] matches Some(i) ==> i
            < claims@.len() && claims@[i as int].baseline@ == required@[k]@),
        forall|k: int| 0 <= k < required@.len() ==> #[trigger] r.outcomes@[k] == (match first_claim(
            claims@,
            required@[k]@,
        ) {
            Some(i) => Some(claim_outcome(claims@[i], k)),
            None => None,
        }),
        forall|k: int| 0 <= k < required@.len() ==> #[trigger] r.gates@[k] == (match first_claim(
            claims@,
            required@[k]@,
        ) {
            Some(i) => Some(claim_gate(claims@[i], k)),
            None => None,
        }),
        r.missing.deep_view() == missing_claims(claims@, required.deep_view()),
{
    let mut positions: Vec<Option<usize>> = Vec::new();
    let mut outcomes: Vec<Option<RequiredClaimOutcome>> = Vec::new();
    let mut gates: Vec<Option<RequiredClaimGate>> = Vec::new();
    let mut missing: Vec<String> = Vec::new();
    let mut k: usize = 0;
    while k < required.len()
        invariant
            k <= required@.len(),
            forall|i: int| 0 <= i < claims@.len() ==> (#[trigger] claims@[i]).speed_checks@.len() == required@.len(),
            positions@.len() == k,
            outcomes@.len() == k,
            gates@.len() == k,
            forall|j: int| 0 <= j < k ==> position_view(#[trigger] positions@[j]) == first_claim(claims@, required@[j]@),
            forall|j: int| 0 <= j < k ==> #[trigger] outcomes@[j] == (match first_claim(claims@, required@[j]@) {
                Some(i) => Some(claim_outcome(claims@[i], j)),
                None => None,
            }),
            forall|j: int| 0 <= j < k ==> #[trigger] gates@[j] == (match first_claim(claims@, required@[j]@) {
                Some(i) => Some(claim_gate(claims@[i], j)),
                None => None,
            }),
            missing.deep_view() == missing_claims(claims@, required.deep_view().take(k as int)),
        decreases required@.len() - k,
    {
        proof {
            crate::views::lemma_vec_dview(*required);
            assert(required.deep_view().take(k + 1).drop_last() =~= required.deep_view().take(k as int));
            assert(required.deep_view().take(k + 1).last() == required@[k as int]@);
        }
        let found = first_claim_exec(claims, &required[k]);
        match found {
            Some(i) => {
                let c = &claims[i];
                let speed = c.speed_checks[k];
                let passed = match c.claim_passed {
                    Some(b) => b,
                    None => false,
                };
                let backed = match c.quality_backed {
                    Some(b) => b,
                    None => false,
                };
                let own_backed = match c.glyphrush_quality_backed {
                    Some(b) => b,
                    None => false,
                };
                let checked = match c.baseline_quality_checked {
                    Some(b) => b,
                    None => false,
                };
                outcomes.push(Some(RequiredClaimOutcome { claim_passed: passed, quality_backed: backed, speed_met: speed }));
                gates.push(
                    Some(
                        RequiredClaimGate {
                            speed_met: speed,
                            glyphrush_quality_backed: own_backed,
                            baseline_quality_checked: checked,
                        },
                    ),
                );
            },
            None => {
                outcomes.push(None);
                gates.push(None);
                let name = copy_string(&required[k]);
                let ghost prev = missing@;
                missing.push(name);
                proof {
                    crate::views::lemma_vec_dview(missing);
                    crate::views::lemma_dview_push(prev, name);
                    crate::views::lemma_vec_dview(missing);
                }
            },
        }
        positions.push(found);
        k += 1;
    }
    proof {
        crate::views::lemma_vec_dview(*required);
        assert(required.deep_view().take(required@.len() as int) =~= required.deep_view());
        assert forall|k: int| 0 <= k < required@.len() implies (#[trigger] positions@[k] matches Some(i) ==> i
            < claims@.len() && claims@[i as int].baseline@ == required@[k]@) by {
            lemma_first_claim_bound(claims@, required@[k]@);
        }
    }
    RequiredClaimLookup { positions, outcomes, gates, missing }
}

/// The positions of the required claims that are present and failed, in
/// the order of the required baselines.
pub open spec fn failed_positions(positions: Seq<Option<usize>>, failed: Seq<bool>) -> Seq<usize>
    decreases positions.len(),
{
    if positions.len() == 0 {
        seq![]
    } else {
        let prev = failed_positions(positions.drop_last(), failed);
        match positions.last() {
            Some(i) => if failed[positions.len() - 1] {
                prev.push(i)
            } else {
                prev
            },
            None => prev,
        }
    }
}

/// The claims to report as failed: the positions of the present required
/// claims whose outcome failed, in order.
pub fn failed_claim_positions(positions: &Vec<Option<usize>>, failed: &Vec<bool>) -> (r: Vec<usize>)
    requires
        failed@.len() == positions@.len(),
    ensures
        r@ == failed_positions(positions@, failed@),
{
    let mut r: Vec<usize> = Vec::new();
    let mut k: usize = 0;
    while k < positions.len()
        invariant
            k <= positions@.len(),
            failed@.len() == positions@.len(),
            r@ == failed_positions(positions@.take(k as int), failed@),
        decreases positions@.len() - k,
    {
        proof {
            assert(positions@.take(k + 1).drop_last() =~= positions@.take(k as int));
            assert(positions@.take(k + 1).last() == positions@[k as int]);
        }
        match positions[k] {
            Some(i) => {
                if failed[k] {
                    r.push(i);
                }
            },
            None => {},
        }
        k += 1;
    }
    proof {
        assert(positions@.take(positions@.len() as int) =~= positions@);
    }
    r
}

/// The ids of the rows with a status, in order.
pub open spec fn ids_with_status(rows: Seq<CapabilityRow>, status: FeatureParityStatus) -> Seq<Seq<char>>
    decreases rows.len(),
{
    if rows.len() == 0 {
        seq![]
    } else if rows.last().status == status {
        ids_with_status(rows.drop_last(), status).push(rows.last().id)
    } else {
        ids_with_status(rows.drop_last(), status)
    }
}

fn capability_ids_with_status(capabilities: &Vec<FeatureParityCapability>, status: FeatureParityStatus) -> (r:
    Vec<String>)
    ensures
        r.deep_view() == ids_with_status(capability_rows(capabilities@), status),
{
    let ghost rows = capability_rows(capabilities@);
    let mut out: Vec<String> = Vec::new();
    let mut i: usize = 0;
    while i < capabilities.len()
        invariant
            i <= capabilities.len(),
            rows == capability_rows(capabilities@),
            out.deep_view() == ids_with_status(rows.take(i as int), status),
        decreases capabilities.len() - i,
    {
        proof {
            assert(rows.take(i + 1).drop_last() =~= rows.take(i as int));
        }
        if capabilities[i].glyphrush_status == status {
            push_text(&mut out, capabilities[i].id.as_str());
        }
        i += 1;
    }
    assert(rows.take(capabilities.len() as int) =~= rows);
    out
}

/// Whether some implemented capability has the id.
pub open spec fn implements_capability(rows: Seq<CapabilityRow>, id: Seq<char>) -> bool {
    exists|i: int|
        0 <= i < rows.len() && #[trigger] rows[i].id == id && rows[i].status
            == FeatureParityStatus::Implemented
}

fn has_implemented_capability(capabilities: &Vec<FeatureParityCapability>, id: &str) -> (r: bool)
    ensures
        r == implements_capability(capability_rows(capabilities@), id@),
{
    let ghost rows = capability_rows(capabilities@);
    let mut i: usize = 0;
    while i < capabilities.len()
        invariant
            i <= capabilities.len(),
            rows == capability_rows(capabilities@),
            forall|j: int|
                0 <= j < i ==> !(#[trigger] rows[j].id == id@ && rows[j].status
                    == FeatureParityStatus::Implemented),
        decreases capabilities.len() - i,
    {
        let c = &capabilities[i];
        if c.glyphrush_status == FeatureParityStatus::Implemented && str_eq(c.id.as_str(), id) {
            assert(rows[i as int].id == id@);
            return true;
        }
        i += 1;
    }
    false
}

/// The benchmark invocation whose report can back a native-text speed claim.
pub const FEATURE_PARITY_RECOMMENDED_GATE: &'static str = "bench --eval-manifest <manifest> --eval-category-preset glyphrush-v0-native-text --baseline-preset glyphrush-v0 --require-coverage-preset glyphrush-v0-native-text --require-speedup-claim liteparse=2.0 --require-speedup-claim liteparse-no-ocr=1.5";

/// How many target capabilities are at least partly implemented.
#[derive(Clone, Copy, PartialEq, Eq, Structural, Debug)]
pub struct FeatureParityCapabilityCoverage {
    pub target: usize,
    pub implemented_or_partial: usize,
}

/// How ready the tool is for a speed race against, and a replacement of,
/// LiteParse.
pub struct FeatureParityReadiness {
    pub native_text_speed_race_ready: bool,
    pub native_text_speed_claim_ready: bool,
    pub native_text_speed_claim_blockers: Vec<String>,
    pub native_text_speed_advantage_ready: bool,
    pub native_text_speed_advantage_blockers: Vec<String>,
    pub full_liteparse_drop_in_ready: bool,
    pub glyphrush_product_parity_ready: bool,
    pub native_text_speed_race_gate: String,
    pub hot_path: FeatureParityHotPathReadiness,
    pub liteparse_capabilities: FeatureParityCapabilityCoverage,
    pub remaining_partial: Vec<String>,
    pub remaining_planned: Vec<String>,
    pub not_planned_by_design: Vec<String>,
}

/// The readiness report: a speed race needs the whole hot path and
/// quality-backed benchmarking implemented; a claim and an advantage need that
/// and the benchmark evidence; parity needs nothing partial or planned.
pub fn feature_parity_readiness(
    capabilities: &Vec<FeatureParityCapability>,
    claim_evidence: Option<BenchmarkEvidenceGate>,
    advantage_evidence: &Option<SpeedAdvantageEvidence>,
) -> (r: FeatureParityReadiness)
    ensures
        ({
            let rows = capability_rows(capabilities@);
            let race = r.hot_path.ready && implements_capability(rows, "quality_backed_benchmarking"@);
            &&& r.hot_path.capability_count == hot_path_count(rows, false)
            &&& r.hot_path.implemented == hot_path_count(rows, true)
            &&& r.hot_path.ready == (r.hot_path.capability_count > 0 && r.hot_path.implemented
                == r.hot_path.capability_count)
            &&& r.native_text_speed_race_ready == race
            &&& r.native_text_speed_claim_blockers.deep_view() == speed_claim_blockers(race, claim_evidence)
            &&& r.native_text_speed_claim_ready == (r.native_text_speed_claim_blockers@.len() == 0)
            &&& r.native_text_speed_advantage_blockers.deep_view() == speed_advantage_blockers(
                race,
                advantage_view(*advantage_evidence),
            )
            &&& r.native_text_speed_advantage_ready == (r.native_text_speed_advantage_blockers@.len()
                == 0)
            &&& r.full_liteparse_drop_in_ready == (status_count(rows, FeatureParityStatus::Partial) == 0
                && status_count(rows, FeatureParityStatus::Planned) == 0 && status_count(
                rows,
                FeatureParityStatus::NotPlanned,
            ) == 0)
            &&& r.glyphrush_product_parity_ready == (status_count(rows, FeatureParityStatus::Partial)
                == 0 && status_count(rows, FeatureParityStatus::Planned) == 0)
            &&& r.native_text_speed_race_gate@ == FEATURE_PARITY_RECOMMENDED_GATE@
            &&& r.liteparse_capabilities.target == capabilities@.len()
            &&& r.liteparse_capabilities.implemented_or_partial == status_count(
                rows,
                FeatureParityStatus::Implemented,
            ) + status_count(rows, FeatureParityStatus::Partial)
            &&& r.remaining_partial.deep_view() == ids_with_status(rows, FeatureParityStatus::Partial)
            &&& r.remaining_planned.deep_view() == ids_with_status(rows, FeatureParityStatus::Planned)
            &&& r.not_planned_by_design.deep_view() == ids_with_status(
                rows,
                FeatureParityStatus::NotPlanned,
            )
        }),
{
    let summary = feature_parity_summary(capabilities);
    proof {
        lemma_status_counts_sum(capability_rows(capabilities@));
    }
    let hot_path = feature_parity_hot_path(capabilities);
    let quality_gate_ready = has_implemented_capability(capabilities, "quality_backed_benchmarking");
    let race = hot_path.ready && quality_gate_ready;
    let (claim_ready, claim_blockers) = feature_parity_speed_claim_readiness(race, claim_evidence);
    let (advantage_ready, advantage_blockers) = feature_parity_speed_advantage_readiness(
        race,
        advantage_evidence,
    );
    FeatureParityReadiness {
        native_text_speed_race_ready: race,
        native_text_speed_claim_ready: claim_ready,
        native_text_speed_claim_blockers: claim_blockers,
        native_text_speed_advantage_ready: advantage_ready,
        native_text_speed_advantage_blockers: advantage_blockers,
        full_liteparse_drop_in_ready: summary.partial == 0 && summary.planned == 0
            && summary.not_planned == 0,
        glyphrush_product_parity_ready: summary.partial == 0 && summary.planned == 0,
        native_text_speed_race_gate: FEATURE_PARITY_RECOMMENDED_GATE.to_string(),
        hot_path,
        liteparse_capabilities: FeatureParityCapabilityCoverage {
            target: summary.target_capability_count,
            implemented_or_partial: summary.implemented + summary.partial,
        },
        remaining_partial: capability_ids_with_status(capabilities, FeatureParityStatus::Partial),
        remaining_planned: capability_ids_with_status(capabilities, FeatureParityStatus::Planned),
        not_planned_by_design: capability_ids_with_status(capabilities, FeatureParityStatus::NotPlanned),
    }
}

// ---------------------------------------------------------------------------
// Coverage of a benchmark report
// ---------------------------------------------------------------------------

/// Whether a benchmark report covers the categories of a preset.
pub struct FeatureParityBenchmarkCoverageRequirement {
    pub preset: String,
    pub required: bool,
    pub required_categories: Vec<String>,
    pub present_categories: Vec<String>,
    pub missing_categories: Vec<String>,
    pub passed: bool,
}

/// The preset's categories that the report has no quality figures for, in
/// the preset's order.
pub open spec fn uncovered(required: Seq<Seq<char>>, present: Seq<Seq<char>>) -> Seq<Seq<char>>
    decreases required.len(),
{
    if required.len() == 0 {
        Seq::empty()
    } else {
        let prev = uncovered(required.drop_last(), present);
        if present.contains(required.last()) {
            prev
        } else {
            prev.push(required.last())
        }
    }
}

fn contains_string(v: &Vec<String>, s: &String) -> (r: bool)
    ensures
        r == v.deep_view().contains(s@),
{
    proof {
        crate::views::lemma_vec_dview(*v);
    }
    let mut i: usize = 0;
    while i < v.len()
        invariant
            i <= v.len(),
            v.deep_view().len() == v.len(),
            forall|j: int| 0 <= j < v.len() ==> #[trigger] v.deep_view()[j] == v@[j]@,
            forall|j: int| 0 <= j < i ==> v.deep_view()[j] != s@,
        decreases v.len() - i,
    {
        if str_eq(v[i].as_str(), s.as_str()) {
            assert(v.deep_view()[i as int] == s@);
            return true;
        }
        i += 1;
    }
    false
}

/// Compares the categories of a report with those of a preset.
pub fn feature_parity_benchmark_coverage_requirement(
    preset: CoveragePreset,
    required: bool,
    quality_categories: &Vec<String>,
) -> (r: FeatureParityBenchmarkCoverageRequirement)
    ensures
        r.preset@ == coverage_preset_name(preset),
        r.required == required,
        r.required_categories.deep_view() == coverage_categories(preset),
        r.present_categories.deep_view() == quality_categories.deep_view(),
        r.missing_categories.deep_view() == uncovered(
            coverage_categories(preset),
            quality_categories.deep_view(),
        ),
        r.passed == (r.missing_categories@.len() == 0),
{
    let mut present: Vec<String> = Vec::new();
    let mut i: usize = 0;
    proof {
        crate::views::lemma_vec_dview(*quality_categories);
    }
    while i < quality_categories.len()
        invariant
            i <= quality_categories.len(),
            quality_categories.deep_view().len() == quality_categories.len(),
            forall|j: int|
                0 <= j < quality_categories.len() ==> #[trigger] quality_categories.deep_view()[j]
                    == quality_categories@[j]@,
            present.deep_view() == quality_categories.deep_view().take(i as int),
        decreases quality_categories.len() - i,
    {
        let ghost prev = present@;
        let s = copy_string(&quality_categories[i]);
        present.push(s);
        proof {
            crate::views::lemma_vec_dview(present);
            crate::views::lemma_dview_push(prev, s);
        }
        i += 1;
        assert(present.deep_view() =~= quality_categories.deep_view().take(i as int));
    }
    assert(quality_categories.deep_view().take(quality_categories.len() as int)
        =~= quality_categories.deep_view());
    let required_categories = preset.categories();
    let ghost req = required_categories.deep_view();
    let mut missing: Vec<String> = Vec::new();
    let mut k: usize = 0;
    proof {
        crate::views::lemma_vec_dview(required_categories);
    }
    while k < required_categories.len()
        invariant
            k <= required_categories.len(),
            req == required_categories.deep_view(),
            req.len() == required_categories.len(),
            forall|j: int|
                0 <= j < required_categories.len() ==> #[trigger] req[j] == required_categories@[j]@,
            present.deep_view() == quality_categories.deep_view(),
            missing.deep_view() == uncovered(req.take(k as int), present.deep_view()),
        decreases required_categories.len() - k,
    {
        proof {
            assert(req.take(k + 1).drop_last() =~= req.take(k as int));
        }
        if !contains_string(&present, &required_categories[k]) {
            let ghost prev = missing@;
            let s = copy_string(&required_categories[k]);
            missing.push(s);
            proof {
                crate::views::lemma_vec_dview(missing);
                crate::views::lemma_dview_push(prev, s);
            }
        }
        k += 1;
    }
    assert(req.take(required_categories.len() as int) =~= req);
    let passed = missing.len() == 0;
    FeatureParityBenchmarkCoverageRequirement {
        preset: preset.name().to_string(),
        required,
        required_categories,
        present_categories: present,
        missing_categories: missing,
        passed,
    }
}

// ---------------------------------------------------------------------------
// Unchecked baseline quality per category
// ---------------------------------------------------------------------------

/// For one baseline and category, the documents whose quality was not
/// checked, by reason.
pub struct FeatureParityBenchmarkBaselineQualityUncheckedCategoryEvidence {
    pub baseline: String,
    pub category: String,
    pub document_count: u64,
    pub page_count: u64,
    pub not_checked_no_expectations_documents: u64,
    pub not_checked_timed_out_documents: u64,
    pub not_checked_execution_failed_documents: u64,
}

impl FeatureParityBenchmarkBaselineQualityUncheckedCategoryEvidence {
    /// Counts one more document with its pages under the status it was
    /// reported with.
    pub fn add_document(&mut self, page_count: u64, quality_status: &str)
        requires
            old(self).document_count < u64::MAX,
            old(self).page_count + page_count <= u64::MAX,
            old(self).not_checked_no_expectations_documents < u64::MAX,
            old(self).not_checked_timed_out_documents < u64::MAX,
            old(self).not_checked_execution_failed_documents < u64::MAX,
        ensures
            final(self).baseline@ == old(self).baseline@,
            final(self).category@ == old(self).category@,
            final(self).document_count == old(self).document_count + 1,
            final(self).page_count == old(self).page_count + page_count,
            final(self).not_checked_no_expectations_documents == old(
                self,
            ).not_checked_no_expectations_documents + if quality_status@
                == "not_checked_no_expectations"@ {
                1int
            } else {
                0int
            },
            final(self).not_checked_timed_out_documents == old(self).not_checked_timed_out_documents
                + if quality_status@ == "not_checked_timed_out"@ {
                1int
            } else {
                0int
            },
            final(self).not_checked_execution_failed_documents == old(
                self,
            ).not_checked_execution_failed_documents + if quality_status@
                == "not_checked_execution_failed"@ {
                1int
            } else {
                0int
            },
    {
        proof {
            reveal_strlit("not_checked_no_expectations");
            reveal_strlit("not_checked_timed_out");
            reveal_strlit("not_checked_execution_failed");
            assert("not_checked_no_expectations"@.len() == 27);
            assert("not_checked_timed_out"@.len() == 21);
            assert("not_checked_execution_failed"@.len() == 28);
        }
        self.document_count = self.document_count + 1;
        self.page_count = self.page_count + page_count;
        if str_eq(quality_status, "not_checked_no_expectations") {
            self.not_checked_no_expectations_documents = self.not_checked_no_expectations_documents
                + 1;
        } else if str_eq(quality_status, "not_checked_timed_out") {
            self.not_checked_timed_out_documents = self.not_checked_timed_out_documents + 1;
        } else if str_eq(quality_status, "not_checked_execution_failed") {
            self.not_checked_execution_failed_documents = self.not_checked_execution_failed_documents
                + 1;
        }
    }
}

} // verus!
