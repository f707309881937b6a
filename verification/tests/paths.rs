use glyphrush::paths::{
    cache_path, category_from_relative_pdf_path, feature_parity_paths_match,
    is_document_sidecar_file, path_has_pdf_extension, path_label, resolve_manifest_path,
    sanitize_temp_stem, sidecar_file_name,
};

#[test]
fn labels_join_the_named_components() {
    assert_eq!(path_label("/corpus//tables/./a.pdf"), "corpus/tables/a.pdf");
    assert_eq!(path_label("./x/../y.pdf"), "x/y.pdf");
    assert_eq!(path_label(""), "");
}

#[test]
fn category_is_the_first_directory_of_a_relative_path() {
    assert_eq!(category_from_relative_pdf_path("tables/a.pdf"), Some("tables".to_string()));
    assert_eq!(category_from_relative_pdf_path("a.pdf"), None);
    assert_eq!(category_from_relative_pdf_path("../a.pdf"), None);
    assert_eq!(category_from_relative_pdf_path("/tables/a.pdf"), None);
    assert_eq!(category_from_relative_pdf_path(" /a.pdf"), None);
}

#[test]
fn pdf_extension_ignores_case() {
    assert!(path_has_pdf_extension("dir/A.PDF"));
    assert!(path_has_pdf_extension("a.b.pdf"));
    assert!(!path_has_pdf_extension(".pdf"));
    assert!(!path_has_pdf_extension("a.pdfx"));
    assert!(!path_has_pdf_extension("pdf"));
    assert!(!path_has_pdf_extension("dir.pdf/.."));
}

#[test]
fn relative_manifest_paths_resolve_against_the_manifest_directory() {
    assert_eq!(resolve_manifest_path("/m", "docs/a.pdf"), "/m/docs/a.pdf");
    assert_eq!(resolve_manifest_path("/m/", "a.pdf"), "/m/a.pdf");
    assert_eq!(resolve_manifest_path("/m", "/abs/a.pdf"), "/abs/a.pdf");
    assert_eq!(resolve_manifest_path("", "a.pdf"), "a.pdf");
    assert_eq!(cache_path("/cache", "abc"), "/cache/abc.json");
}

#[test]
fn sidecar_names_use_the_stem_and_six_digits() {
    assert_eq!(sidecar_file_name("/in/report.v2.pdf", 7), "report.v2.p000007.txt");
    assert_eq!(sidecar_file_name("/", 1234567), "document.p1234567.txt");
    assert!(is_document_sidecar_file("/in/report.v2.pdf", "report.v2.p000007.txt"));
    assert!(!is_document_sidecar_file("/in/report.v2.pdf", "report.v2.p00007.txt"));
    assert!(!is_document_sidecar_file("/in/report.v2.pdf", "report.v2.p00000a.txt"));
    assert!(!is_document_sidecar_file("/in/report.v2.pdf", "other.p000007.txt"));
    assert!(!is_document_sidecar_file("/", "document.p1234567.txt"));
    let name = sidecar_file_name("x.pdf", 999_999);
    assert!(is_document_sidecar_file("x.pdf", &name));
}

#[test]
fn temp_stems_keep_only_safe_characters() {
    assert_eq!(sanitize_temp_stem("a b/c-d_é"), "a_b_c-d__");
    let once = sanitize_temp_stem("x y");
    assert_eq!(sanitize_temp_stem(&once), once);
}

#[test]
fn parity_paths_match_by_suffix_either_way() {
    assert!(feature_parity_paths_match(Some("test/v0/a.pdf"), "test/v0/a.pdf"));
    assert!(feature_parity_paths_match(Some("/abs/test/a.pdf"), "test/a.pdf"));
    assert!(feature_parity_paths_match(Some("a.pdf"), "dir/a.pdf"));
    assert!(!feature_parity_paths_match(Some("xa.pdf"), "a.pdf"));
    assert!(!feature_parity_paths_match(None, "a.pdf"));
}
