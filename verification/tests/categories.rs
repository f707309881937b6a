use glyphrush::categories::{
    category_coverage, count_document_categories, document_category,
    manifest_category_filter_argument, manifest_category_filter_matches,
    manifest_min_category_counts_with_preset, manifest_required_categories_with_preset,
    min_category_counts_from_specs, normalize_manifest_category,
    normalize_manifest_category_filter, normalize_min_category_counts,
    normalize_required_categories,
};
use glyphrush::cli::{CategoryCountSpec, CoveragePreset};
use glyphrush::countmap::CountMap;

fn s(v: &[&str]) -> Vec<String> {
    v.iter().map(|x| x.to_string()).collect()
}

fn entries(m: &CountMap<usize>) -> Vec<(String, usize)> {
    (0..m.len()).map(|i| (m.key(i).clone(), m.value(i))).collect()
}

fn spec(c: &str, n: usize) -> CategoryCountSpec {
    CategoryCountSpec { category: c.to_string(), count: n }
}

#[test]
fn categories_are_trimmed_and_blank_ones_dropped() {
    assert_eq!(normalize_manifest_category(Some("  tables ")), Some("tables".to_string()));
    assert_eq!(normalize_manifest_category(Some("   ")), None);
    assert_eq!(normalize_manifest_category(None), None);
}

#[test]
fn filters_are_sorted_sets_of_comma_separated_categories() {
    assert_eq!(normalize_manifest_category_filter(Some("b, a ,,b")), s(&["a", "b"]));
    assert!(normalize_manifest_category_filter(None).is_empty());
    let filter = s(&["a", "b"]);
    assert!(manifest_category_filter_matches(&filter, "a"));
    assert!(!manifest_category_filter_matches(&filter, "c"));
    assert!(manifest_category_filter_matches(&vec![], "anything"));
}

#[test]
fn filter_argument_comes_from_the_preset_first() {
    assert_eq!(
        manifest_category_filter_argument(Some("x"), Some(CoveragePreset::GlyphrushV0NativeText)),
        Some(
            "clean_digital,hybrid,academic_columns,tables,forms,rotated,weird_encoding,large"
                .to_string()
        )
    );
    assert_eq!(manifest_category_filter_argument(Some("x"), None), Some("x".to_string()));
    assert_eq!(manifest_category_filter_argument(None, None), None);
}

#[test]
fn required_categories_with_preset_come_first() {
    let r = manifest_required_categories_with_preset(&s(&["extra"]), Some(CoveragePreset::GlyphrushV0));
    assert_eq!(r.len(), 10);
    assert_eq!(r[9], "extra");
    let m = manifest_min_category_counts_with_preset(&vec![spec("x", 4)], Some(CoveragePreset::GlyphrushV0));
    assert_eq!(m.len(), 10);
    assert_eq!((m[0].category.as_str(), m[0].count), ("clean_digital", 1));
    assert_eq!((m[9].category.as_str(), m[9].count), ("x", 4));
}

#[test]
fn required_categories_are_normalised_filtered_and_unique() {
    let cats = s(&[" tables", "forms", "tables ", " ", "scanned"]);
    assert_eq!(normalize_required_categories(&cats, None), s(&["forms", "scanned", "tables"]));
    assert_eq!(normalize_required_categories(&cats, Some("tables,other")), s(&["tables"]));
    let once = normalize_required_categories(&cats, None);
    assert_eq!(normalize_required_categories(&once, None), once);
}

#[test]
fn minimum_counts_keep_the_largest_per_category() {
    let specs = vec![spec(" tables", 2), spec("forms", 1), spec("tables", 5), spec("tables ", 3), spec(" ", 9)];
    let m = min_category_counts_from_specs(&specs);
    assert_eq!(entries(&m), vec![("forms".to_string(), 1), ("tables".to_string(), 5)]);
    assert_eq!(m.get("tables"), Some(5));
    assert_eq!(m.get("scanned"), None);
}

#[test]
fn manifest_minimums_drop_zero_counts_and_filtered_categories() {
    let m = min_category_counts_from_specs(&vec![spec(" a ", 3), spec("b", 2), spec("c", 1)]);
    let mut raw: CountMap<usize> = CountMap::new();
    raw.set(" a ".to_string(), 3);
    raw.set("a".to_string(), 1);
    raw.set("b".to_string(), 0);
    raw.set("c".to_string(), 4);
    let n = normalize_min_category_counts(&raw, Some("a,b"));
    assert_eq!(entries(&n), vec![("a".to_string(), 3)]);
    let all = normalize_min_category_counts(&raw, None);
    assert_eq!(entries(&all), vec![("a".to_string(), 3), ("c".to_string(), 4)]);
    assert_eq!(entries(&m).len(), 3);
}

#[test]
fn coverage_reports_missing_and_under_minimum_categories() {
    let counts = count_document_categories(&vec![
        Some("tables".to_string()),
        None,
        Some(" tables ".to_string()),
        Some("  ".to_string()),
    ]);
    assert_eq!(
        entries(&counts),
        vec![("tables".to_string(), 2), ("uncategorized".to_string(), 2)]
    );
    let mins = min_category_counts_from_specs(&vec![spec("tables", 3), spec("uncategorized", 1)]);
    let out = category_coverage(s(&["tables", "forms"]), mins, &counts).unwrap();
    assert_eq!(out.present, s(&["tables", "uncategorized"]));
    assert_eq!(out.missing, s(&["forms"]));
    let under: Vec<(String, usize, usize)> =
        out.under_minimum.iter().map(|u| (u.category.clone(), u.required, u.actual)).collect();
    assert_eq!(under, vec![("tables".to_string(), 3, 2)]);
    assert!(!out.passed);
    let ok = category_coverage(s(&["tables"]), CountMap::new(), &counts).unwrap();
    assert!(ok.passed);
    assert!(category_coverage(vec![], CountMap::new(), &counts).is_none());
}

#[test]
fn documents_without_a_category_are_uncategorized() {
    assert_eq!(document_category(Some(" x ")), "x");
    assert_eq!(document_category(Some("")), "uncategorized");
    assert_eq!(document_category(None), "uncategorized");
}
