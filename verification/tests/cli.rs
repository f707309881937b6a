use glyphrush::cli::{
    baseline_preset_names, baseline_specs_with_preset, BaselinePreset, BaselineSpec,
    CategoryCountSpec, CoveragePreset,
};

fn names(v: &[BaselineSpec]) -> Vec<(String, String)> {
    v.iter().map(|b| (b.name.clone(), b.command.clone())).collect()
}

#[test]
fn coverage_presets_name_their_categories() {
    assert_eq!(CoveragePreset::GlyphrushV0.name(), "glyphrush-v0");
    assert_eq!(CoveragePreset::GlyphrushV0NativeText.name(), "glyphrush-v0-native-text");
    assert_eq!(CoveragePreset::GlyphrushV0.categories().len(), 9);
    let native = CoveragePreset::GlyphrushV0NativeText.categories();
    assert_eq!(native.len(), 8);
    assert!(!native.contains(&"scanned".to_string()));
    assert_eq!(native[0], "clean_digital");
    assert_eq!(native[7], "large");
}

#[test]
fn baseline_preset_lists_four_wrappers() {
    assert_eq!(BaselinePreset::GlyphrushV0.name(), "glyphrush-v0");
    let specs = BaselinePreset::GlyphrushV0.specs();
    assert_eq!(
        names(&specs),
        vec![
            ("liteparse".to_string(), "tools/baselines/liteparse-text.sh".to_string()),
            ("liteparse-no-ocr".to_string(), "tools/baselines/liteparse-no-ocr-text.sh".to_string()),
            ("pymupdf".to_string(), "tools/baselines/pymupdf-text.sh".to_string()),
            ("pdfplumber".to_string(), "tools/baselines/pdfplumber-text.sh".to_string()),
        ]
    );
}

#[test]
fn baseline_specs_put_the_preset_first() {
    let extra = vec![BaselineSpec { name: "mine".to_string(), command: "./mine.sh".to_string() }];
    let specs = baseline_specs_with_preset(&extra, Some(BaselinePreset::GlyphrushV0));
    assert_eq!(specs.len(), 5);
    assert_eq!(specs[4].name, "mine");
    assert_eq!(names(&baseline_specs_with_preset(&extra, None)), names(&extra));
    assert_eq!(baseline_preset_names(Some(BaselinePreset::GlyphrushV0)), vec!["glyphrush-v0"]);
    assert!(baseline_preset_names(None).is_empty());
}

#[test]
fn baseline_spec_parses_name_and_executable() {
    let spec = BaselineSpec::parse(" pymupdf = tools/run.sh ").unwrap();
    assert_eq!(spec.name, "pymupdf");
    assert_eq!(spec.command, "tools/run.sh");
    assert_eq!(spec.command_label(), "tools/run.sh");
    let spec: BaselineSpec = "a=b=c".parse().unwrap();
    assert_eq!((spec.name.as_str(), spec.command.as_str()), ("a", "b=c"));
}

#[test]
fn baseline_spec_errors() {
    assert_eq!(BaselineSpec::parse("nothing").err().unwrap(), "baseline must use NAME=EXECUTABLE");
    assert_eq!(BaselineSpec::parse(" =x").err().unwrap(), "baseline name cannot be empty");
    assert_eq!(BaselineSpec::parse("x= ").err().unwrap(), "baseline executable cannot be empty");
}

#[test]
fn category_count_spec_parses_positive_counts() {
    let spec = CategoryCountSpec::parse("tables = 3").unwrap();
    assert_eq!((spec.category.as_str(), spec.count), ("tables", 3));
    let spec: CategoryCountSpec = "forms=+2".parse().unwrap();
    assert_eq!(spec.count, 2);
}

#[test]
fn category_count_spec_errors() {
    assert_eq!(CategoryCountSpec::parse("tables").err().unwrap(), "category count must use NAME=COUNT");
    assert_eq!(CategoryCountSpec::parse(" =3").err().unwrap(), "category name cannot be empty");
    assert_eq!(CategoryCountSpec::parse("x=").err().unwrap(), "category count cannot be empty");
    assert_eq!(
        CategoryCountSpec::parse("x=-1").err().unwrap(),
        "category count must be a positive integer"
    );
    assert_eq!(
        CategoryCountSpec::parse("x=99999999999999999999999").err().unwrap(),
        "category count must be a positive integer"
    );
    assert_eq!(
        CategoryCountSpec::parse("x=0").err().unwrap(),
        "category count must be greater than zero"
    );
}
