use glyphrush::anchors::text_recall_counts;
use glyphrush::anchors::{
    generated_page_required_text, is_backend_neutral_required_text_anchor,
    is_substantive_required_text_anchor, line_looks_like_prose_anchor, normalize_chars,
    normalize_required_text_anchor, normalize_words, required_text_anchor_matches,
    required_text_missing, squashed_required_text_anchor,
};

fn s(v: &[&str]) -> Vec<String> {
    v.iter().map(|x| x.to_string()).collect()
}

#[test]
fn anchors_normalise_whitespace_and_squash_to_letters_and_punctuation() {
    assert_eq!(normalize_required_text_anchor("  a \n b\tc "), "a b c");
    assert_eq!(squashed_required_text_anchor("A b-c 1!"), "Ab-c1!");
}

#[test]
fn anchors_match_verbatim_spaced_or_squashed() {
    assert!(required_text_anchor_matches("total: 42 units", "42 units"));
    assert!(required_text_anchor_matches("total:\n42   units", "total: 42 units"));
    assert!(required_text_anchor_matches("BudgetTable2024 total", "Budget Table 2024"));
    assert!(!required_text_anchor_matches("Budget-Table2024", "Budget Table 2024"));
    assert!(!required_text_anchor_matches("abc", "ab c d"));
    assert!(!required_text_anchor_matches("abc", "a b c"));
}

#[test]
fn missing_anchors_are_reported_in_order() {
    let expected = s(&["alpha", "gamma", "beta"]);
    assert_eq!(required_text_missing(&expected, "alpha beta"), s(&["gamma"]));
    assert!(required_text_missing(&[], "anything").is_empty());
}

#[test]
fn neutral_and_substantive_anchors() {
    assert!(is_backend_neutral_required_text_anchor("plain text"));
    assert!(!is_backend_neutral_required_text_anchor("a | b"));
    assert!(!is_backend_neutral_required_text_anchor("tab\there"));
    assert!(is_substantive_required_text_anchor("ab12"));
    assert!(!is_substantive_required_text_anchor("1234"));
    assert!(!is_substantive_required_text_anchor("abc"));
}

#[test]
fn prose_lines_have_four_words_mostly_letters() {
    assert!(line_looks_like_prose_anchor("The quick brown fox jumps"));
    assert!(!line_looks_like_prose_anchor("too few words"));
    assert!(!line_looks_like_prose_anchor("12 34 56 78 ab"));
}

#[test]
fn words_and_chars_are_lowercased_alphanumerics() {
    assert_eq!(normalize_words("Hello, World-42!"), s(&["hello", "world", "42"]));
    assert_eq!(normalize_chars("A-b C!"), vec!['a', 'b', 'c']);
}

#[test]
fn generated_anchor_prefers_prose_within_one_span() {
    let text = "Page 1\nThe results show a clear gain\nshort";
    let spans = vec![true, true, true];
    assert_eq!(
        generated_page_required_text(text, &spans),
        s(&["The results show a clear gain"])
    );
    // Not within one span: the neutral tiers skip it and the next tier
    // takes the first substantive neutral line.
    let split = vec![true, false, true];
    assert_eq!(generated_page_required_text(text, &split), s(&["Page 1"]));
}

#[test]
fn generated_anchor_falls_back_and_cuts_long_lines() {
    assert_eq!(generated_page_required_text("  \n -- \n", &vec![false, false]), s(&["--"]));
    assert!(generated_page_required_text("", &vec![]).is_empty());
    let long = "word ".repeat(40);
    let out = generated_page_required_text(&long, &vec![false]);
    assert_eq!(out.len(), 1);
    assert_eq!(out[0].chars().count(), 160);
}

#[test]
fn text_recall_counts_missing_words_and_chars_with_multiplicity() {
    let r = text_recall_counts("The quick brown fox, the end.", "the QUICK fox");
    assert_eq!(r.expected_words, 6);
    assert_eq!(r.missing_words, vec!["brown".to_string(), "end".to_string(), "the".to_string()]);
    assert_eq!(r.expected_chars, 22);
    assert_eq!(r.missing_chars, 11);
    let empty = text_recall_counts("", "anything");
    assert_eq!(empty.expected_words, 0);
    assert!(empty.missing_words.is_empty());
    assert_eq!(empty.missing_chars, 0);
}
