use glyphrush::reading_order::{find_snippet, reading_order_outcome};
use glyphrush::text::chars_of;

fn strings(v: &[&str]) -> Vec<String> {
    v.iter().map(|s| s.to_string()).collect()
}

#[test]
fn snippets_are_found_at_byte_offsets() {
    let text = chars_of("héllo wörld, hello world");
    assert_eq!(find_snippet(&text, "wörld"), Some(7));
    assert_eq!(find_snippet(&text, "world"), Some(21));
    assert_eq!(find_snippet(&text, "missing"), None);
    assert_eq!(find_snippet(&text, ""), Some(0));
    assert_eq!("héllo wörld, hello world".find("world"), Some(21));
}

#[test]
fn ordered_snippets_score_fully() {
    let r = reading_order_outcome(&strings(&["Title", "Body", "End"]), "Title then Body and End");
    assert_eq!((r.score_numerator, r.score_denominator), (3, 3));
    assert!(r.inversions.is_empty());
    assert!(r.missing.is_empty());
    let matched: Vec<(&str, usize)> = r.matched.iter().map(|(s, p)| (s.as_str(), *p)).collect();
    assert_eq!(matched, vec![("Title", 0), ("Body", 11), ("End", 20)]);
}

#[test]
fn swapped_snippets_are_inversions() {
    let r = reading_order_outcome(&strings(&["second", "first", "gone", "third"]), "first second third");
    assert_eq!(r.missing, strings(&["gone"]));
    assert_eq!(r.inversions, vec![("second".to_string(), "first".to_string())]);
    assert_eq!((r.score_numerator, r.score_denominator), (2, 6));
}

#[test]
fn short_sequences_score_by_presence() {
    let r = reading_order_outcome(&strings(&["alone"]), "all alone");
    assert_eq!((r.score_numerator, r.score_denominator), (1, 1));
    let r = reading_order_outcome(&strings(&["absent"]), "nothing here");
    assert_eq!((r.score_numerator, r.score_denominator), (0, 1));
    let r = reading_order_outcome(&Vec::new(), "anything");
    assert_eq!((r.score_numerator, r.score_denominator), (1, 1));
}
