use glyphrush::latency::{corpus_parser_wall_us, page_latency_from_documents, route_latency_from_pages};
use glyphrush::page_checks::PageRoute;

#[test]
fn corpus_latency_pools_the_pages_of_all_documents() {
    let r = page_latency_from_documents(&vec![vec![10, 40], vec![], vec![20, 30, 50]]);
    assert_eq!(r.p50_us, 30);
    assert_eq!(r.p95_us, 50);
    assert_eq!(r.max_us, 50);
    let none = page_latency_from_documents(&vec![vec![], vec![]]);
    assert_eq!((none.p50_us, none.p95_us, none.max_us), (0, 0, 0));
}

#[test]
fn latencies_are_summarized_per_route() {
    let pages = vec![
        (PageRoute::NativeFastPath, 5),
        (PageRoute::OcrFallback, 900),
        (PageRoute::NativeFastPath, 7),
        (PageRoute::NativeFastPath, 6),
    ];
    let r = route_latency_from_pages(&pages);
    assert_eq!((r.native_fast_path.p50_us, r.native_fast_path.max_us), (6, 7));
    assert_eq!(r.ocr_fallback.max_us, 900);
    assert_eq!(r.needs_fallback.max_us, 0);
    assert_eq!(r.unsupported.p95_us, 0);
}

#[test]
fn wall_time_is_the_slowest_document_of_each_round() {
    let walls = vec![5, 9, 2, 7, 1];
    assert_eq!(corpus_parser_wall_us(&walls, 2), 9 + 7 + 1);
    assert_eq!(corpus_parser_wall_us(&walls, 1), 24);
    assert_eq!(corpus_parser_wall_us(&walls, 0), 24);
    assert_eq!(corpus_parser_wall_us(&walls, 8), 9);
    assert_eq!(corpus_parser_wall_us(&vec![], 4), 0);
}
