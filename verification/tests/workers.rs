use glyphrush::metrics::{
    document_worker_count, effective_page_worker_count, ExtractionOptions, LopdfBackend,
    PdfiumBackend,
};

#[test]
fn lopdf_document_worker_count_respects_requested_jobs() {
    assert_eq!(document_worker_count(&LopdfBackend, 4, 3), 3);
}

#[test]
fn pdfium_document_worker_count_serializes_corpus_jobs() {
    assert_eq!(document_worker_count(&PdfiumBackend, 4, 3), 1);
}

#[test]
fn page_workers_are_clamped_to_pages_and_at_least_one() {
    let options = ExtractionOptions { span_geometry: false, page_jobs: 8 };
    assert_eq!(effective_page_worker_count(options, 3), 3);
    let none = ExtractionOptions { span_geometry: true, page_jobs: 0 };
    assert_eq!(effective_page_worker_count(none, 0), 1);
    assert_eq!(effective_page_worker_count(none, 10), 1);
}
