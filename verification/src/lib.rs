//! Verified core of the glyphrush command-line tool.

// Text, numbers and ordered collections.
pub mod countmap;
pub mod digest;
pub mod numbers;
pub mod order;
pub mod text;
pub mod unicode;
pub mod views;

// Page text, tables and Markdown.
pub mod anchors;
pub mod markdown;
pub mod page_text;
pub mod reading_order;
pub mod tables;

// Evaluation against a manifest.
pub mod categories;
pub mod classification;
pub mod document_eval;
pub mod eval_summary;
pub mod manifest_eval;
pub mod page_checks;
pub mod paths;
pub mod quality_flags;

// Benchmarks, baselines and the claims made from them.
pub mod baselines;
pub mod cache_probe;
pub mod corpus;
pub mod corpus_bench;
pub mod evidence;
pub mod gates;
pub mod latency;
pub mod metrics;
pub mod parity;
pub mod smoke;

// The command surface.
pub mod cli;
pub mod commands;
pub mod http;
pub mod json;
pub mod ocr;
pub mod process;
