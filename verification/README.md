# glyphrush

The decision-making core of the glyphrush command-line tool, written in
Verus. The functions in `src/` carry contracts that the verifier proves,
except a few small wrappers around std and the `sha2` and `serde_json`
crates (marked `#[verifier::external_body]`), whose contracts are trusted:
they state what those functions' documentation and source show.
The tool parses PDFs, checks extracted text against labelled expectations,
benchmarks itself against external baselines, and refuses to claim speed or
quality it has not measured. The PDF engine itself is not part of this crate;
the library works on what extraction reports about each page and document.

## Layout

- `src/` — the verified library.
  - Text and tables: `text`, `unicode`, `numbers`, `order`, `tables`,
    `markdown`, `page_text`, `anchors`, `reading_order`.
  - Evaluation: `page_checks`, `quality_flags`, `classification`,
    `document_eval` (the checks of one document), `manifest_eval` (the
    expectations for a backend, and a document evaluated against them),
    `eval_summary`, `categories`, `paths`.
  - Benchmarks and baselines: `metrics`, `latency`, `cache_probe`, `corpus`,
    `baselines`, `smoke`, `gates`, `evidence`, `parity`.
  - Command surface: `cli`, `commands`, `process`, `ocr`, `http`, `json`,
    `digest`.
- `tests/` — tests of the library on concrete values.
- `app/` — the command-line program around the library: argument parsing,
  files, processes, sockets and JSON reports.

Laws that span several functions are stated as public proof functions named
`lemma_*` or `law_*` next to the functions they speak of.
