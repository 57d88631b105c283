# extract

A verified library for a PDF text-extraction service: a Base64 payload is decoded,
checked for the `%PDF-` signature, loaded with `lopdf`, and the text of every page is
extracted; failures are answered with RFC 9457 problem documents.

- `src/` — the library, verified with Verus: decoding (`domain::base64_decoder`),
  signature check (`domain::pdf_utils`), loading (`domain::pdf_parser`), page extraction
  (`domain::page_extractor`), the pipeline (`extract_service`), problem documents and API
  values (`api`), setting validation (`config`), decimal rendering (`decimal`) and fully
  specified test documents (`domain::test_support`).
- `app/` — the HTTP service around it: axum routing and handlers, serde bodies, the
  tokio/rayon plumbing that runs extraction on a thread pool, and reading the environment.
- `tests/` — tests of the library.
