# koharu-rpc

The request, job and project logic behind Koharu's headless HTTP server
(REST under `/api/v1` plus a Server-Sent Events stream), written in Verus with
its behaviour stated as contracts and proved.

Layout:

- `src/text.rs` — Unicode white space and control characters, trimming,
  lexicographic order, decimal formatting.
- `src/project.rs` — project-name validation, the on-disk project library
  (paths, listing), per-project undo history.
- `src/jobs.rs` — the job registry, progress counting, numbered events, and
  the job board that ties them together.
- `src/events.rs` — SSE frame ids and `Last-Event-ID` parsing.
- `src/pages.rs` — page import checks, export selection, file naming and
  packaging.
- `src/media.rs` — image format detection, PNG encoding and thumbnails (`image`), and ZIP packaging (`zip`).
- `src/translation.rs` — what the translation stage sends and writes back.
- `src/api.rs` — API errors, message bodies, `/meta`.
- `src/config.rs` — sparse changes to the three configuration sections.
- `app/` — the server itself: routing, I/O, the scene and pipeline engine,
  serialisation.
- `tests/` — tests of the library on concrete values.
