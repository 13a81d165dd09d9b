# klaro

Detection and scrubbing of personally identifiable information (PII) in CSV,
Excel, text and JSON files, with its behaviour stated in Verus contracts and
proved.

## Layout

- `src/` — the verified library.
  - `pii` — PII types, matches, stable sorting by start and overlap removal.
  - `validate` — the Luhn check for card numbers and the SSN rules.
  - `detect` — expression-based detection (the `regex` crate behind one
    trusted wrapper).
  - `ner`, `cache`, `detector` — grouping of the named-entity model's token
    labels, the per-text answer cache, and detection that merges expression
    and model matches.
  - `scrub` — the Mask, Remove, Hash and Fake methods and splicing of
    replacements into text.
  - `files`, `rows` — parsing of CSV and text, tables from XLSX and XLS
    workbooks (read by the program and handed in), file names and
    extensions of paths; joined rows and the byte range of each cell.
  - `stats`, `processing`, `streaming` — scrubbing of whole tables and texts,
    and of batches of rows and lines for large files, with their statistics.
  - `license` — the Lite and Pro tiers and their limits.
  - `commands` — request handling: PII type names, output names, previews,
    base64, and the information the user interface shows.
- `tests/` — tests of the library on concrete values.
- `app/` — a command-line program around the library: file and model I/O,
  reading of XLSX and XLS workbooks with calamine, the DistilBERT model run with candle, the loops over large files,
  progress reporting and JSON output.
