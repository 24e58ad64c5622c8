# csv_import

Imports CSV files into Elasticsearch through its bulk API, with a small
desktop window for the settings, the file choice, progress and log.

- `src/` is the verified library (Verus): decimal formatting and parsing
  (`text`), settings and response shapes (`types`), index chunking and names
  (`chunk`), decoding, delimiter detection and CSV records (`csv_reader`,
  `json`), bulk request framing, response accounting and retries
  (`es_client`), the bookkeeping of an import run (`import`) and what the
  window shows (`status`).
- `app/` holds the program around it: the window, file reading, HTTP
  requests, the import thread and the serde shapes of the bulk API.
- `tests/` runs the library on concrete inputs.
