# akgine

Building blocks of a small application framework, written in Verus.

`src/` is the verified library:

- `web/` — HTTP requests (`request`: target parsing, percent-decoding,
  query strings, integer query parameters), responses and error bodies
  (`response`, `json`), the `ApiError` type and the translation of database
  failures (`error`), and the router (`router`): routes tried in the order
  they were added, `:name` segments bound as path parameters, the first
  matching route's handler answering; what a handler may answer is stated
  through the closure's own `ensures`. `laws` holds properties stated over
  all inputs.
- `record/` — the rules of the `DbRecord` derive: column options
  (`attrs`), type mapping (`types`), and the schema of a record: table
  name, stored fields, indexes, and the first error found (`schema`), for
  the current derive and for the legacy one. `laws` holds their invariants.
- `gui/` — colour, direction, alignment and panel-position value types.
- `text` — byte-level helpers: splitting, searching, trimming, decimal
  parsing, UTF-8 decoding.

`app/` is ordinary Rust around it: the `tiny_http` server, JSON through
`serde`, the `eframe`/`egui` GUI layer (its float-valued types included),
and the token generation of the derives with `syn` and `quote`.

`tests/` runs the library on concrete inputs.
