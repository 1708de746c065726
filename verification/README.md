# api

Request rules of a project-management web API, written in Verus and
proved against their contracts: permission gates, body validation, query
sanitising, HTML and binary description cleaning, CSV export cells, the
service-dependency cycle check, the object-storage proxy target, and the
SQL text of the module list.

## Layout

- `src/ids.rs` — ids as 128-bit values read from text.
- `src/body.rs` — request-body fields as the checks read them, and the
  decimal text of integers.
- `src/text.rs` — characters, Unicode trimming, substring search and
  splitting, with their specifications and lemmas.
- `src/routes/` — one module per resource (`module`, `page`, `prefs`,
  `project`, `reactions`, `s3proxy`, `search`, `service`, `state`,
  `subscribe`, `themes`, `user`, `userprops`, `notification`, and the
  shared project gate in `issue_common`). Each public function states its
  result exactly over spec functions; the `law_*` proof functions state
  properties that span inputs or calls (allowlists always respected, the
  dependency graph kept acyclic, no script or style element left by the
  HTML cleaner, unread profile keys ignored, and so on).
- `tests/` — executable checks of the same functions on concrete values.
- `app/` — the edge: serde shapes, environment settings, JSON bodies and
  the floating-point orderings, all handing plain values to the library.

## Trusted items

Six wrappers are believed rather than proved: `str::to_lowercase`,
`str::to_uppercase`, the standard base64 decoder, `Uuid::parse_str` and
chrono's `%Y-%m-%d` date parse, each named by an uninterpreted spec
function, and collecting characters into a `String`.
