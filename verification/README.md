# EasyShare

A single-executable LAN chat and file-sharing server, with its logic
verified in Verus.

- `src/` — the verified library:
  - `text` — whitespace, trimming, prefixes, decimal/hex digits, string building;
  - `identity` — mDNS PTR and NetBIOS node-status query packets, decoding of
    their answers (DNS messages through `dns_parser`), clean-up of resolved names,
    display names, settings;
  - `avatar` — FNV-1a identity hash, hue, letter, SVG, file name and URL;
  - `models` — messages and what clients receive;
  - `db` — row reading, pagination of newest-first query results, recall rules;
  - `i18n` — string tables and `Accept-Language` ranges;
  - `state` — the resolved-name cache and the client view of a message;
  - `handlers` — page sizes, accepted posts, upload limits and naming (ids from
    `uuid`), replies, index page rendering.
- `app/` — the server program: sockets, SQLite, files, HTTP (axum), SSE,
  logging, and the q-value comparison of language detection (floating point).
- `tests/` — tests of the library.
