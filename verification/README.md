# fly_common

Building blocks for small Axum + SQLite web applications on Fly.io, with the
decision-making parts verified by Verus.

## Layout

- `src/` — the verified library. Each public function states what it returns in
  its `ensures`, over spec functions of its module; `law_*` proof functions state
  properties that span calls.
  - `auth` — sanitized anonymous device tokens and where a request carries one.
  - `security` — SSRF checks: restricted IPv4/IPv6 blocks, reserved host names, and
    the whole check of a URL up to name resolution (normalization, parsing, scheme,
    host, IP literals), of redirects, and of the resolved addresses.
  - `qr` — standard QR code (byte mode, error-correction level L, versions 1 to 8,
    mask pattern 0) rendered as SVG and as a `data:` URL.
  - `rate_limit` — per-client token buckets with a penalty box, and the client
    address a request is counted under.
  - `telemetry` — W3C `traceparent` parsing and formatting.
  - `metrics` — request counters and their Prometheus text.
  - `scraper` — OpenGraph / Twitter Card metadata of an HTML page.
  - `server` — the listening port and the `fly-replay` decision.
  - `pubsub` — named rooms of broadcast channels.
  - `io`, `models`, `sync`, `db` — batching, JSON payload types, share tokens,
    SQLite production settings.
  - `text`, `clock`, `keyed` — character, time and keyed-store helpers.
- `app/` — the Axum extractors and middleware, the server builder, SQLite and
  HTTP access, and serde copies of the payload types. It calls the library for
  every decision.
- `tests/` — tests of the library on concrete values.
