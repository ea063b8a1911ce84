# flowsurface-server

A trade data collector for crypto markets, with an embedded database and a REST API.

The decisions of the server are a Verus library. What the functions in `src/` return is
stated in contracts, which are proved; of a bare reading of the clock nothing is stated,
and what calls an outside crate or the operating system is taken on trust. Input and
output are in `app/`, which asks the library what to do and tells it how it went.

| Module | What it decides |
| --- | --- |
| `market`, `discovery` | venues, tickers, and which pairs are followed |
| `stream`, `ingestion` | how streams are subscribed and where events go |
| `storage`, `export` | queries, rows, batching of trades, chunks of an export |
| `cleanup` | retention, the size cap, and when a pass is due |
| `limiter`, `access` | token buckets, admission, tokens, who may call what |
| `api`, `health`, `diagnostics` | replies, health checks, what is reported |
| `logging`, `calendar` | rolling log files and their dates |
| `tls`, `config`, `startup` | certificates, settings, and the start of the server |
| `text`, `json`, `net`, `clock` | what the others are built on |

Properties that span several functions are public proof functions whose names begin with
`law_`. What rests on an outside crate is in functions marked `external_body`, each with a
comment that says what is taken on trust.

`tests/` runs the library on concrete values.
