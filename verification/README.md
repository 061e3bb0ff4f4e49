# op-batcher-collector

Collector for the `admin_getThrottleController` JSON-RPC method. A poll task asks the
endpoint once per UTC second and retains one entry per second; an HTTP server answers
what has been retained.

- `src/` is the library, verified with Verus: the history and its invariant
  (`model`), the tick of the poll task and what a reply means (`scraper`), the timeline
  without gaps (`timeline`), the HTTP API (`server`, `percent`), seconds and their keys
  (`clock`, `calendar`), the configuration (`config`), the command line (`startup`), and
  what these are stated on (`json`, `text`, `numeral`).
- `tests/` are the library's tests.
- `app/` is the program around the library: the tokio runtime, sockets, the HTTP client,
  the mutex and the environment.

The library calls `serde_json` and `time`, and takes the clock and the UTF-8 conversions
from `std`. Each call stands behind a function marked `#[verifier::external_body]` whose
contract says what is believed of it.

## Configuration

| Variable | Default | Description |
| --- | --- | --- |
| `BATCHER_RPC_URL` | `http://host.docker.internal:8548` | Plain HTTP JSON-RPC endpoint to poll. |
| `HISTORY_SIZE` | `5000` | Number of seconds to retain. |
| `COLLECTOR_LISTEN_HOST` | `0.0.0.0` | HTTP API listen host. |
| `COLLECTOR_LISTEN_PORT` | `28881` | HTTP API listen port. |
| `COLLECTOR_WEB_WORKERS` | `4` | Worker threads in the tokio runtime. |

Integer variables must be positive; anything else stops the program at startup with a
message that names the variable.

## HTTP API

| Endpoint | Description |
| --- | --- |
| `GET /`, `/health`, `/status` | Collector status and retained range. |
| `GET /latest` | Latest retained entry. |
| `GET /history` | Full retained history keyed by second. |
| `GET /history?second=2026-05-21T10:00:00Z` | Lookup of one retained second. |
| `GET /history/2026-05-21T10%3A00%3A00Z` | The same by path. |

A lookup takes an ISO datetime or an epoch second.
