# cortex

The verified core of Cortex, a workflow orchestration platform: DAGs of
Python and TypeScript/JavaScript tasks, runs driven layer by layer, a warm
worker pool, an interval scheduler, NDJSON ingestion, SQL over datasets and
external engines, and an MCP tool surface for agents.

## Layout

- `src/` — the library, verified with Verus. Every decision the platform
  makes lives here with a contract:
  - `dag` — DAG validation and execution layers (with the layering laws);
  - `orchestrator` — parameter merging, the run driver (which layer runs
    next, what each task receives, when a run completes or fails), task
    retries and the bookkeeping of runs and task rows;
  - `exec`, `pool`, `isolation` — the worker protocol, the warm pool's
    rules, and how a worker is launched in each isolation mode;
  - `scheduler` — interval triggers;
  - `data`, `connectors` — datasets, ingestion counting and triggers, and
    how queries are framed for external engines;
  - `api`, `mcp` — request rules and reply shapes of the HTTP and MCP
    surfaces;
  - `model`, `event`, `json`, `text` — the domain model, live events, JSON
    documents and text helpers.
- `tests/` — tests of the library.
- `app/` — the server around the library: HTTP (axum), SQLite storage,
  worker processes, Polars, Postgres/ClickHouse clients, and the wire forms
  of the library's types.
