# singularity_monitor

A Windows network-usage collector. The verified library (`src/`) holds its logic:

- `delta` — per-interface counter deltas with resets and an anomaly budget.
- `db` — the usage store in memory: settings, interfaces, apps, usage records, AFK
  windows, monthly caps and their alert events, with the queries (usage summary, app and
  interface breakdowns, AFK audit), cap alert evaluation, retention cleanup and the
  reliability counters. `db/laws.rs` and the `lemma_*` proof functions state what holds
  across calls.
- `runtime` — the answer to each request, the observed poll interval, cap validation.
- `ipc`, `poller`, `helper`, `config` — request framing, interface names and GUIDs, the
  usage helper's arguments and time arithmetic, the configuration values.

`app/` is the program around it: the SQLite file, the Windows APIs (interface table,
connection costs, idle clock, named pipe, service), JSON on the wire, logging, and the
`helper` and `perf-harness` entry points.
