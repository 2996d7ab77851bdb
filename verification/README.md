# Mintaka

Static and live process triage for malware analysis: live processes are
scored for risk, laid out as a parent/child tree, checked against VirusTotal
and shown in a terminal dashboard, as printed listings, JSON or CSV.

## Layout

- `src/` — the verified library (Verus). Every function carries a contract.
  - `risk.rs` — the risk score of a live process, its level and indicators.
  - `tree.rs` — the parent/child layout of the process list.
  - `ranking.rs` — stable ordering by risk score.
  - `live.rs` — decisions of the live scan: filters, module records, socket
    records, signature verdicts, file hashes, caches.
  - `virustotal.rs` — the VirusTotal cache, reply handling, rate limiting and
    the per-process figures.
  - `tui.rs` — the dashboard's state and what each key does.
  - `dashboard.rs` — the text of the dashboard's cells, titles and module tree.
  - `report.rs` — CSV rows and fields and the labels of the printed reports.
  - `cli.rs` — run modes, output formats and the directory scan's rules.
  - `cache.rs`, `text.rs`, `types.rs` — a text-keyed map, string helpers and
    the shared records.
- `app/` — the program around the library: argument parsing, process and
  socket enumeration, file and network I/O, terminal drawing.
- `tests/` — tests of the library.

Static analysis of PE/ELF files (the engine that fills an `AnalysisReport`) is
a separate component that is not part of this tree; the program reports such
files as not analysable.
