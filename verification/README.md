# system_estv

A lightweight self-hosted monitoring dashboard for a VPS: a background task
samples CPU, memory, swap, disk, network, process and temperature readings every
two seconds, keeps a rolling history of the last 60 samples, and serves them as
JSON, together with a Prometheus text exposition.

## Layout

- `src/` — the verified library (Verus):
  - `history.rs` — the bounded rolling history and its column view;
  - `processes.rs` — ranking of the busiest processes;
  - `sensors.rs` — the choice of the CPU temperature sensor;
  - `disk.rs` — space on the root file system;
  - `network.rs` — byte counters summed over interfaces and the traffic between samples;
  - `collector.rs` — the decisions of one collection cycle;
  - `decimal.rs`, `prometheus.rs` — the Prometheus text exposition.
- `app/` — the program: reading the system with `sysinfo`, the tokio loop, the
  axum routes, the floating-point rates and percentages, and the JSON shapes.
- `tests/` — tests of the library.

Floating-point readings enter the library only as their IEEE-754 bit patterns,
which it stores and transposes but never computes with.
