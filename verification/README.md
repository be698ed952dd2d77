# telemetry_monitor

A terminal monitor for the telemetry of a Qdrant process, with its decisions verified in Verus.

- `src/json.rs`: JSON documents, and how a `serde_json::Value` is read into one.
- `src/telemetry.rs`: what a telemetry document says.
- `src/binary64.rs`, `src/addition.rs`: binary64 values held by their bit pattern, their order and
  their rounded sum.
- `src/series.rs`, `src/app.rs`, `src/save.rs`: bounded time series, the state of the monitor and
  what changes it.
- `src/screen.rs`, `src/charts.rs`: the status line, the keys, the colors, the lines and axes of
  the charts and the optimization bar.
- `src/options.rs`, `src/text.rs`: command line options, the address to poll, text helpers.
- `src/laws.rs`, `src/readings.rs`, `src/arrangement.rs`, `src/states.rs`: what holds of every
  document and of every state.
- `app/`: arguments, polling, files and rendering.
