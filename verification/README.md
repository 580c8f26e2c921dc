# ebishrimp

Verified core of an indoor-sensing platform: a mock sensor fleet publishes
readings over MQTT, an ingester routes them into ClickHouse in batches, and
a server-rendered dashboard charts them.

- `src/` — the library, verified with Verus: MQTT topic and payload routing
  (`ingest`), batching / insert-retry / reconnect policy and insert order
  (`pipeline`), the Prometheus exposition (`metrics`), configuration
  (`config`), chart ranges and their SQL (`range`), row grouping (`series`),
  the chart plan and script escaping (`chart`), the dashboard's request
  decisions (`web`) and formatting (`util`, `text`).
- `app/` — the three services around it (`ebishrimp dashboard`,
  `ebishrimp ingester`, `ebishrimp mock-publisher`): MQTT, ClickHouse, HTTP,
  JSON decoding and everything that handles floating-point values.
- `tests/` — tests of the library.

The dashboard reads `style.css`, `echarts.min.js` and `htmx.min.js` from
`STATIC_DIR` (default `static`) at startup.
