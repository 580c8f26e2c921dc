use ebishrimp::metrics::{render, render_snapshot, Metrics, MetricsSnapshot};
use std::sync::atomic::Ordering;

#[test]
fn renders_every_counter_in_prometheus_text() {
    let s = MetricsSnapshot {
        messages_received: 10,
        rows_inserted: 20,
        batch_flushes: 3,
        parse_errors: 0,
        insert_errors: 1,
        rows_dropped: 0,
        mqtt_reconnects: 2,
    };
    let text = render_snapshot(&s);
    assert!(text.starts_with(
        "# HELP ingester_messages_received_total MQTT messages received\n\
         # TYPE ingester_messages_received_total counter\n\
         ingester_messages_received_total 10\n"
    ));
    assert!(text.contains("ingester_rows_inserted_total 20\n"));
    assert!(text.contains("# HELP ingester_rows_dropped_total Rows dropped after retry exhaustion\n"));
    assert!(text.ends_with("ingester_mqtt_reconnects_total 2\n"));
    assert_eq!(text.lines().count(), 21);
}

#[test]
fn render_reads_the_atomics() {
    let m = Metrics::default();
    m.rows_inserted.fetch_add(12345, Ordering::Relaxed);
    m.parse_errors.fetch_add(u64::MAX, Ordering::Relaxed);
    let text = render(&m);
    assert!(text.contains("ingester_rows_inserted_total 12345\n"));
    assert!(text.contains("ingester_parse_errors_total 18446744073709551615\n"));
    assert!(text.contains("ingester_batch_flushes_total 0\n"));
}
