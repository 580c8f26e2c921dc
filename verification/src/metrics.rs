//! The ingester's counters and their Prometheus text exposition.

use vstd::prelude::*;
use std::sync::atomic::AtomicU64;
use crate::text::{decimal, push_decimal, push_str};
use crate::range::occurs_at;

verus! {

/// Counters shared by the MQTT loop, the batcher and the exporter.
#[derive(Default)]
pub struct Metrics {
    pub messages_received: AtomicU64,
    pub rows_inserted: AtomicU64,
    pub batch_flushes: AtomicU64,
    pub parse_errors: AtomicU64,
    pub insert_errors: AtomicU64,
    pub rows_dropped: AtomicU64,
    pub mqtt_reconnects: AtomicU64,
}

/// The counter values read at one moment.
#[derive(Debug, Clone, Copy, PartialEq, Eq, Structural)]
pub struct MetricsSnapshot {
    pub messages_received: u64,
    pub rows_inserted: u64,
    pub batch_flushes: u64,
    pub parse_errors: u64,
    pub insert_errors: u64,
    pub rows_dropped: u64,
    pub mqtt_reconnects: u64,
}

/// One counter in the Prometheus text format: its `# HELP` line, its
/// `# TYPE ... counter` line and its sample.
pub open spec fn counter_text(name: Seq<char>, help: Seq<char>, value: u64) -> Seq<char> {
    "# HELP "@ + name + " "@ + help + "\n# TYPE "@ + name + " counter\n"@ + name + " "@ + decimal(
        value as nat,
    ) + "\n"@
}

/// The whole exposition: every counter, in a fixed order.
pub open spec fn metrics_text(s: MetricsSnapshot) -> Seq<char> {
    counter_text("ingester_messages_received_total"@, "MQTT messages received"@, s.messages_received)
        + counter_text("ingester_rows_inserted_total"@, "Rows inserted into ClickHouse"@, s.rows_inserted)
        + counter_text("ingester_batch_flushes_total"@, "Batch flushes"@, s.batch_flushes)
        + counter_text("ingester_parse_errors_total"@, "Messages skipped due to parse errors"@, s.parse_errors)
        + counter_text("ingester_insert_errors_total"@, "Failed insert attempts"@, s.insert_errors)
        + counter_text("ingester_rows_dropped_total"@, "Rows dropped after retry exhaustion"@, s.rows_dropped)
        + counter_text("ingester_mqtt_reconnects_total"@, "MQTT reconnect events"@, s.mqtt_reconnects)
}

fn push_counter(out: &mut String, name: &str, help: &str, value: u64)
    ensures
        final(out)@ == old(out)@ + counter_text(name@, help@, value),
{
    push_str(out, "# HELP ");
    push_str(out, name);
    push_str(out, " ");
    push_str(out, help);
    push_str(out, "\n# TYPE ");
    push_str(out, name);
    push_str(out, " counter\n");
    push_str(out, name);
    push_str(out, " ");
    push_decimal(out, value as u128);
    push_str(out, "\n");
    assert(final(out)@ =~= old(out)@ + counter_text(name@, help@, value));
}

/// Renders counter values in the Prometheus text format.
pub fn render_snapshot(s: &MetricsSnapshot) -> (r: String)
    ensures
        r@ == metrics_text(*s),
{
    let mut out = String::new();
    push_counter(&mut out, "ingester_messages_received_total", "MQTT messages received", s.messages_received);
    push_counter(&mut out, "ingester_rows_inserted_total", "Rows inserted into ClickHouse", s.rows_inserted);
    push_counter(&mut out, "ingester_batch_flushes_total", "Batch flushes", s.batch_flushes);
    push_counter(&mut out, "ingester_parse_errors_total", "Messages skipped due to parse errors", s.parse_errors);
    push_counter(&mut out, "ingester_insert_errors_total", "Failed insert attempts", s.insert_errors);
    push_counter(&mut out, "ingester_rows_dropped_total", "Rows dropped after retry exhaustion", s.rows_dropped);
    push_counter(&mut out, "ingester_mqtt_reconnects_total", "MQTT reconnect events", s.mqtt_reconnects);
    assert(out@ =~= metrics_text(*s));
    out
}

impl Metrics {
    /// Reads every counter (relaxed loads; other tasks may be counting
    /// meanwhile, so nothing is known of the values).
    pub fn snapshot(&self) -> (r: MetricsSnapshot) {
        MetricsSnapshot {
            messages_received: self.messages_received.load(std::sync::atomic::Ordering::Relaxed),
            rows_inserted: self.rows_inserted.load(std::sync::atomic::Ordering::Relaxed),
            batch_flushes: self.batch_flushes.load(std::sync::atomic::Ordering::Relaxed),
            parse_errors: self.parse_errors.load(std::sync::atomic::Ordering::Relaxed),
            insert_errors: self.insert_errors.load(std::sync::atomic::Ordering::Relaxed),
            rows_dropped: self.rows_dropped.load(std::sync::atomic::Ordering::Relaxed),
            mqtt_reconnects: self.mqtt_reconnects.load(std::sync::atomic::Ordering::Relaxed),
        }
    }
}

/// The `/metrics` response body: the exposition of the counters as read
/// at one moment.
pub fn render(m: &Metrics) -> (r: String)
    ensures
        exists|s: MetricsSnapshot| r@ == metrics_text(s),
{
    let s = m.snapshot();
    render_snapshot(&s)
}

/// The sample line of a counter, `<name> <value>`.
pub open spec fn sample_line(name: Seq<char>, value: u64) -> Seq<char> {
    name + " "@ + decimal(value as nat) + "\n"@
}

proof fn lemma_sample_in_counter(name: Seq<char>, help: Seq<char>, value: u64)
    ensures
        occurs_at(
            counter_text(name, help, value),
            sample_line(name, value),
            counter_text(name, help, value).len() - sample_line(name, value).len(),
        ),
{
    let pre = "# HELP "@ + name + " "@ + help + "\n# TYPE "@ + name + " counter\n"@;
    let c = counter_text(name, help, value);
    assert(c =~= pre + sample_line(name, value));
    assert(c.subrange(pre.len() as int, c.len() as int) =~= sample_line(name, value));
}

proof fn lemma_occurs_between(a: Seq<char>, b: Seq<char>, c: Seq<char>, sub: Seq<char>, k: int)
    requires
        occurs_at(b, sub, k),
    ensures
        occurs_at(a + b + c, sub, a.len() + k),
{
    assert((a + b + c).subrange(a.len() + k, a.len() + k + sub.len()) =~= b.subrange(k, k + sub.len()));
}

/// Each counter's sample line carries that counter's own value: the
/// exposition holds `<name> <value>` for every counter, with the value read
/// from the field of the same name.
pub proof fn lemma_samples_carry_own_counters(s: MetricsSnapshot)
    ensures
        exists|k: int| occurs_at(metrics_text(s), sample_line("ingester_messages_received_total"@, s.messages_received), k),
        exists|k: int| occurs_at(metrics_text(s), sample_line("ingester_rows_inserted_total"@, s.rows_inserted), k),
        exists|k: int| occurs_at(metrics_text(s), sample_line("ingester_batch_flushes_total"@, s.batch_flushes), k),
        exists|k: int| occurs_at(metrics_text(s), sample_line("ingester_parse_errors_total"@, s.parse_errors), k),
        exists|k: int| occurs_at(metrics_text(s), sample_line("ingester_insert_errors_total"@, s.insert_errors), k),
        exists|k: int| occurs_at(metrics_text(s), sample_line("ingester_rows_dropped_total"@, s.rows_dropped), k),
        exists|k: int| occurs_at(metrics_text(s), sample_line("ingester_mqtt_reconnects_total"@, s.mqtt_reconnects), k),
{
    let c = seq![
        counter_text("ingester_messages_received_total"@, "MQTT messages received"@, s.messages_received),
        counter_text("ingester_rows_inserted_total"@, "Rows inserted into ClickHouse"@, s.rows_inserted),
        counter_text("ingester_batch_flushes_total"@, "Batch flushes"@, s.batch_flushes),
        counter_text("ingester_parse_errors_total"@, "Messages skipped due to parse errors"@, s.parse_errors),
        counter_text("ingester_insert_errors_total"@, "Failed insert attempts"@, s.insert_errors),
        counter_text("ingester_rows_dropped_total"@, "Rows dropped after retry exhaustion"@, s.rows_dropped),
        counter_text("ingester_mqtt_reconnects_total"@, "MQTT reconnect events"@, s.mqtt_reconnects),
    ];
    let t = metrics_text(s);
    lemma_sample_in_counter("ingester_messages_received_total"@, "MQTT messages received"@, s.messages_received);
    lemma_sample_in_counter("ingester_rows_inserted_total"@, "Rows inserted into ClickHouse"@, s.rows_inserted);
    lemma_sample_in_counter("ingester_batch_flushes_total"@, "Batch flushes"@, s.batch_flushes);
    lemma_sample_in_counter("ingester_parse_errors_total"@, "Messages skipped due to parse errors"@, s.parse_errors);
    lemma_sample_in_counter("ingester_insert_errors_total"@, "Failed insert attempts"@, s.insert_errors);
    lemma_sample_in_counter("ingester_rows_dropped_total"@, "Rows dropped after retry exhaustion"@, s.rows_dropped);
    lemma_sample_in_counter("ingester_mqtt_reconnects_total"@, "MQTT reconnect events"@, s.mqtt_reconnects);
    assert(t =~= Seq::<char>::empty() + c[0] + (c[1] + c[2] + c[3] + c[4] + c[5] + c[6]));
    assert(t =~= c[0] + c[1] + (c[2] + c[3] + c[4] + c[5] + c[6]));
    assert(t =~= (c[0] + c[1]) + c[2] + (c[3] + c[4] + c[5] + c[6]));
    assert(t =~= (c[0] + c[1] + c[2]) + c[3] + (c[4] + c[5] + c[6]));
    assert(t =~= (c[0] + c[1] + c[2] + c[3]) + c[4] + (c[5] + c[6]));
    assert(t =~= (c[0] + c[1] + c[2] + c[3] + c[4]) + c[5] + c[6]);
    assert(t =~= (c[0] + c[1] + c[2] + c[3] + c[4] + c[5]) + c[6] + Seq::<char>::empty());
    lemma_occurs_between(Seq::<char>::empty(), c[0], c[1] + c[2] + c[3] + c[4] + c[5] + c[6], sample_line("ingester_messages_received_total"@, s.messages_received), c[0].len() - sample_line("ingester_messages_received_total"@, s.messages_received).len());
    lemma_occurs_between(c[0], c[1], c[2] + c[3] + c[4] + c[5] + c[6], sample_line("ingester_rows_inserted_total"@, s.rows_inserted), c[1].len() - sample_line("ingester_rows_inserted_total"@, s.rows_inserted).len());
    lemma_occurs_between(c[0] + c[1], c[2], c[3] + c[4] + c[5] + c[6], sample_line("ingester_batch_flushes_total"@, s.batch_flushes), c[2].len() - sample_line("ingester_batch_flushes_total"@, s.batch_flushes).len());
    lemma_occurs_between(c[0] + c[1] + c[2], c[3], c[4] + c[5] + c[6], sample_line("ingester_parse_errors_total"@, s.parse_errors), c[3].len() - sample_line("ingester_parse_errors_total"@, s.parse_errors).len());
    lemma_occurs_between(c[0] + c[1] + c[2] + c[3], c[4], c[5] + c[6], sample_line("ingester_insert_errors_total"@, s.insert_errors), c[4].len() - sample_line("ingester_insert_errors_total"@, s.insert_errors).len());
    lemma_occurs_between(c[0] + c[1] + c[2] + c[3] + c[4], c[5], c[6], sample_line("ingester_rows_dropped_total"@, s.rows_dropped), c[5].len() - sample_line("ingester_rows_dropped_total"@, s.rows_dropped).len());
    lemma_occurs_between(c[0] + c[1] + c[2] + c[3] + c[4] + c[5], c[6], Seq::<char>::empty(), sample_line("ingester_mqtt_reconnects_total"@, s.mqtt_reconnects), c[6].len() - sample_line("ingester_mqtt_reconnects_total"@, s.mqtt_reconnects).len());
}

} // verus!
