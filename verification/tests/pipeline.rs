use ebishrimp::pipeline::{
    batch_step, compare_sensor_keys, insert_order, mqtt_step, retry_step, BatchAction, BatchEvent, Buffers, KeyOrder,
    MqttAction, MqttEvent, RetryStep, SensorKey, INITIAL_BACKOFF_SECS, INSERT_RETRIES,
};
use ebishrimp::util::Timestamp;

#[test]
fn batch_flushes_at_row_limit_or_tick() {
    assert_eq!(batch_step(BatchEvent::Received { sensor_rows: 4999 }, 5000), BatchAction::Wait);
    assert_eq!(batch_step(BatchEvent::Received { sensor_rows: 5000 }, 5000), BatchAction::Flush { reset_timer: true });
    assert_eq!(batch_step(BatchEvent::Tick { buffers_empty: true }, 5000), BatchAction::Wait);
    assert_eq!(batch_step(BatchEvent::Tick { buffers_empty: false }, 5000), BatchAction::Flush { reset_timer: false });
    assert_eq!(batch_step(BatchEvent::Closed, 5000), BatchAction::FlushAndStop);
}

#[test]
fn retries_back_off_then_drop() {
    assert_eq!(retry_step(1, true), RetryStep::Inserted);
    assert_eq!(retry_step(1, false), RetryStep::SleepThenRetry { secs: 1, next_attempt: 2 });
    assert_eq!(retry_step(2, false), RetryStep::SleepThenRetry { secs: 2, next_attempt: 3 });
    assert_eq!(retry_step(3, false), RetryStep::SleepThenDrop { secs: 4 });
}

#[test]
fn mqtt_backoff_doubles_to_a_minute_and_resets() {
    let mut b = INITIAL_BACKOFF_SECS;
    let mut sleeps = Vec::new();
    for _ in 0..8 {
        let (next, action) = mqtt_step(b, MqttEvent::Error);
        match action {
            MqttAction::SleepSecs(s) => sleeps.push(s),
            _ => panic!("expected sleep"),
        }
        b = next;
    }
    assert_eq!(sleeps, vec![1, 2, 4, 8, 16, 32, 60, 60]);
    assert_eq!(mqtt_step(b, MqttEvent::ConnAck), (1, MqttAction::Subscribe));
    assert_eq!(mqtt_step(7, MqttEvent::Publish), (7, MqttAction::HandlePublish));
    assert_eq!(mqtt_step(7, MqttEvent::Other), (7, MqttAction::Ignore));
}

#[test]
fn sensor_rows_order_by_metric_device_time() {
    let t0 = Timestamp::from_unix_secs(100);
    let t1 = Timestamp { unix_secs: 100, nanos: 1 };
    assert_eq!(compare_sensor_keys("co2", "b", t0, "temp", "a", t0), KeyOrder::Less);
    assert_eq!(compare_sensor_keys("co2", "b", t0, "co2", "a", t1), KeyOrder::Greater);
    assert_eq!(compare_sensor_keys("co2", "a", t1, "co2", "a", t0), KeyOrder::Greater);
    assert_eq!(compare_sensor_keys("co2", "a", t0, "co2", "a", t0), KeyOrder::Equal);
    assert_eq!(compare_sensor_keys("co", "a", t1, "co2", "a", t0), KeyOrder::Less);
    assert_eq!(compare_sensor_keys("é", "a", t0, "z", "a", t0), KeyOrder::Greater);
}

#[test]
fn sensor_order_matches_tuple_order() {
    let keys = [("co2", "a"), ("co2", "b"), ("hum", "a"), ("Z", "a"), ("", ""), ("ü", "x")];
    for (ma, da) in keys {
        for (mb, db) in keys {
            for (sa, sb) in [(1i64, 2i64), (2, 1), (5, 5)] {
                let ours = compare_sensor_keys(ma, da, Timestamp::from_unix_secs(sa), mb, db, Timestamp::from_unix_secs(sb));
                let theirs = (ma, da, sa).cmp(&(mb, db, sb));
                let expected = match theirs {
                    std::cmp::Ordering::Less => KeyOrder::Less,
                    std::cmp::Ordering::Equal => KeyOrder::Equal,
                    std::cmp::Ordering::Greater => KeyOrder::Greater,
                };
                assert_eq!(ours, expected);
            }
        }
    }
}

/// Runs the retry decisions for a batch whose first `failures` inserts fail;
/// gives the sleeps, the insert errors and whether the rows went in.
fn run_retries(failures: u32) -> (Vec<u64>, u32, bool) {
    let mut attempt = 1;
    let mut sleeps = Vec::new();
    let mut errors = 0;
    loop {
        let ok = attempt > failures;
        if !ok {
            errors += 1;
        }
        match retry_step(attempt, ok) {
            RetryStep::Inserted => return (sleeps, errors, true),
            RetryStep::SleepThenRetry { secs, next_attempt } => {
                sleeps.push(secs);
                attempt = next_attempt;
            }
            RetryStep::SleepThenDrop { secs } => {
                sleeps.push(secs);
                return (sleeps, errors, false);
            }
        }
    }
}

#[test]
fn retry_runs_count_errors_and_outcome() {
    assert_eq!(run_retries(0), (vec![], 0, true));
    assert_eq!(run_retries(1), (vec![1], 1, true));
    assert_eq!(run_retries(2), (vec![1, 2], 2, true));
    assert_eq!(run_retries(3), (vec![1, 2, 4], 3, false));
    assert_eq!(run_retries(10), (vec![1, 2, 4], INSERT_RETRIES, false));
}

#[test]
fn reconnect_pause_restarts_after_connack() {
    let events = [
        MqttEvent::Error,
        MqttEvent::Other,
        MqttEvent::Error,
        MqttEvent::Publish,
        MqttEvent::Error,
        MqttEvent::ConnAck,
        MqttEvent::Error,
        MqttEvent::Error,
    ];
    let mut b = INITIAL_BACKOFF_SECS;
    let mut actions = Vec::new();
    for e in events {
        let (next, action) = mqtt_step(b, e);
        actions.push(action);
        b = next;
    }
    assert_eq!(
        actions,
        vec![
            MqttAction::SleepSecs(1),
            MqttAction::Ignore,
            MqttAction::SleepSecs(2),
            MqttAction::HandlePublish,
            MqttAction::SleepSecs(4),
            MqttAction::Subscribe,
            MqttAction::SleepSecs(1),
            MqttAction::SleepSecs(2),
        ]
    );
    assert_eq!(b, 4);
}

#[test]
fn buffers_keep_every_row_once_in_order() {
    let mut buf: Buffers<u32, char, bool> = Buffers::new();
    assert!(buf.is_empty());
    buf.add_sensor(vec![1, 2]);
    buf.add_as7341('a');
    buf.add_sensor(vec![3]);
    buf.add_status(true);
    assert_eq!(buf.sensor_len(), 3);
    assert!(!buf.is_empty());
    let (s, a, t) = buf.take_all();
    assert_eq!((s, a, t), (vec![1, 2, 3], vec!['a'], vec![true]));
    assert!(buf.is_empty());
    assert_eq!(buf.sensor_len(), 0);
    buf.add_status(false);
    assert!(!buf.is_empty());
    assert_eq!(buf.take_all(), (vec![], vec![], vec![false]));
}

fn key(metric: &str, device: &str, secs: i64) -> SensorKey {
    SensorKey { metric: metric.to_string(), device_id: device.to_string(), ts: Timestamp::from_unix_secs(secs) }
}

#[test]
fn insert_order_sorts_stably_by_metric_device_time() {
    let keys = vec![
        key("temp", "b", 5),
        key("co2", "b", 7),
        key("temp", "a", 9),
        key("co2", "b", 3),
        key("temp", "b", 5),
        key("co2", "a", 8),
    ];
    assert_eq!(insert_order(&keys), vec![5, 3, 1, 2, 0, 4]);
    assert_eq!(insert_order(&Vec::new()), Vec::<usize>::new());
    let same = vec![key("x", "y", 1), key("x", "y", 1), key("x", "y", 1)];
    assert_eq!(insert_order(&same), vec![0, 1, 2]);
}
