use ebishrimp::ingest::{
    data_topic, parse_topic, route_message, status_topic, IngestError, JsonScalar, PayloadError, PayloadField, Route,
};

fn field(key: &str, value: JsonScalar) -> PayloadField {
    PayloadField { key: key.to_string(), value }
}

fn num(n: i64) -> JsonScalar {
    JsonScalar::Number { whole: n }
}

#[test]
fn routes_plain_metrics_to_sensor_rows() {
    // {"temperature": 25.3, "humidity": 48.2, "co2": 640}
    let payload = Ok(vec![field("temperature", num(25)), field("humidity", num(48)), field("co2", num(640))]);
    let routed = route_message("sensors/living/env-1", &payload).unwrap();
    assert_eq!(routed.room, "living");
    assert_eq!(routed.device_id, "env-1");
    match routed.route {
        Route::Sensor { metric_fields } => {
            assert_eq!(metric_fields.len(), 3);
            assert_eq!(metric_fields, vec![0, 1, 2]);
        }
        _ => panic!("expected Sensor"),
    }
}

#[test]
fn routes_status_topic() {
    let payload = Ok(vec![field("rssi", num(-61)), field("uptime_s", num(86400)), field("online", num(1))]);
    let routed = route_message("sensors/living/env-1/status", &payload).unwrap();
    match routed.route {
        Route::Status(r) => {
            assert_eq!(r.rssi, -61);
            assert_eq!(r.uptime_s, 86400);
            assert!(r.online);
        }
        _ => panic!("expected Status"),
    }
}

#[test]
fn last_will_offline() {
    let payload = Ok(vec![field("online", num(0))]);
    match route_message("sensors/living/env-1/status", &payload).unwrap().route {
        Route::Status(r) => assert!(!r.online),
        _ => panic!("expected Status"),
    }
}

#[test]
fn routes_as7341_payload() {
    let keys = [
        ("gain", 8), ("atime", 29), ("astep", 599), ("f1_415", 1023), ("f2_445", 980), ("f3_480", 1100),
        ("f4_515", 1500), ("f5_555", 1800), ("f6_590", 1600), ("f7_630", 1400), ("f8_680", 1200),
        ("clear", 4000), ("nir", 800),
    ];
    let payload = Ok(keys.iter().map(|(k, v)| field(k, num(*v))).collect());
    match route_message("sensors/living/as7341-1", &payload).unwrap().route {
        Route::As7341(r) => {
            assert_eq!(r.gain, 8);
            assert_eq!(r.f1_415, 1023);
            assert_eq!(r.nir, 800);
            assert_eq!(r.astep, 599);
        }
        _ => panic!("expected As7341"),
    }
}

#[test]
fn bools_become_01_and_strings_skipped() {
    // {"door_open": true, "note": "hello", "temp": 20}
    let payload = Ok(vec![
        field("door_open", JsonScalar::Bool(true)),
        field("note", JsonScalar::Other),
        field("temp", num(20)),
    ]);
    match route_message("sensors/living/env-1", &payload).unwrap().route {
        Route::Sensor { metric_fields } => assert_eq!(metric_fields, vec![0, 2]),
        _ => panic!("expected Sensor"),
    }
}

#[test]
fn rejects_garbage() {
    let not_json: Result<Vec<PayloadField>, PayloadError> = Err(PayloadError::InvalidJson);
    assert_eq!(route_message("sensors/living/env-1", &not_json).unwrap_err(), IngestError::InvalidJson);
    assert_eq!(route_message("other/topic", &Ok(Vec::new())).unwrap_err(), IngestError::UnrecognizedTopic);
    let only_strings = Ok(vec![field("a", JsonScalar::Other)]);
    assert_eq!(route_message("sensors/living/env-1", &only_strings).unwrap_err(), IngestError::NoNumericMetrics);
    let array: Result<Vec<PayloadField>, PayloadError> = Err(PayloadError::NotAnObject);
    assert_eq!(route_message("sensors/living/env-1", &array).unwrap_err(), IngestError::NotAnObject);
}

#[test]
fn status_fields_are_clamped_and_truncated() {
    let payload = Ok(vec![
        field("rssi", num(70_000)),
        field("uptime_s", num(-5)),
        field("online", JsonScalar::Bool(true)),
    ]);
    match route_message("sensors/r/d/status", &payload).unwrap().route {
        Route::Status(r) => {
            assert_eq!(r.rssi, 70_000_i64 as i16);
            assert_eq!(r.uptime_s, 0);
            assert!(r.online);
        }
        _ => panic!("expected Status"),
    }
    match route_message("sensors/r/d/status", &Ok(Vec::new())).unwrap().route {
        Route::Status(r) => {
            assert_eq!(r.rssi, 0);
            assert_eq!(r.uptime_s, 0);
            assert!(!r.online);
        }
        _ => panic!("expected Status"),
    }
}

#[test]
fn as7341_channels_are_clamped() {
    let payload = Ok(vec![
        field("f1_415", JsonScalar::Other),
        field("gain", num(300)),
        field("nir", num(-3)),
        field("clear", num(1 << 40)),
    ]);
    match route_message("sensors/r/spec", &payload).unwrap().route {
        Route::As7341(r) => {
            assert_eq!(r.gain, 255);
            assert_eq!(r.nir, 0);
            assert_eq!(r.clear, u16::MAX);
            assert_eq!(r.f1_415, 0);
        }
        _ => panic!("expected As7341"),
    }
}

#[test]
fn topic_shapes() {
    assert!(parse_topic("sensors/a/b/c").is_none());
    assert!(parse_topic("sensors/a").is_none());
    assert!(parse_topic("sensors/a/b/status/x").is_none());
    assert!(parse_topic("Sensors/a/b").is_none());
    let t = parse_topic("sensors//").unwrap();
    assert_eq!((t.room.as_str(), t.device_id.as_str(), t.is_status), ("", "", false));
}

#[test]
fn publisher_topics_route_back() {
    let data = data_topic("kitchen", "env-kitchen-1");
    assert_eq!(data, "sensors/kitchen/env-kitchen-1");
    let t = parse_topic(&data).unwrap();
    assert_eq!((t.room.as_str(), t.device_id.as_str(), t.is_status), ("kitchen", "env-kitchen-1", false));
    let status = status_topic("kitchen", "env-kitchen-1");
    assert_eq!(status, "sensors/kitchen/env-kitchen-1/status");
    let t = parse_topic(&status).unwrap();
    assert_eq!((t.room.as_str(), t.device_id.as_str(), t.is_status), ("kitchen", "env-kitchen-1", true));
}

#[test]
fn data_topic_routes_exactly_when_a_value_is_a_number_or_bool() {
    let other = || field("note", JsonScalar::Other);
    let none: Result<Vec<PayloadField>, PayloadError> = Ok(vec![other(), other()]);
    assert_eq!(route_message("sensors/r/d", &none).err(), Some(IngestError::NoNumericMetrics));
    let with_bool = Ok(vec![other(), field("door", JsonScalar::Bool(true)), other()]);
    match route_message("sensors/r/d", &with_bool).unwrap().route {
        Route::Sensor { metric_fields } => assert_eq!(metric_fields, vec![1]),
        _ => panic!("expected Sensor"),
    }
    let empty: Result<Vec<PayloadField>, PayloadError> = Ok(vec![]);
    assert_eq!(route_message("sensors/r/d", &empty).err(), Some(IngestError::NoNumericMetrics));
    assert!(matches!(route_message("sensors/r/d/status", &empty).unwrap().route, Route::Status(_)));
}
