use ebishrimp::config::{parse_unsigned, Config, ConfigError, IngesterConfig};

#[test]
fn defaults_when_unset() {
    let config = Config::from_lookup(|_| None);
    assert_eq!(
        config,
        Config {
            clickhouse_url: "http://localhost:8123".to_string(),
            clickhouse_user: "dashboard".to_string(),
            clickhouse_password: String::new(),
            clickhouse_database: "default".to_string(),
            listen_addr: "0.0.0.0:8080".to_string(),
        }
    );
}

#[test]
fn env_overrides_defaults() {
    let config = Config::from_lookup(|key| match key {
        "CLICKHOUSE_URL" => Some("http://ch:8123".to_string()),
        "LISTEN_ADDR" => Some("127.0.0.1:9999".to_string()),
        _ => None,
    });
    assert_eq!(config.clickhouse_url, "http://ch:8123");
    assert_eq!(config.listen_addr, "127.0.0.1:9999");
    assert_eq!(config.clickhouse_user, "dashboard");
}

#[test]
fn ingester_defaults() {
    let c = IngesterConfig::from_lookup(|_| None).unwrap();
    assert_eq!(c.mqtt_host, "localhost");
    assert_eq!(c.mqtt_port, 1883);
    assert_eq!(c.mqtt_username, "ingester");
    assert_eq!(c.mqtt_client_id, "ingester");
    assert_eq!(c.clickhouse_user, "ingester");
    assert_eq!(c.batch_max_rows, 5000);
    assert_eq!(c.batch_max_secs, 60);
    assert_eq!(c.metrics_addr, "0.0.0.0:9090");
}

#[test]
fn ingester_rejects_bad_numbers() {
    let bad_port = IngesterConfig::from_lookup(|k| (k == "MQTT_PORT").then(|| "70000".to_string()));
    assert_eq!(bad_port.unwrap_err(), ConfigError::MqttPort);
    let bad_rows = IngesterConfig::from_lookup(|k| (k == "BATCH_MAX_ROWS").then(|| "lots".to_string()));
    assert_eq!(bad_rows.unwrap_err(), ConfigError::BatchMaxRows);
    let bad_secs = IngesterConfig::from_lookup(|k| (k == "BATCH_MAX_SECS").then(|| "-5".to_string()));
    assert_eq!(bad_secs.unwrap_err(), ConfigError::BatchMaxSecs);
    let ok = IngesterConfig::from_lookup(|k| (k == "MQTT_PORT").then(|| "+8883".to_string()));
    assert_eq!(ok.unwrap().mqtt_port, 8883);
}

#[test]
fn parse_unsigned_matches_std() {
    for s in ["0", "42", "+7", "", "+", "-1", "12a", " 1", "65535", "65536", "007", "18446744073709551615", "18446744073709551616"] {
        let ours = parse_unsigned(s, u16::MAX as u64);
        let std_ = s.parse::<u16>().ok().map(u64::from);
        assert_eq!(ours, std_, "u16 {s:?}");
        let ours64 = parse_unsigned(s, u64::MAX);
        assert_eq!(ours64, s.parse::<u64>().ok(), "u64 {s:?}");
    }
}

#[test]
fn ingester_fails_on_the_first_unparsable_number() {
    let all_bad = IngesterConfig::from_lookup(|k| match k {
        "MQTT_PORT" | "BATCH_MAX_ROWS" | "BATCH_MAX_SECS" => Some("x".to_string()),
        _ => None,
    });
    assert_eq!(all_bad.unwrap_err(), ConfigError::MqttPort);
    let later_bad = IngesterConfig::from_lookup(|k| match k {
        "BATCH_MAX_ROWS" | "BATCH_MAX_SECS" => Some("".to_string()),
        _ => None,
    });
    assert_eq!(later_bad.unwrap_err(), ConfigError::BatchMaxRows);
    let good = IngesterConfig::from_lookup(|k| match k {
        "MQTT_PORT" => Some("1".to_string()),
        "BATCH_MAX_ROWS" => Some("0".to_string()),
        "BATCH_MAX_SECS" => Some("18446744073709551615".to_string()),
        _ => None,
    })
    .unwrap();
    assert_eq!((good.mqtt_port, good.batch_max_rows, good.batch_max_secs), (1, 0, u64::MAX));
}
