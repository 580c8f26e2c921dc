use ebishrimp::range::{series_sql, Range, Source};

#[test]
fn parse_roundtrip() {
    for range in Range::ALL {
        assert_eq!(Range::parse(range.code()), Some(range));
    }
    assert_eq!(Range::parse("2h"), None);
    assert_eq!(Range::parse(""), None);
    assert_eq!(Range::parse("1h; DROP TABLE"), None);
}

#[test]
fn source_selection_follows_spec() {
    assert_eq!(Range::Min10.source(), Source::Raw);
    assert_eq!(Range::Hour1.source(), Source::Agg1m);
    assert_eq!(Range::Hour6.source(), Source::Agg1m);
    assert_eq!(Range::Hour24.source(), Source::Agg1m);
    assert_eq!(Range::Day7.source(), Source::Agg1d);
    assert_eq!(Range::Day30.source(), Source::Agg1d);
}

#[test]
fn raw_sql_reads_sensor_raw_with_bound_metric() {
    let sql = series_sql(Range::Min10, false);
    assert!(sql.contains("FROM sensor_raw"));
    assert!(sql.contains("metric = ?"));
    assert!(sql.contains("INTERVAL 10 MINUTE"));
    assert!(!sql.contains("device_id = ?"));
}

#[test]
fn agg1m_sql_uses_merge_functions_and_group_by() {
    let sql = series_sql(Range::Hour6, true);
    assert!(sql.contains("FROM sensor_1m"));
    assert!(sql.contains("avgMerge(avg_v)"));
    assert!(sql.contains("minMerge(min_v)"));
    assert!(sql.contains("maxMerge(max_v)"));
    assert!(sql.contains("GROUP BY device_id, ts_min"));
    assert!(sql.contains("AND device_id = ?"));
    assert!(sql.contains("INTERVAL 6 HOUR"));
}

#[test]
fn agg1d_sql_uses_ts_day() {
    let sql = series_sql(Range::Day30, false);
    assert!(sql.contains("FROM sensor_1d"));
    assert!(sql.contains("ts_day"));
    assert!(sql.contains("INTERVAL 30 DAY"));
}

#[test]
fn raw_sql_full_text() {
    assert_eq!(
        series_sql(Range::Min10, true),
        "SELECT device_id, ts, value AS avg_v, value AS min_v, value AS max_v FROM sensor_raw \
         WHERE metric = ? AND device_id = ? AND ts > now() - INTERVAL 10 MINUTE \
         ORDER BY device_id, ts"
    );
}

#[test]
fn agg1d_sql_full_text() {
    assert_eq!(
        series_sql(Range::Day7, false),
        "SELECT device_id, ts_day AS ts, avgMerge(avg_v) AS avg_v, minMerge(min_v) AS min_v, \
         maxMerge(max_v) AS max_v FROM sensor_1d WHERE metric = ? AND ts_day > now() - \
         INTERVAL 7 DAY GROUP BY device_id, ts_day ORDER BY device_id, ts_day"
    );
}

#[test]
fn sql_placeholders_follow_device_filter() {
    for range in Range::ALL {
        assert_eq!(series_sql(range, false).matches('?').count(), 1);
        assert_eq!(series_sql(range, true).matches('?').count(), 2);
    }
}

#[test]
fn labels_and_intervals() {
    assert_eq!(Range::Min10.label(), "10分");
    assert_eq!(Range::Hour24.label(), "24時間");
    assert_eq!(Range::Day30.label(), "30日");
    assert_eq!(Range::Hour1.interval_sql(), "INTERVAL 1 HOUR");
    assert_eq!(Range::Day7.interval_sql(), "INTERVAL 7 DAY");
    assert_eq!(Range::Hour6.code(), "6h");
}

#[test]
fn device_filter_goes_right_after_the_metric_placeholder() {
    for range in Range::ALL {
        let plain = series_sql(range, false);
        let filtered = series_sql(range, true);
        let head_end = plain.find('?').unwrap() + 1;
        assert!(plain[..head_end].ends_with("WHERE metric = ?"));
        assert_eq!(filtered, format!("{} AND device_id = ?{}", &plain[..head_end], &plain[head_end..]));
        assert_eq!(filtered, plain.replacen("metric = ?", "metric = ? AND device_id = ?", 1));
        assert!(plain.contains(range.interval_sql()));
        let table = match range.source() {
            Source::Raw => "FROM sensor_raw ",
            Source::Agg1m => "FROM sensor_1m ",
            Source::Agg1d => "FROM sensor_1d ",
        };
        assert!(filtered.contains(table));
    }
}
