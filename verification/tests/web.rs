use ebishrimp::range::Range;
use ebishrimp::web::{device_options, fallback_metrics, js_asset, nav_class, resolve_selection, ChartQuery};

#[test]
fn resolve_selection_defaults() {
    let selection = resolve_selection(&ChartQuery::default(), &[]);
    assert_eq!(selection.metric, None);
    assert_eq!(selection.device, "all");
    assert_eq!(selection.range, Range::Hour1);
    assert_eq!(selection.device_filter(), None);
}

#[test]
fn resolve_selection_falls_back_to_first_known_metric() {
    let known = vec!["co2".to_string(), "temperature".to_string()];
    let selection = resolve_selection(&ChartQuery::default(), &known);
    assert_eq!(selection.metric.as_deref(), Some("co2"));
}

#[test]
fn resolve_selection_explicit_params_win() {
    let query = ChartQuery {
        metric: Some("humidity".to_string()),
        device: Some("esp32-01".to_string()),
        range: Some("7d".to_string()),
    };
    let selection = resolve_selection(&query, &["co2".to_string()]);
    assert_eq!(selection.metric.as_deref(), Some("humidity"));
    assert_eq!(selection.device_filter(), Some("esp32-01"));
    assert_eq!(selection.range, Range::Day7);
}

#[test]
fn resolve_selection_rejects_bad_range() {
    let query = ChartQuery {
        range: Some("99y".to_string()),
        ..ChartQuery::default()
    };
    assert_eq!(resolve_selection(&query, &[]).range, Range::Hour1);
}

#[test]
fn resolve_selection_empty_params_are_unset() {
    let query = ChartQuery {
        metric: Some(String::new()),
        device: Some(String::new()),
        range: Some(String::new()),
    };
    let selection = resolve_selection(&query, &["co2".to_string()]);
    assert_eq!(selection.metric.as_deref(), Some("co2"));
    assert_eq!(selection.device, "all");
    assert_eq!(selection.range, Range::Hour1);
}

#[test]
fn selection_fragment_url() {
    let query = ChartQuery {
        metric: Some("co2".to_string()),
        device: Some("dev 1".to_string()),
        range: Some("24h".to_string()),
    };
    let selection = resolve_selection(&query, &[]);
    assert_eq!(selection.fragment_url(), "/fragments/chart?metric=co2&device=dev+1&range=24h");
    let none = resolve_selection(&ChartQuery::default(), &[]);
    assert_eq!(none.fragment_url(), "/fragments/chart?metric=&device=all&range=1h");
}

#[test]
fn device_options_keep_selection_visible() {
    let listed = vec!["a".to_string(), "b".to_string()];
    assert_eq!(device_options(listed.clone(), "all"), listed);
    assert_eq!(device_options(listed.clone(), "b"), listed);
    assert_eq!(device_options(listed.clone(), "c"), vec!["a".to_string(), "b".to_string(), "c".to_string()]);
    assert_eq!(device_options(Vec::new(), "x"), vec!["x".to_string()]);
}

#[test]
fn fallback_metrics_is_the_requested_metric() {
    let query = ChartQuery { metric: Some("co2".to_string()), ..ChartQuery::default() };
    assert_eq!(fallback_metrics(&query), vec!["co2".to_string()]);
    assert!(fallback_metrics(&ChartQuery::default()).is_empty());
}

#[test]
fn nav_marks_current_path() {
    assert_eq!(nav_class("/chart", "/chart"), "nav-link active");
    assert_eq!(nav_class("/", "/chart"), "nav-link");
}

#[test]
fn js_asset_headers() {
    static BODY: &[u8] = b"console.log(1)";
    let (headers, body) = js_asset(BODY);
    assert_eq!(headers[0], ("content-type", "application/javascript; charset=utf-8"));
    assert_eq!(headers[1], ("cache-control", "public, max-age=86400"));
    assert_eq!(body, BODY);
}
