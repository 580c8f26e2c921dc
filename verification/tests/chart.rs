use ebishrimp::chart::{chart_layers, chart_script, layer_name, palette_color, script_safe, script_safe_json, ChartLayer};

fn ids(v: &[&str]) -> Vec<String> {
    v.iter().map(|s| s.to_string()).collect()
}

#[test]
fn multi_device_has_one_series_per_device_and_no_band() {
    let devices = ids(&["dev-a", "dev-b"]);
    let layers = chart_layers(devices.len(), true);
    assert_eq!(layers.len(), 2);
    assert_eq!(layer_name(layers[0], &devices), "dev-a");
    assert_eq!(layer_name(layers[1], &devices), "dev-b");
}

#[test]
fn single_device_gets_min_max_band() {
    let devices = ids(&["dev-a"]);
    let layers = chart_layers(1, true);
    assert_eq!(layers, vec![ChartLayer::BandLower, ChartLayer::BandSpan, ChartLayer::Line { device: 0 }]);
    assert_eq!(layer_name(layers[0], &devices), "min");
    assert_eq!(layer_name(layers[1], &devices), "min-max");
    assert_eq!(layer_name(layers[2], &devices), "dev-a");
}

#[test]
fn single_device_raw_points_skip_band() {
    assert_eq!(chart_layers(1, false), vec![ChartLayer::Line { device: 0 }]);
}

#[test]
fn palette_cycles() {
    assert_eq!(palette_color(0), "#4cc2ff");
    assert_eq!(palette_color(7), "#a8b3c5");
    assert_eq!(palette_color(8), "#4cc2ff");
    assert_eq!(palette_color(10), "#f0b429");
    assert!(chart_layers(0, true).is_empty());
}

#[test]
fn script_safe_json_escapes_script_terminators() {
    let mut map = serde_json::Map::new();
    map.insert("a".to_string(), serde_json::Value::String("</script><!--".to_string()));
    let value = serde_json::Value::Object(map);
    let out = script_safe_json(&value);
    assert!(!out.contains("</script>"));
    assert!(!out.contains("<!--"));
    assert!(out.contains("<\\/script>"));
}

#[test]
fn script_safe_json_unescapes_to_json_text() {
    let mut map = serde_json::Map::new();
    map.insert("k</".to_string(), serde_json::Value::String("x<\\/y<!--z\\".to_string()));
    map.insert("n".to_string(), serde_json::Value::Bool(true));
    let value = serde_json::Value::Object(map);
    let out = script_safe_json(&value);
    assert_eq!(out, "{\"k<\\/\":\"x<\\\\/y<\\!--z\\\\\",\"n\":true}");
    assert_eq!(out.replace("<\\!--", "<!--").replace("<\\/", "</"), value.to_string());
    assert_eq!(script_safe_json(&serde_json::Value::Bool(true)), "true");
}

#[test]
fn script_safe_overlapping_patterns() {
    assert_eq!(script_safe("<</<!--!"), "<<\\/<\\!--!");
    assert_eq!(script_safe("<!</"), "<!<\\/");
    assert_eq!(script_safe("plain"), "plain");
    for s in ["<<!--", "<!-<!--", "</</", "<!--->", "a</b<!--c"] {
        let out = script_safe(s);
        assert!(!out.contains("</") && !out.contains("<!--"), "{s:?} -> {out:?}");
        assert_eq!(out.replace('\\', ""), s.replace('\\', ""));
    }
}

#[test]
fn chart_script_embeds_option() {
    let html = chart_script("{\"a\":1}");
    assert!(html.starts_with("<script>(function(){var el=document.getElementById('chart-canvas');"));
    assert!(html.contains("chart.setOption({\"a\":1});"));
    assert!(html.ends_with("})();</script>"));
}
