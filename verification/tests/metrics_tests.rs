use punch::metrics::{
    register_default_metrics, MetricsRegistry, ACTIVE_FIGHTERS, ACTIVE_GORILLAS, REQUESTS_TOTAL, REQUEST_DURATION_SECONDS,
    TOOL_EXECUTION_SECONDS,
};

#[test]
fn test_counter_increment() {
    let mut reg = MetricsRegistry::new();
    reg.counter_inc("test_counter");
    assert_eq!(reg.counter_get("test_counter"), 1);
    reg.counter_inc("test_counter");
    assert_eq!(reg.counter_get("test_counter"), 2);
}

#[test]
fn test_counter_add() {
    let mut reg = MetricsRegistry::new();
    reg.counter_add("test_counter", 10);
    assert_eq!(reg.counter_get("test_counter"), 10);
    reg.counter_add("test_counter", 5);
    assert_eq!(reg.counter_get("test_counter"), 15);
}

#[test]
fn test_gauge_set_inc_dec() {
    let mut reg = MetricsRegistry::new();
    reg.gauge_set("test_gauge", 42);
    assert_eq!(reg.gauge_get("test_gauge"), 42);
    reg.gauge_inc("test_gauge");
    assert_eq!(reg.gauge_get("test_gauge"), 43);
    reg.gauge_dec("test_gauge");
    assert_eq!(reg.gauge_get("test_gauge"), 42);
    reg.gauge_add("test_gauge", -10);
    assert_eq!(reg.gauge_get("test_gauge"), 32);
}

#[test]
fn test_labeled_metrics() {
    let mut reg = MetricsRegistry::new();
    reg.register_counter("http_requests_total", "Total HTTP requests");
    reg.counter_with_labels("http_requests_total", &[("method", "GET"), ("status", "200")]);
    reg.counter_with_labels("http_requests_total", &[("method", "POST"), ("status", "200")]);
    reg.counter_with_labels("http_requests_total", &[("method", "GET"), ("status", "200")]);
    assert_eq!(reg.counter_get("http_requests_total{method=\"GET\",status=\"200\"}"), 2);
    assert_eq!(reg.counter_get("http_requests_total{method=\"POST\",status=\"200\"}"), 1);
}

#[test]
fn test_prometheus_text_format_counter() {
    let mut reg = MetricsRegistry::new();
    reg.register_counter("punch_requests_total", "Total API requests");
    reg.counter_with_labels("punch_requests_total", &[("method", "GET"), ("status", "200")]);
    let output = reg.export_prometheus();
    assert!(output.contains("# HELP punch_requests_total Total API requests"));
    assert!(output.contains("# TYPE punch_requests_total counter"));
    assert!(output.contains("punch_requests_total{method=\"GET\",status=\"200\"} 1"));
}

#[test]
fn export_of_one_labelled_counter_is_exact() {
    let mut reg = MetricsRegistry::new();
    assert_eq!(reg.export_prometheus(), "");
    reg.register_counter("punch_requests_total", "Total API requests");
    reg.counter_with_labels("punch_requests_total", &[("method", "GET"), ("status", "200")]);
    let output = reg.export_prometheus();
    assert_eq!(
        output.lines().collect::<Vec<_>>(),
        vec![
            "# HELP punch_requests_total Total API requests",
            "# TYPE punch_requests_total counter",
            "punch_requests_total{method=\"GET\",status=\"200\"} 1",
            "",
        ]
    );
}

#[test]
fn test_prometheus_text_format_gauge() {
    let mut reg = MetricsRegistry::new();
    reg.register_gauge("punch_active_fighters", "Currently active fighters");
    reg.gauge_set("punch_active_fighters", 5);
    let output = reg.export_prometheus();
    assert!(output.contains("# HELP punch_active_fighters Currently active fighters"));
    assert!(output.contains("# TYPE punch_active_fighters gauge"));
    assert!(output.contains("punch_active_fighters 5"));
}

#[test]
fn test_zero_value_metrics_display() {
    let mut reg = MetricsRegistry::new();
    reg.register_counter("zero_counter", "A zero counter");
    reg.counter_add("zero_counter", 0);
    let output = reg.export_prometheus();
    assert!(output.contains("zero_counter 0"));
}

#[test]
fn counter_wraps_at_max() {
    let mut reg = MetricsRegistry::new();
    reg.counter_add("c", u64::MAX);
    reg.counter_inc("c");
    assert_eq!(reg.counter_get("c"), 0);
    assert_eq!(reg.counter_get("never_touched"), 0);
}

#[test]
fn export_sorts_families_and_negative_gauges() {
    let mut reg = MetricsRegistry::new();
    reg.gauge_set("b_gauge", -3);
    reg.counter_inc("a_counter");
    let output = reg.export_prometheus();
    let a = output.find("a_counter 1").unwrap();
    let b = output.find("b_gauge -3").unwrap();
    assert!(a < b);
}

#[test]
fn test_register_default_metrics() {
    let mut reg = MetricsRegistry::new();
    register_default_metrics(&mut reg);
    assert!(reg.help_text(REQUESTS_TOTAL).is_some());
    assert!(reg.help_text(ACTIVE_FIGHTERS).is_some());
    assert!(reg.help_text(REQUEST_DURATION_SECONDS).is_some());
    assert_eq!(reg.metric_type(REQUESTS_TOTAL).unwrap(), "counter");
    assert_eq!(reg.metric_type(ACTIVE_FIGHTERS).unwrap(), "gauge");
    assert_eq!(reg.metric_type(REQUEST_DURATION_SECONDS).unwrap(), "histogram");
}

#[test]
fn default_metric_help_texts() {
    let mut reg = MetricsRegistry::new();
    register_default_metrics(&mut reg);
    assert_eq!(reg.help_text(ACTIVE_GORILLAS).unwrap(), "Currently rampaging gorillas");
    assert_eq!(reg.help_text(TOOL_EXECUTION_SECONDS).unwrap(), "Tool execution time");
    assert!(reg.help_text("punch_unknown").is_none());
}
