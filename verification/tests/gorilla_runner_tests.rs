use punch::executor::ExecutorConfig;
use punch::health::{
    estimate_memory_fallback, meminfo_totals, parse_meminfo_kb, parse_vm_stat_value, HealthConfig,
    HealthEndpoint, HealthMonitor, HealthStatus,
};
use punch::lifecycle::RequirementStatus;
use punch::health::{apply_endpoint_results, endpoint_result, health_output, sane_reading, EndpointOutcome};
use punch::report::{
    compute_trend, FighterSummary, ReportGenerator, ReportMetrics, ReportPeriod, ReportTrends, Trend,
};
use punch::schedule::parse_duration_str;
use punch::duration::Duration;
use punch::tasks::TaskPriority;

#[test]
fn executor_config_default() {
    let config = ExecutorConfig::default();
    assert_eq!(config.circuit_breaker_threshold, 5);
    assert_eq!(config.max_retries, 3);
}

#[test]
fn test_executor_config_defaults() {
    let config = ExecutorConfig::default();
    assert_eq!(config.circuit_breaker_threshold, 5);
    assert_eq!(config.max_retries, 3);
    assert!(config.execution_timeout.as_secs() > 0);
    assert!(config.max_history_entries > 0);
}

#[test]
fn test_requirement_status_not_met() {
    let req = RequirementStatus {
        name: "database".to_string(),
        met: false,
        message: "Database not reachable".to_string(),
    };
    assert!(!req.met);
    assert!(req.message.contains("not reachable"));
}

#[test]
fn health_endpoint_clone() {
    let endpoint = HealthEndpoint {
        name: "test".to_string(),
        url: "http://localhost".to_string(),
        expected: None,
    };
    let cloned = endpoint.clone();
    assert_eq!(cloned.name, "test");
}

#[test]
fn health_status_display() {
    assert_eq!(HealthStatus::Healthy.to_string(), "Healthy");
    assert_eq!(HealthStatus::Degraded.to_string(), "Degraded");
    assert_eq!(HealthStatus::Critical.to_string(), "Critical");
}

#[test]
fn report_period_label() {
    assert_eq!(ReportPeriod::Daily.label(), "daily");
    assert_eq!(ReportPeriod::Weekly.label(), "weekly");
    assert_eq!(ReportPeriod::Monthly.label(), "monthly");
}

#[test]
fn compute_trend_up() {
    assert_eq!(compute_trend(10, 5), Trend::Up);
}

#[test]
fn compute_trend_down() {
    assert_eq!(compute_trend(5, 10), Trend::Down);
}

#[test]
fn compute_trend_flat() {
    assert_eq!(compute_trend(5, 5), Trend::Flat);
}

#[test]
fn trend_display() {
    assert_eq!(Trend::Up.to_string(), "[UP]");
    assert_eq!(Trend::Down.to_string(), "[DOWN]");
    assert_eq!(Trend::Flat.to_string(), "[FLAT]");
    assert_eq!(Trend::NoData.to_string(), "[N/A]");
}

#[test]
fn parse_duration_str_seconds() {
    assert_eq!(parse_duration_str("30s"), Some(Duration::from_secs(30)));
}

#[test]
fn parse_duration_str_minutes() {
    assert_eq!(parse_duration_str("5m"), Some(Duration::from_secs(300)));
}

#[test]
fn parse_duration_str_hours() {
    assert_eq!(parse_duration_str("2h"), Some(Duration::from_secs(7200)));
}

#[test]
fn parse_duration_str_days() {
    assert_eq!(parse_duration_str("1d"), Some(Duration::from_secs(86400)));
}

#[test]
fn parse_duration_str_raw() {
    assert_eq!(parse_duration_str("60"), Some(Duration::from_secs(60)));
}

#[test]
fn parse_duration_str_invalid() {
    assert_eq!(parse_duration_str("abc"), None);
}

#[test]
fn task_priority_ordering() {
    assert!(TaskPriority::Critical > TaskPriority::High);
    assert!(TaskPriority::High > TaskPriority::Normal);
    assert!(TaskPriority::Normal > TaskPriority::Low);
}

#[test]
fn task_priority_default() {
    assert_eq!(TaskPriority::default(), TaskPriority::Normal);
}

// ---------------------------------------------------------------------------
// Report generator
// ---------------------------------------------------------------------------

const DAY: i64 = 86_400_000;
const NOW: i64 = 1_700_000_000_000;

#[test]
fn report_generator_new() {
    let rg = ReportGenerator::new();
    assert_eq!(rg.period(), ReportPeriod::Daily);
    assert!(rg.include_tool_usage);
    assert!(rg.include_fighter_activity);
}

#[test]
fn report_generator_default() {
    let rg = ReportGenerator::default();
    assert_eq!(rg.period(), ReportPeriod::Daily);
}

#[test]
fn report_generator_with_period() {
    let rg = ReportGenerator::with_period(ReportPeriod::Weekly);
    assert_eq!(rg.period(), ReportPeriod::Weekly);
    assert_eq!(rg.manifest().schedule, "@weekly");
}

#[test]
fn report_generator_monthly() {
    let rg = ReportGenerator::with_period(ReportPeriod::Monthly);
    assert_eq!(rg.period(), ReportPeriod::Monthly);
    assert_eq!(rg.manifest().schedule, "0 0 1 * *");
}

#[test]
fn report_generator_builder_pattern() {
    let rg = ReportGenerator::with_period(ReportPeriod::Daily)
        .with_tool_usage(false)
        .with_fighter_activity(false);
    assert!(!rg.include_tool_usage);
    assert!(!rg.include_fighter_activity);
}

#[test]
fn report_generator_check_requirements() {
    let rg = ReportGenerator::new();
    let reqs = rg.check_requirements();
    assert_eq!(reqs.len(), 1);
    assert!(reqs[0].met);
}

#[test]
fn report_period_duration() {
    assert_eq!(ReportPeriod::Daily.duration().as_secs() / 86_400, 1);
    assert_eq!(ReportPeriod::Weekly.duration().as_secs() / 86_400, 7);
    assert_eq!(ReportPeriod::Monthly.duration().as_secs() / 86_400, 30);
}

#[test]
fn format_report_basic() {
    let rg = ReportGenerator::new();
    let metrics = ReportMetrics {
        total_bouts: 10,
        total_messages: 50,
        total_tool_calls: 25,
        active_fighters: 3,
        fighter_summaries: Vec::new(),
        tool_usage: Vec::new(),
        messages_per_day_tenths: 500,
        avg_bout_length_tenths: 50,
    };
    let trends = ReportTrends { bouts_trend: Trend::Up, messages_trend: Trend::Down };
    let (report, sections) = rg.format_report(NOW - DAY, NOW, NOW, &metrics, &trends);
    assert!(report.contains("DAILY Activity Report"));
    assert!(report.contains("Total Bouts:** 10"));
    assert!(report.contains("Total Messages:** 50"));
    assert!(report.contains("Tool Calls:** 25"));
    assert!(report.contains("[UP]"));
    assert!(report.contains("[DOWN]"));
    assert!(report.contains("Messages/Day:** 50.0"));
    assert!(report.contains("Avg Bout Length:** 5.0"));
    assert!(!sections.is_empty());
}

#[test]
fn format_report_with_fighters() {
    let rg = ReportGenerator::new();
    let metrics = ReportMetrics {
        total_bouts: 5,
        total_messages: 20,
        total_tool_calls: 10,
        active_fighters: 2,
        fighter_summaries: vec![
            FighterSummary { name: "Alpha".to_string(), bout_count: 3, message_count: 12 },
            FighterSummary { name: "Beta".to_string(), bout_count: 2, message_count: 8 },
        ],
        tool_usage: vec![("web_fetch".to_string(), 5), ("read_file".to_string(), 3)],
        messages_per_day_tenths: 200,
        avg_bout_length_tenths: 40,
    };
    let trends = ReportTrends { bouts_trend: Trend::Flat, messages_trend: Trend::NoData };
    let (report, sections) = rg.format_report(NOW - DAY, NOW, NOW, &metrics, &trends);
    assert!(report.contains("Fighter Activity"));
    assert!(report.contains("Alpha"));
    assert!(report.contains("Beta"));
    assert!(report.contains("Tool Usage"));
    assert!(report.contains("web_fetch"));
    assert!(sections.len() >= 3);
}

#[test]
fn format_report_without_tool_usage() {
    let rg = ReportGenerator::new().with_tool_usage(false);
    let metrics = ReportMetrics { tool_usage: vec![("web_fetch".to_string(), 5)], ..Default::default() };
    let trends = ReportTrends { bouts_trend: Trend::NoData, messages_trend: Trend::NoData };
    let (report, _sections) = rg.format_report(NOW - DAY, NOW, NOW, &metrics, &trends);
    assert!(!report.contains("Tool Usage"));
}

#[test]
fn format_report_without_fighter_activity() {
    let rg = ReportGenerator::new().with_fighter_activity(false);
    let metrics = ReportMetrics {
        fighter_summaries: vec![FighterSummary { name: "Test".to_string(), bout_count: 1, message_count: 5 }],
        ..Default::default()
    };
    let trends = ReportTrends { bouts_trend: Trend::NoData, messages_trend: Trend::NoData };
    let (report, _sections) = rg.format_report(NOW - DAY, NOW, NOW, &metrics, &trends);
    assert!(!report.contains("Fighter Activity"));
}

#[test]
fn report_generator_manifest_name_includes_period() {
    let rg = ReportGenerator::with_period(ReportPeriod::Weekly);
    assert!(rg.manifest().name.contains("weekly"));
}

#[test]
fn daily_weekly_monthly_produce_different_ranges() {
    let daily = ReportPeriod::Daily.duration();
    let weekly = ReportPeriod::Weekly.duration();
    let monthly = ReportPeriod::Monthly.duration();
    assert!(daily < weekly);
    assert!(weekly < monthly);
}

#[test]
fn report_sections_properly_formatted() {
    let rg = ReportGenerator::new();
    let metrics = ReportMetrics {
        total_bouts: 3,
        total_messages: 15,
        messages_per_day_tenths: 150,
        avg_bout_length_tenths: 50,
        ..Default::default()
    };
    let trends = ReportTrends { bouts_trend: Trend::NoData, messages_trend: Trend::NoData };
    let (_report, sections) = rg.format_report(NOW - DAY, NOW, NOW, &metrics, &trends);
    assert!(!sections.is_empty());
    assert_eq!(sections[0].title, "Summary");
    assert!(sections[0].content.contains("Total Bouts"));
}

#[test]
fn report_with_no_data() {
    let rg = ReportGenerator::new();
    let metrics = ReportMetrics::default();
    let trends = ReportTrends { bouts_trend: Trend::NoData, messages_trend: Trend::NoData };
    let (report, sections) = rg.format_report(NOW - DAY, NOW, NOW, &metrics, &trends);
    assert!(report.contains("DAILY Activity Report"));
    assert!(report.contains("Total Bouts:** 0"));
    assert!(!sections.is_empty());
}

#[test]
fn format_report_exact_summary_and_period_line() {
    let rg = ReportGenerator::new();
    let metrics = ReportMetrics {
        total_bouts: 2,
        total_messages: 7,
        total_tool_calls: 1,
        active_fighters: 1,
        messages_per_day_tenths: 70,
        avg_bout_length_tenths: 35,
        ..Default::default()
    };
    let trends = ReportTrends { bouts_trend: Trend::Up, messages_trend: Trend::Flat };
    // 2023-11-14 22:13:20 UTC
    let (report, sections) = rg.format_report(NOW - DAY, NOW, NOW, &metrics, &trends);
    assert!(report.starts_with("# DAILY Activity Report\n\n**Period:** 2023-11-13 22:13 UTC to 2023-11-14 22:13 UTC\n\n"));
    assert_eq!(
        sections[0].content,
        "- **Total Bouts:** 2 [UP]\n- **Total Messages:** 7 [FLAT]\n- **Tool Calls:** 1\n- **Active Fighters:** 1\n- **Messages/Day:** 7.0\n- **Avg Bout Length:** 3.5 messages\n"
    );
    assert!(report.ends_with("\n---\n*Generated at 2023-11-14 22:13:20 UTC*\n"));
}

#[test]
fn report_rates_are_rounded_tenths() {
    let rg = ReportGenerator::with_period(ReportPeriod::Weekly);
    let m = rg.collected_metrics(3, 10);
    // 10 messages over 7 days = 1.43 per day; 10 / 3 = 3.33 per bout.
    assert_eq!(m.messages_per_day_tenths, 14);
    assert_eq!(m.avg_bout_length_tenths, 33);
    let none = rg.collected_metrics(0, 0);
    assert_eq!(none.avg_bout_length_tenths, 0);
}

#[test]
fn run_report_summary_key_and_trends() {
    let rg = ReportGenerator::new();
    let cur = rg.collected_metrics(4, 20);
    let prev = rg.collected_metrics(6, 20);
    let run = rg.run_report(NOW, NOW, &cur, &prev);
    assert_eq!(run.trends.bouts_trend, Trend::Down);
    assert_eq!(run.trends.messages_trend, Trend::Flat);
    assert_eq!(run.report_key, "report_daily_20231114");
    assert_eq!(
        run.output.summary,
        "daily report generated for period 2023-11-13 to 2023-11-14. 4 bouts [DOWN], 20 messages [FLAT], 20.0 msgs/day."
    );
    assert_eq!(run.output.artifacts[0], "memory:report_daily_20231114");
    assert_eq!(run.output.artifacts[1], run.formatted_text);
}

// ---------------------------------------------------------------------------
// Health monitor
// ---------------------------------------------------------------------------

fn quiet_config() -> HealthConfig {
    HealthConfig {
        memory_warning_millipercent: 99_900,
        memory_critical_millipercent: 99_990,
        disk_warning_millipercent: 99_900,
        disk_paths: Vec::new(),
        ..Default::default()
    }
}

#[test]
fn health_monitor_new() {
    let monitor = HealthMonitor::new();
    assert_eq!(monitor.manifest().name, "Health Monitor");
    assert!(monitor.endpoints.is_empty());
}

#[test]
fn health_monitor_default() {
    let monitor = HealthMonitor::default();
    assert_eq!(monitor.config.memory_warning_millipercent, 80_000);
}

#[test]
fn health_monitor_with_config() {
    let endpoints = vec![HealthEndpoint {
        name: "api".to_string(),
        url: "http://localhost:8080/health".to_string(),
        expected: Some("ok".to_string()),
    }];
    let monitor = HealthMonitor::with_config(endpoints, 70_000, 75_000);
    assert_eq!(monitor.endpoints.len(), 1);
    assert_eq!(monitor.config.memory_warning_millipercent, 70_000);
    assert_eq!(monitor.config.disk_warning_millipercent, 75_000);
}

#[test]
fn health_monitor_with_full_config() {
    let config = HealthConfig {
        memory_warning_millipercent: 60_000,
        memory_critical_millipercent: 90_000,
        disk_warning_millipercent: 70_000,
        endpoint_timeout_ms: 3000,
        max_history: 50,
        disk_paths: vec!["/tmp".to_string()],
    };
    let monitor = HealthMonitor::with_full_config(Vec::new(), config);
    assert_eq!(monitor.config.memory_warning_millipercent, 60_000);
    assert_eq!(monitor.config.max_history, 50);
}

#[test]
fn health_monitor_check_requirements() {
    let monitor = HealthMonitor::new();
    let reqs = monitor.check_requirements();
    assert_eq!(reqs.len(), 1);
    assert!(reqs[0].met);
}

#[test]
fn health_check_returns_valid_report() {
    let monitor = HealthMonitor::new();
    let report = monitor.perform_health_check(NOW, (16_000, 8_000), &vec![(100, 40)]);
    assert!(report.memory_usage_tenths <= 1000);
    assert!(report.memory_total_bytes > 0);
    assert!(!report.all_checks.is_empty());
    assert_eq!(report.memory_usage_tenths, 500);
    assert_eq!(report.all_checks[0].message, "Memory usage: 50.0%");
    assert_eq!(report.all_checks[1].name, "disk:/");
    assert_eq!(report.all_checks[1].message, "Disk '/': 60.0% used");
}

#[test]
fn health_check_healthy_with_high_threshold() {
    let monitor = HealthMonitor::with_full_config(Vec::new(), quiet_config());
    let report = monitor.perform_health_check(NOW, (16_000, 8_000), &Vec::new());
    assert_eq!(report.status, HealthStatus::Healthy);
    assert!(report.alerts.is_empty());
}

#[test]
fn health_check_degraded_with_low_memory_threshold() {
    let config = HealthConfig { memory_warning_millipercent: 1, ..quiet_config() };
    let monitor = HealthMonitor::with_full_config(Vec::new(), config);
    let report = monitor.perform_health_check(NOW, (16_000, 8_000), &Vec::new());
    assert_eq!(report.status, HealthStatus::Degraded);
    assert!(report.checks_failed > 0);
    assert!(!report.alerts.is_empty());
    assert_eq!(report.alerts[0], "ALERT: Memory usage at 50.0% exceeds warning threshold of 0.0%");
}

#[test]
fn health_check_critical_with_very_low_thresholds() {
    let config = HealthConfig {
        memory_warning_millipercent: 1,
        memory_critical_millipercent: 1,
        ..quiet_config()
    };
    let monitor = HealthMonitor::with_full_config(Vec::new(), config);
    let report = monitor.perform_health_check(NOW, (16_000, 8_000), &Vec::new());
    assert_eq!(report.status, HealthStatus::Critical);
}

#[test]
fn health_report_contains_all_checks() {
    let monitor = HealthMonitor::new();
    let report = monitor.perform_health_check(NOW, (16_000, 8_000), &vec![(100, 1)]);
    assert!(report.checks_passed + report.checks_failed > 0);
    assert_eq!(report.checks_passed + report.checks_failed, report.all_checks.len());
    assert_eq!(report.checks_failed, 1);
    assert_eq!(report.alerts[0], "ALERT: Disk '/' at 99.0% exceeds warning threshold of 85.0%");
}

#[test]
fn configurable_thresholds_work() {
    let config = HealthConfig {
        memory_warning_millipercent: 50_000,
        memory_critical_millipercent: 90_000,
        disk_warning_millipercent: 60_000,
        ..Default::default()
    };
    assert_eq!(config.memory_warning_millipercent, 50_000);
    assert_eq!(config.memory_critical_millipercent, 90_000);
    assert_eq!(config.disk_warning_millipercent, 60_000);
}

#[test]
fn history_tracking_stores_entries() {
    let config = HealthConfig { max_history: 3, ..quiet_config() };
    let mut monitor = HealthMonitor::with_full_config(Vec::new(), config);
    for _ in 0..5 {
        let report = monitor.perform_health_check(NOW, (16_000, 8_000), &Vec::new());
        monitor.record_history(report);
    }
    assert_eq!(monitor.history().len(), 3);
}

#[test]
fn history_tracking_empty_initially() {
    let monitor = HealthMonitor::new();
    assert!(monitor.history().is_empty());
}

#[test]
fn health_monitor_manifest_schedule() {
    let monitor = HealthMonitor::new();
    assert_eq!(monitor.manifest().schedule, "every 5m");
}

#[test]
fn default_health_config() {
    let config = HealthConfig::default();
    assert_eq!(config.memory_warning_millipercent, 80_000);
    assert_eq!(config.memory_critical_millipercent, 95_000);
    assert_eq!(config.disk_warning_millipercent, 85_000);
    assert_eq!(config.endpoint_timeout_ms, 5000);
    assert_eq!(config.max_history, 100);
}

#[test]
fn meminfo_values_parse() {
    assert_eq!(parse_meminfo_kb("   16384 kB"), 16384);
    assert_eq!(parse_meminfo_kb(" 12 kBkB "), 12);
    assert_eq!(parse_meminfo_kb("lots"), 0);
    let (total, avail) = meminfo_totals("MemTotal:       2048 kB\nMemFree: 1 kB\nMemAvailable:   1024 kB\n");
    assert_eq!(total, 2048 * 1024);
    assert_eq!(avail, 1024 * 1024);
}

#[test]
fn vm_stat_values_parse() {
    assert_eq!(parse_vm_stat_value("Pages free:                               12345."), 12345);
    assert_eq!(parse_vm_stat_value("no colon here"), 0);
    assert_eq!(parse_vm_stat_value("Pages wired down: x."), 0);
    assert_eq!(
        punch::health::macos_available_memory("Pages free: 2.\nPages inactive: 3.\n"),
        5 * 16384
    );
}

#[test]
fn memory_fallback_is_eight_gib_half_free() {
    assert_eq!(estimate_memory_fallback(), (8 * 1024 * 1024 * 1024, 4 * 1024 * 1024 * 1024));
    assert_eq!(punch::health::system_memory(&vec![(0, 0), (10, 5)]), (10, 5));
    assert_eq!(punch::health::system_memory(&vec![(0, 0)]), estimate_memory_fallback());
}

#[test]
fn endpoint_results_and_output() {
    let ok = HealthEndpoint { name: "api".to_string(), url: "http://a".to_string(), expected: Some("ok".to_string()) };
    let plain = HealthEndpoint { name: "web".to_string(), url: "http://b".to_string(), expected: None };
    let r1 = endpoint_result(
        &ok,
        5000,
        EndpointOutcome::Response { status: 500, elapsed_ms: 12, body: Some("all ok".to_string()) },
    );
    assert!(r1.healthy);
    let r2 = endpoint_result(&plain, 5000, EndpointOutcome::Response { status: 302, elapsed_ms: 3, body: None });
    assert!(r2.healthy);
    let r3 = endpoint_result(
        &plain,
        5000,
        EndpointOutcome::Failed { elapsed_ms: 5000, timed_out: true, error: "x".to_string() },
    );
    assert!(!r3.healthy);
    assert_eq!(r3.error.as_deref(), Some("timeout after 5000ms"));
    let monitor = HealthMonitor::with_full_config(Vec::new(), quiet_config());
    let mut report = monitor.perform_health_check(NOW, (16_000, 8_000), &Vec::new());
    let (healthy, checked) = apply_endpoint_results(&mut report, vec![r1, r3], NOW);
    assert_eq!((healthy, checked), (1, 2));
    assert_eq!(report.status, HealthStatus::Degraded);
    assert_eq!(report.all_checks[1].message, "Endpoint 'api' healthy (12ms)");
    assert_eq!(report.alerts[0], "ALERT: Endpoint 'web' (http://b) is unhealthy: timeout after 5000ms");
    let (key, out) = health_output(&report, healthy, checked, NOW);
    assert_eq!(key, "health_report_20231114_221320");
    assert_eq!(
        out.summary,
        "Health check completed at 2023-11-14 22:13:20 UTC. Status: Degraded. Memory: 50.0%. Endpoints: 1/2 healthy. Checks: 2/3 passed. Alerts: 1."
    );
    assert_eq!(out.artifacts[1], "alerts:ALERT: Endpoint 'web' (http://b) is unhealthy: timeout after 5000ms");
    assert_eq!(out.artifacts[2], "status:Degraded");
}

#[test]
fn reading_with_more_available_than_total_is_clamped() {
    assert_eq!(sane_reading((100, 150)), (100, 100));
    assert_eq!(sane_reading((100, 40)), (100, 40));
    assert_eq!(sane_reading((0, 40)), (0, 40));
    let monitor = HealthMonitor::new();
    let report = monitor.perform_health_check(1_700_000_000_000, sane_reading((1000, 4000)), &vec![(1000, 500)]);
    assert_eq!(report.memory_usage_tenths, 0);
}
