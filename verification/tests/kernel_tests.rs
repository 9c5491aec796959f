use punch::budget::{
    default_warning_threshold, evaluate_limit, most_restrictive, seconds_until_day_reset,
    seconds_until_day_reset_at, BudgetEnforcer, BudgetLimit, BudgetVerdict,
};
use punch::config_watch::{ConfigChange, ConfigPoller, KernelConfigDiff, ReloadOutcome, ValidationSeverity};
use punch::ids::FighterId;
use punch::metering::{MeteringEngine, SpendPeriod};
use punch::metrics::{encode_key, split_key};

#[test]
fn budget_limit_default() {
    let limit = BudgetLimit::default();
    assert!(!limit.has_any_limit());
    assert_eq!(limit.warning_threshold_percent, 80);
}

#[test]
fn kernel_config_diff_has_reloadable_changes() {
    let empty = KernelConfigDiff::default();
    assert!(!empty.has_reloadable_changes());

    let with_rate = KernelConfigDiff { rate_limit_changed: true, ..Default::default() };
    assert!(with_rate.has_reloadable_changes());

    let restart_only = KernelConfigDiff { requires_restart: vec!["api_listen".to_string()], ..Default::default() };
    assert!(!restart_only.has_reloadable_changes());
}

#[test]
fn spend_period_display() {
    assert_eq!(SpendPeriod::Hour.to_string(), "hour");
    assert_eq!(SpendPeriod::Day.to_string(), "day");
    assert_eq!(SpendPeriod::Month.to_string(), "month");
}

#[test]
fn test_encode_key_no_labels() {
    assert_eq!(encode_key("my_metric", &[]), "my_metric");
}

#[test]
fn test_encode_key_with_labels() {
    let key = encode_key("my_metric", &[("a", "1"), ("b", "2")]);
    assert_eq!(key, "my_metric{a=\"1\",b=\"2\"}");
}

#[test]
fn test_split_key() {
    let (base, labels) = split_key("foo{a=\"1\"}");
    assert_eq!(base, "foo");
    assert_eq!(labels, "{a=\"1\"}");

    let (base2, labels2) = split_key("bar");
    assert_eq!(base2, "bar");
    assert_eq!(labels2, "");
}

#[test]
fn kernel_config_diff_from_changes() {
    let changes = vec![
        ConfigChange::RateLimitChanged { old: 60, new: 120 },
        ConfigChange::ModelChanged { old_model: "a".to_string(), new_model: "b".to_string() },
        ConfigChange::ChannelAdded("slack".to_string()),
        ConfigChange::McpServerRemoved("fs".to_string()),
        ConfigChange::ListenAddressChanged { old: "a".to_string(), new: "b".to_string() },
        ConfigChange::ApiKeyChanged,
    ];
    let diff = KernelConfigDiff::from_changes(&changes);
    assert!(diff.rate_limit_changed);
    assert!(diff.model_changed);
    assert_eq!(diff.channels_changed, vec!["slack".to_string()]);
    assert_eq!(diff.mcp_servers_changed, vec!["fs".to_string()]);
    assert_eq!(diff.requires_restart.len(), 2);
    assert!(diff.requires_restart.contains(&"api_listen".to_string()));
    assert!(diff.requires_restart.contains(&"api_key".to_string()));
}

#[test]
fn non_reloadable_fields_logged_as_requiring_restart() {
    let changes = vec![
        ConfigChange::ListenAddressChanged { old: "127.0.0.1:6660".to_string(), new: "0.0.0.0:8080".to_string() },
        ConfigChange::ApiKeyChanged,
    ];
    let diff = KernelConfigDiff::from_changes(&changes);
    assert!(!diff.has_reloadable_changes());
    assert_eq!(diff.requires_restart.len(), 2);
}

#[test]
fn memory_change_detected() {
    let changes = vec![ConfigChange::MemoryConfigChanged];
    let diff = KernelConfigDiff::from_changes(&changes);
    assert!(diff.memory_changed);
    assert!(diff.has_reloadable_changes());
}

#[test]
fn config_diff_names_each_channel_once() {
    let changes = vec![
        ConfigChange::ChannelAdded("slack".to_string()),
        ConfigChange::ChannelRemoved("slack".to_string()),
        ConfigChange::ChannelAdded("irc".to_string()),
        ConfigChange::MemoryConfigChanged,
    ];
    let diff = KernelConfigDiff::from_changes(&changes);
    assert_eq!(diff.channels_changed, vec!["slack".to_string(), "irc".to_string()]);
    assert!(diff.memory_changed);
    assert!(diff.has_reloadable_changes());
}

#[test]
fn config_poller_reloads_only_on_new_mtime() {
    let mut p = ConfigPoller::new(Some(100));
    assert!(!p.observe(Some(100)));
    assert!(!p.observe(None));
    assert!(p.observe(Some(200)));
    assert_eq!(p.last_modified, 200);
    assert!(!p.observe(Some(200)));
    assert_eq!(ConfigPoller::new(None).last_modified, 0);
}

#[test]
fn reload_outcomes() {
    let changes = vec![ConfigChange::ApiKeyChanged];
    assert!(matches!(ConfigPoller::reload_outcome(false, true, &[], &changes), ReloadOutcome::ReadFailed));
    assert!(matches!(ConfigPoller::reload_outcome(true, false, &[], &changes), ReloadOutcome::ParseFailed));
    let findings = [ValidationSeverity::Warning, ValidationSeverity::Error, ValidationSeverity::Error];
    assert!(matches!(
        ConfigPoller::reload_outcome(true, true, &findings, &changes),
        ReloadOutcome::Invalid { errors: 2 }
    ));
    assert!(matches!(
        ConfigPoller::reload_outcome(true, true, &[ValidationSeverity::Warning], &[]),
        ReloadOutcome::NoChanges
    ));
    match ConfigPoller::reload_outcome(true, true, &[], &changes) {
        ReloadOutcome::Applied(d) => {
            assert_eq!(d.requires_restart, vec!["api_key".to_string()]);
            assert!(!d.has_reloadable_changes());
        }
        _ => panic!("expected the change to be applied"),
    }
}

// ---------------------------------------------------------------------------
// Budget
// ---------------------------------------------------------------------------

const NOW: i64 = 1_700_000_000_000; // 2023-11-14 22:13:20 UTC

fn daily(max: u64) -> BudgetLimit {
    BudgetLimit { max_cost_per_day_cents: Some(max), ..Default::default() }
}

#[test]
fn default_threshold_is_eighty() {
    assert_eq!(default_warning_threshold(), 80);
}

#[test]
fn under_budget_allowed() {
    assert_eq!(evaluate_limit(&daily(1000), 100, NOW, false), BudgetVerdict::Allowed);
}

#[test]
fn at_80_percent_warning() {
    match evaluate_limit(&daily(1000), 800, NOW, false) {
        BudgetVerdict::Warning { used_cents, limit_cents, message } => {
            assert_eq!((used_cents, limit_cents), (800, 1000));
            assert_eq!(message, "approaching daily cost limit: 800c / 1000c (80%)");
        }
        v => panic!("expected a warning, got {v:?}"),
    }
}

#[test]
fn over_budget_blocked() {
    match evaluate_limit(&daily(1000), 1000, NOW, true) {
        BudgetVerdict::Blocked { reason, retry_after_secs } => {
            assert_eq!(reason, "global daily cost budget exceeded: 1000c / 1000c");
            // 22:13:20 leaves 1 h 46 m 40 s until midnight.
            assert_eq!(retry_after_secs, 6400);
        }
        v => panic!("expected a block, got {v:?}"),
    }
}

#[test]
fn no_limit_always_allowed() {
    assert_eq!(evaluate_limit(&BudgetLimit::default(), u64::MAX, NOW, false), BudgetVerdict::Allowed);
}

#[test]
fn zero_limit_always_blocked() {
    assert!(matches!(evaluate_limit(&daily(0), 0, NOW, false), BudgetVerdict::Blocked { .. }));
}

#[test]
fn token_only_limit_allows() {
    let limit = BudgetLimit { max_tokens_per_hour: Some(10), ..Default::default() };
    assert!(limit.has_any_limit());
    assert_eq!(evaluate_limit(&limit, 5_000, NOW, false), BudgetVerdict::Allowed);
}

#[test]
fn warning_threshold_configurable() {
    let limit = BudgetLimit { max_cost_per_day_cents: Some(1000), warning_threshold_percent: 50, ..Default::default() };
    assert!(matches!(evaluate_limit(&limit, 500, NOW, false), BudgetVerdict::Warning { .. }));
    assert_eq!(evaluate_limit(&limit, 499, NOW, false), BudgetVerdict::Allowed);
}

#[test]
fn warning_percent_rounds_half_to_even() {
    match evaluate_limit(&daily(200), 165, NOW, false) {
        BudgetVerdict::Warning { message, .. } => assert!(message.ends_with("(82%)")),
        v => panic!("expected a warning, got {v:?}"),
    }
}

#[test]
fn most_restrictive_selects_blocked_over_warning() {
    let a = BudgetVerdict::Warning { used_cents: 9, limit_cents: 10, message: "w".to_string() };
    let b = BudgetVerdict::Blocked { reason: "b".to_string(), retry_after_secs: 5 };
    assert!(matches!(most_restrictive(a, b), BudgetVerdict::Blocked { .. }));
}

#[test]
fn most_restrictive_selects_warning_over_allowed() {
    let a = BudgetVerdict::Allowed;
    let b = BudgetVerdict::Warning { used_cents: 9, limit_cents: 10, message: "w".to_string() };
    assert!(matches!(most_restrictive(a, b), BudgetVerdict::Warning { .. }));
}

#[test]
fn most_restrictive_both_allowed() {
    assert_eq!(most_restrictive(BudgetVerdict::Allowed, BudgetVerdict::Allowed), BudgetVerdict::Allowed);
}

#[test]
fn most_restrictive_prefers_higher_usage_warning() {
    let a = BudgetVerdict::Warning { used_cents: 8, limit_cents: 10, message: "a".to_string() };
    let b = BudgetVerdict::Warning { used_cents: 90, limit_cents: 100, message: "b".to_string() };
    match most_restrictive(a, b) {
        BudgetVerdict::Warning { message, .. } => assert_eq!(message, "b"),
        v => panic!("expected a warning, got {v:?}"),
    }
}

#[test]
fn seconds_until_day_reset_positive() {
    let secs = seconds_until_day_reset();
    assert!(secs <= 86400);
    assert_eq!(seconds_until_day_reset_at(0), 86400);
    assert_eq!(seconds_until_day_reset_at(-1000), 1);
}

#[test]
fn per_fighter_limits_independent() {
    let mut e = BudgetEnforcer::new();
    let f1 = FighterId(1);
    let f2 = FighterId(2);
    e.set_fighter_limit(f1, daily(100));
    assert!(matches!(e.check_budget(&f1, 100, 100, NOW), BudgetVerdict::Blocked { .. }));
    assert_eq!(e.check_budget(&f2, 100, 100, NOW), BudgetVerdict::Allowed);
    e.remove_fighter_limit(&f1);
    assert_eq!(e.get_fighter_limit(&f1), None);
    assert_eq!(e.check_budget(&f1, 100, 100, NOW), BudgetVerdict::Allowed);
}

#[test]
fn global_limit_applies_to_all_fighters() {
    let mut e = BudgetEnforcer::new();
    e.set_global_limit(daily(500));
    assert_eq!(e.get_global_limit(), Some(daily(500)));
    match e.check_budget(&FighterId(7), 0, 500, NOW) {
        BudgetVerdict::Blocked { reason, .. } => assert!(reason.starts_with("global")),
        v => panic!("expected a block, got {v:?}"),
    }
    e.clear_global_limit();
    assert_eq!(e.check_budget(&FighterId(7), 0, 500, NOW), BudgetVerdict::Allowed);
    let status = e.get_global_status(500, NOW);
    assert_eq!(status.cost_used_day_cents, 500);
    assert_eq!(status.verdict, BudgetVerdict::Allowed);
}

#[test]
fn fighter_status_reports_spend_and_verdict() {
    let mut e = BudgetEnforcer::new();
    e.set_fighter_limit(FighterId(3), daily(1000));
    let s = e.get_fighter_status(&FighterId(3), 900, 900, NOW);
    assert_eq!(s.limits, Some(daily(1000)));
    assert_eq!(s.cost_used_day_cents, 900);
    assert!(matches!(s.verdict, BudgetVerdict::Warning { .. }));
}

// ---------------------------------------------------------------------------
// Metering
// ---------------------------------------------------------------------------

fn usd(pico: u128) -> f64 {
    pico as f64 / 1e12
}

#[test]
fn estimate_cost_gpt4o_mini() {
    let engine = MeteringEngine::new();
    let cost = engine.estimate_cost("gpt-4o-mini", 1_000_000, 1_000_000);
    assert!((usd(cost) - 0.75).abs() < 1e-9);
}

#[test]
fn estimate_cost_ollama_free() {
    let engine = MeteringEngine::new();
    let cost = engine.estimate_cost("ollama/llama3", 1_000_000, 1_000_000);
    assert!((usd(cost) - 0.0).abs() < 1e-9);
}

#[test]
fn estimate_cost_unknown_model_uses_fallback() {
    let engine = MeteringEngine::new();
    let cost = engine.estimate_cost("some-unknown-model", 1_000_000, 1_000_000);
    assert!((usd(cost) - 4.0).abs() < 1e-9);
}

#[test]
fn estimate_cost_exact_match_before_prefix() {
    let engine = MeteringEngine::new();
    // "gpt-4o-mini" is an entry of its own, though "gpt-4o" is a prefix of it;
    // its dated snapshots take its price, other "gpt-4o" names that of "gpt-4o".
    assert_eq!(engine.estimate_cost("gpt-4o-mini", 1, 0), 150_000);
    assert_eq!(engine.estimate_cost("gpt-4o-mini-2024-07-18", 1, 0), 150_000);
    assert_eq!(engine.estimate_cost("gpt-4o-2024-08-06", 1, 0), 2_500_000);
}

#[test]
fn spend_period_windows() {
    assert_eq!(SpendPeriod::Hour.since(NOW), NOW - 3_600_000);
    assert_eq!(SpendPeriod::Month.to_duration().as_secs(), 30 * 86_400);
}
