use punch::background::{effective_system_prompt, fighter_manifest_from_gorilla, BackgroundExecutor};
use punch::executor::GorillaManifest;
use punch::registry::WeightClass;
use punch::duration::Duration;
use punch::heartbeat::{
    after_heartbeat_bout, heartbeat_round, HeartbeatStep, compute_next_wake, has_timed_heartbeats, is_timed_cadence_due, is_timed_cadence_due_at, HeartbeatScheduler,
    HeartbeatTask,
};
use punch::ids::{FighterId, GorillaId};

fn every(s: &str) -> Option<Duration> {
    BackgroundExecutor::parse_schedule(s)
}

#[test]
fn parse_schedule_seconds() {
    assert_eq!(every("every 30s"), Some(Duration::from_secs(30)));
}

#[test]
fn parse_schedule_minutes() {
    assert_eq!(every("every 5m"), Some(Duration::from_secs(300)));
}

#[test]
fn parse_schedule_hours() {
    assert_eq!(every("every 1h"), Some(Duration::from_secs(3600)));
}

#[test]
fn parse_schedule_days() {
    assert_eq!(every("every 1d"), Some(Duration::from_secs(86400)));
}

#[test]
fn background_parse_schedule_invalid() {
    assert_eq!(every("invalid"), None);
}

#[test]
fn parse_schedule_cron_every_30_minutes() {
    assert_eq!(every("*/30 * * * *"), Some(Duration::from_secs(1800)));
}

#[test]
fn parse_schedule_cron_every_6_hours() {
    assert_eq!(every("0 */6 * * *"), Some(Duration::from_secs(21600)));
}

#[test]
fn parse_schedule_cron_every_2_hours() {
    assert_eq!(every("0 */2 * * *"), Some(Duration::from_secs(7200)));
}

#[test]
fn parse_schedule_cron_every_2_days() {
    assert_eq!(every("0 0 */2 * *"), Some(Duration::from_secs(172800)));
}

#[test]
fn parse_schedule_cron_daily() {
    assert_eq!(every("0 0 * * *"), Some(Duration::from_secs(86400)));
}

#[test]
fn parse_schedule_cron_every_3_hours() {
    assert_eq!(every("0 */3 * * *"), Some(Duration::from_secs(10800)));
}

#[test]
fn parse_schedule_cron_every_4_hours() {
    assert_eq!(every("0 */4 * * *"), Some(Duration::from_secs(14400)));
}

#[test]
fn parse_schedule_raw_seconds() {
    assert_eq!(every("60"), Some(Duration::from_secs(60)));
}

#[test]
fn parse_schedule_with_whitespace() {
    assert_eq!(every("  every  10s  "), Some(Duration::from_secs(10)));
}

#[test]
fn parse_schedule_case_insensitive() {
    assert_eq!(every("Every 2H"), Some(Duration::from_secs(7200)));
}

#[test]
fn parse_schedule_empty_string() {
    assert_eq!(every(""), None);
}

#[test]
fn parse_schedule_just_prefix() {
    assert_eq!(every("every "), None);
}

#[test]
fn default_creates_executor() {
    let executor = BackgroundExecutor::default();
    assert_eq!(executor.running_count(), 0);
    assert!(executor.list_running().is_empty());
}

#[test]
fn start_and_stop_gorilla_bookkeeping() {
    let mut executor = BackgroundExecutor::new();
    let id = GorillaId::new();
    let interval = executor.start_gorilla_at(id, "every 30s", 1_700_000_000_000).unwrap();
    assert_eq!(interval, Duration::from_secs(30));
    assert_eq!(executor.running_count(), 1);
    assert!(executor.list_running().contains(&id));
    assert!(executor.is_running(&id));
    assert!(executor.start_gorilla_at(id, "every 30s", 1_700_000_000_000).is_err());
    assert!(executor.stop_gorilla(&id));
    assert!(!executor.stop_gorilla(&id));
    assert_eq!(executor.running_count(), 0);
}

#[test]
fn unparsable_schedule_falls_back_to_five_minutes() {
    let mut executor = BackgroundExecutor::new();
    let interval = executor.start_gorilla_at(GorillaId::new(), "whenever", 0).unwrap();
    assert_eq!(interval, Duration::from_secs(300));
}

#[test]
fn shutdown_all_stops_everything() {
    let mut executor = BackgroundExecutor::new();
    for _ in 0..3 {
        executor.start_gorilla_at(GorillaId::new(), "every 1m", 0).unwrap();
    }
    assert_eq!(executor.running_count(), 3);
    executor.shutdown_all();
    assert_eq!(executor.running_count(), 0);
}

// ---------------------------------------------------------------------------
// Heartbeats
// ---------------------------------------------------------------------------

fn beats(cadences: &[&str]) -> Vec<HeartbeatTask> {
    cadences
        .iter()
        .map(|c| HeartbeatTask {
            task: format!("Task with cadence {c}"),
            cadence: c.to_string(),
            active: true,
            execution_count: 0,
            last_checked: None,
        })
        .collect()
}

fn beat(cadence: &str, last_checked: Option<i64>) -> HeartbeatTask {
    HeartbeatTask { task: "test".to_string(), cadence: cadence.to_string(), active: true, execution_count: 1, last_checked }
}

const NOW: i64 = 1_700_000_000;

#[test]
fn test_compute_next_wake_hourly() {
    assert_eq!(compute_next_wake(&beats(&["hourly"])), Duration::from_secs(3600));
}

#[test]
fn test_compute_next_wake_daily() {
    assert_eq!(compute_next_wake(&beats(&["daily"])), Duration::from_secs(86400));
}

#[test]
fn test_compute_next_wake_weekly() {
    assert_eq!(compute_next_wake(&beats(&["weekly"])), Duration::from_secs(604800));
}

#[test]
fn test_compute_next_wake_every_30m() {
    assert_eq!(compute_next_wake(&beats(&["every 30m"])), Duration::from_secs(1800));
}

#[test]
fn test_compute_next_wake_every_5m() {
    assert_eq!(compute_next_wake(&beats(&["every 5m"])), Duration::from_secs(300));
}

#[test]
fn test_compute_next_wake_cron_every_10min() {
    assert_eq!(compute_next_wake(&beats(&["*/10 * * * *"])), Duration::from_secs(600));
}

#[test]
fn test_compute_next_wake_picks_finest_cadence() {
    assert_eq!(compute_next_wake(&beats(&["daily", "hourly", "every 15m"])), Duration::from_secs(900));
}

#[test]
fn test_compute_next_wake_ignores_every_bout_and_on_wake() {
    assert_eq!(compute_next_wake(&beats(&["every_bout", "on_wake"])), Duration::from_secs(300));
}

#[test]
fn test_compute_next_wake_empty_heartbeats() {
    assert_eq!(compute_next_wake(&[]), Duration::from_secs(300));
}

#[test]
fn test_compute_next_wake_inactive_heartbeats() {
    let mut hb = beats(&["hourly"]);
    hb[0].active = false;
    assert_eq!(compute_next_wake(&hb), Duration::from_secs(300));
}

#[test]
fn test_timed_cadence_due_never_checked() {
    assert!(is_timed_cadence_due(&beat("hourly", None)));
}

#[test]
fn test_timed_cadence_due_recently_checked() {
    assert!(!is_timed_cadence_due_at(&beat("hourly", Some(NOW)), NOW));
}

#[test]
fn test_timed_cadence_due_elapsed() {
    assert!(is_timed_cadence_due_at(&beat("hourly", Some(NOW - 7200)), NOW));
}

#[test]
fn test_timed_cadence_every_bout_not_timed() {
    let mut t = beat("every_bout", None);
    t.execution_count = 0;
    assert!(!is_timed_cadence_due_at(&t, NOW));
}

#[test]
fn test_timed_cadence_on_wake_not_timed() {
    assert!(!is_timed_cadence_due_at(&beat("on_wake", None), NOW));
}

#[test]
fn test_timed_cadence_custom_schedule() {
    assert!(is_timed_cadence_due_at(&beat("every 30m", Some(NOW - 31 * 60)), NOW));
}

#[test]
fn test_timed_cadence_custom_schedule_not_due() {
    assert!(!is_timed_cadence_due_at(&beat("every 30m", Some(NOW - 10 * 60)), NOW));
}

#[test]
fn test_timed_cadence_weekly_due() {
    assert!(is_timed_cadence_due_at(&beat("weekly", Some(NOW - 8 * 86400)), NOW));
}

#[test]
fn test_timed_cadence_weekly_not_due() {
    assert!(!is_timed_cadence_due_at(&beat("weekly", Some(NOW - 3 * 86400)), NOW));
}

#[test]
fn test_has_timed_heartbeats_true() {
    assert!(has_timed_heartbeats(&beats(&["hourly"])));
}

#[test]
fn test_has_timed_heartbeats_false_only_bout() {
    assert!(!has_timed_heartbeats(&beats(&["every_bout", "on_wake"])));
}

#[test]
fn test_has_timed_heartbeats_empty() {
    assert!(!has_timed_heartbeats(&[]));
}

#[test]
fn test_has_timed_heartbeats_mixed() {
    assert!(has_timed_heartbeats(&beats(&["every_bout", "every 5m"])));
}

#[test]
fn test_scheduler_monitoring_count_starts_at_zero() {
    let sched = HeartbeatScheduler::new();
    assert_eq!(sched.monitoring_count(), 0);
}

#[test]
fn test_scheduler_is_monitoring_false_by_default() {
    let sched = HeartbeatScheduler::new();
    assert!(!sched.is_monitoring(&FighterId::new()));
}

#[test]
fn scheduler_monitors_each_fighter_once() {
    let mut sched = HeartbeatScheduler::new();
    let id = FighterId::new();
    let tasks = beats(&["hourly"]);
    assert!(sched.start_monitoring_at(id, &tasks, 0));
    assert!(!sched.start_monitoring_at(id, &tasks, 1));
    assert!(sched.is_monitoring(&id));
    assert!(sched.stop_monitoring(&id));
    assert!(!sched.is_monitoring(&id));
}

#[test]
fn heartbeat_prompt_lists_due_tasks() {
    let p = punch::heartbeat::heartbeat_prompt("Rocky", &["Check inbox".to_string()], None);
    assert!(p.contains("Check inbox"));
    assert!(p.contains("Rocky"));
}

#[test]
fn scheduler_skips_fighter_without_timed_heartbeats() {
    let mut sched = HeartbeatScheduler::new();
    let id = FighterId::new();
    let tasks = beats(&["every_bout", "on_wake"]);
    assert!(!sched.start_monitoring_at(id, &tasks, 0));
    assert!(!sched.is_monitoring(&id));
    assert_eq!(sched.monitoring_count(), 0);
}

/// The default model a kernel would configure.
const DEFAULT_MODEL: &str = "sonnet-4-20250514";

#[test]
fn fighter_manifest_from_gorilla_uses_default_model() {
    let manifest = GorillaManifest {
        name: "test-gorilla".to_string(),
        description: "A test gorilla".to_string(),
        schedule: "every 30s".to_string(),
        moves_required: Vec::new(),
        settings_schema: None,
        dashboard_metrics: Vec::new(),
        system_prompt: Some("Custom prompt".to_string()),
        model: None,
        capabilities: Vec::new(),
        weight_class: None,
    };
    let fighter = fighter_manifest_from_gorilla(&manifest, DEFAULT_MODEL);
    assert_eq!(fighter.name, "test-gorilla");
    assert_eq!(fighter.model, DEFAULT_MODEL);
    assert_eq!(fighter.system_prompt, "Custom prompt");
    assert_eq!(fighter.weight_class, WeightClass::Middleweight);
    assert_eq!(fighter.description, "Autonomous gorilla: test-gorilla");
}

#[test]
fn fighter_manifest_from_gorilla_uses_gorilla_model_if_set() {
    let manifest = GorillaManifest {
        name: "smart-gorilla".to_string(),
        description: "Uses its own model".to_string(),
        schedule: "every 1h".to_string(),
        moves_required: Vec::new(),
        settings_schema: None,
        dashboard_metrics: Vec::new(),
        system_prompt: None,
        model: Some("gpt-4o".to_string()),
        capabilities: Vec::new(),
        weight_class: Some("heavyweight".to_string()),
    };
    let fighter = fighter_manifest_from_gorilla(&manifest, DEFAULT_MODEL);
    assert_eq!(fighter.model, "gpt-4o");
    assert_eq!(fighter.weight_class, WeightClass::Heavyweight);
    assert_eq!(fighter.system_prompt, "Uses its own model");
}

#[test]
fn test_gorilla_manifest_with_moves() {
    let manifest = GorillaManifest {
        name: "worker".to_string(),
        description: "worker gorilla".to_string(),
        schedule: "*/10 * * * *".to_string(),
        moves_required: vec!["read_file".to_string(), "web_fetch".to_string()],
        settings_schema: None,
        dashboard_metrics: vec!["files_processed".to_string()],
        system_prompt: Some("You are a worker.".to_string()),
        model: None,
        capabilities: Vec::new(),
        weight_class: None,
    };
    assert_eq!(manifest.moves_required.len(), 2);
    assert_eq!(manifest.dashboard_metrics.len(), 1);
    assert_eq!(effective_system_prompt(&manifest), "You are a worker.");
}

#[test]
fn test_gorilla_manifest_effective_prompt_fallback() {
    let manifest = GorillaManifest {
        name: "fallback".to_string(),
        description: "fallback description".to_string(),
        schedule: "*/5 * * * *".to_string(),
        moves_required: Vec::new(),
        settings_schema: None,
        dashboard_metrics: Vec::new(),
        system_prompt: None,
        model: None,
        capabilities: Vec::new(),
        weight_class: None,
    };
    assert_eq!(effective_system_prompt(&manifest), "fallback description");
}

#[test]
fn heartbeat_round_without_creed_waits_a_minute() {
    match heartbeat_round(&None, "alpha", None, 1_700_000_000) {
        HeartbeatStep::Sleep(d) => assert_eq!(d, Duration::from_secs(60)),
        other => panic!("expected a sleep, got {other:?}"),
    }
}

#[test]
fn heartbeat_round_runs_due_tasks_then_sleeps() {
    let mut tasks = beats(&["hourly", "every_bout", "daily"]);
    tasks[2].last_checked = Some(1_700_000_000);
    let creed = Some(tasks.clone());
    match heartbeat_round(&creed, "alpha", Some("42"), 1_700_000_000) {
        HeartbeatStep::RunBout { prompt, due, tasks: due_tasks } => {
            assert_eq!(due, vec![0]);
            assert_eq!(due_tasks, vec!["Task with cadence hourly".to_string()]);
            assert!(prompt.starts_with("[HEARTBEAT] You are alpha."));
            assert!(prompt.ends_with("chat_id=\"42\"."));
            let ok = after_heartbeat_bout(&tasks, due.clone(), due_tasks.clone(), true);
            assert_eq!(ok.mark, vec![0]);
            assert_eq!(ok.announce, due_tasks);
            assert_eq!(ok.sleep, Duration::from_secs(3600));
            let failed = after_heartbeat_bout(&tasks, due, due_tasks, false);
            assert!(failed.mark.is_empty() && failed.announce.is_empty());
            assert_eq!(failed.sleep, Duration::from_secs(3600));
        }
        other => panic!("expected a bout, got {other:?}"),
    }
}

#[test]
fn heartbeat_round_with_nothing_due_sleeps_until_next_wake() {
    let mut tasks = beats(&["daily"]);
    tasks[0].last_checked = Some(1_700_000_000);
    match heartbeat_round(&Some(tasks), "alpha", None, 1_700_000_100) {
        HeartbeatStep::Sleep(d) => assert_eq!(d, Duration::from_secs(86400)),
        other => panic!("expected a sleep, got {other:?}"),
    }
}
