use punch::duration::Duration;
use punch::executor::GorillaStatus;
use punch::ids::{FighterId, GorillaId};
use punch::kernel_triggers::{EventKind, Trigger, TriggerAction, TriggerCondition, TriggerEngine, TriggerId};
use punch::lifecycle::GorillaLifecycle;
use punch::quota::{QuotaConfig, QuotaScheduler};
use punch::shutdown::{DrainStep, ShutdownCoordinator};
use punch::sweeper::{DataSweeper, StepResult, SweepReport};
use punch::tenants::{TenantId, TenantQuota, TenantRegistry, TenantStatus};

const NOW: i64 = 1_700_000_000_000;

// ---------------------------------------------------------------------------
// Quotas
// ---------------------------------------------------------------------------

fn test_config() -> QuotaConfig {
    QuotaConfig { tokens_per_hour: 1000, messages_per_hour: 5, window_ms: 3_600_000 }
}

#[test]
fn fresh_fighter_within_quota() {
    let mut s = QuotaScheduler::new(test_config());
    assert!(s.check_quota_at(&FighterId::new(), NOW));
}

#[test]
fn token_quota_exceeded() {
    let mut s = QuotaScheduler::new(test_config());
    let id = FighterId::new();
    s.record_usage_at(&id, 1000, NOW);
    assert!(!s.check_quota_at(&id, NOW));
}

#[test]
fn message_quota_exceeded() {
    let mut s = QuotaScheduler::new(test_config());
    let id = FighterId::new();
    for _ in 0..5 {
        s.record_usage_at(&id, 0, NOW);
    }
    assert!(!s.check_quota_at(&id, NOW));
}

#[test]
fn cleanup_removes_stale_entries() {
    let config = QuotaConfig { tokens_per_hour: 1000, messages_per_hour: 100, window_ms: 0 };
    let mut s = QuotaScheduler::new(config);
    let id = FighterId::new();
    s.record_usage_at(&id, 500, NOW);
    assert_eq!(s.cleanup_at(NOW + 1), 1);
    assert!(s.check_quota_at(&id, NOW + 1));
}

#[test]
fn remove_fighter_clears_quota() {
    let mut s = QuotaScheduler::new(test_config());
    let id = FighterId::new();
    s.record_usage_at(&id, 999, NOW);
    s.remove_fighter(&id);
    assert!(s.check_quota_at(&id, NOW));
}

#[test]
fn independent_fighters_have_separate_quotas() {
    let mut s = QuotaScheduler::new(test_config());
    let a = FighterId::new();
    let b = FighterId::new();
    s.record_usage_at(&a, 1000, NOW);
    assert!(!s.check_quota_at(&a, NOW));
    assert!(s.check_quota_at(&b, NOW));
}

#[test]
fn default_quota_config() {
    let config = QuotaConfig::default();
    assert_eq!(config.tokens_per_hour, 1_000_000);
    assert_eq!(config.messages_per_hour, 500);
}

#[test]
fn check_quota_creates_entry_if_missing() {
    let mut s = QuotaScheduler::new(test_config());
    let id = FighterId::new();
    assert!(s.check_quota_at(&id, NOW));
    assert!(s.check_quota_at(&id, NOW));
}

#[test]
fn token_quota_just_under_limit_passes() {
    let mut s = QuotaScheduler::new(test_config());
    let id = FighterId::new();
    s.record_usage_at(&id, 999, NOW);
    assert!(s.check_quota_at(&id, NOW));
}

#[test]
fn message_quota_just_under_limit_passes() {
    let mut s = QuotaScheduler::new(test_config());
    let id = FighterId::new();
    for _ in 0..4 {
        s.record_usage_at(&id, 0, NOW);
    }
    assert!(s.check_quota_at(&id, NOW));
}

#[test]
fn both_quotas_can_exceed_independently() {
    let mut s = QuotaScheduler::new(test_config());
    let id_tok = FighterId::new();
    s.record_usage_at(&id_tok, 1001, NOW);
    assert!(!s.check_quota_at(&id_tok, NOW));
    let mut s2 = QuotaScheduler::new(test_config());
    let id_msg = FighterId::new();
    for _ in 0..5 {
        s2.record_usage_at(&id_msg, 0, NOW);
    }
    assert!(!s2.check_quota_at(&id_msg, NOW));
}

#[test]
fn remove_fighter_allows_reuse_of_quota() {
    let mut s = QuotaScheduler::new(test_config());
    let id = FighterId::new();
    s.record_usage_at(&id, 1000, NOW);
    assert!(!s.check_quota_at(&id, NOW));
    s.remove_fighter(&id);
    assert!(s.check_quota_at(&id, NOW));
    s.record_usage_at(&id, 500, NOW);
    assert!(s.check_quota_at(&id, NOW));
}

#[test]
fn cleanup_with_no_entries_does_not_panic() {
    let mut s = QuotaScheduler::new(test_config());
    assert_eq!(s.cleanup_at(NOW), 0);
}

#[test]
fn multiple_fighters_cleanup() {
    let config = QuotaConfig { tokens_per_hour: 1000, messages_per_hour: 100, window_ms: 0 };
    let mut s = QuotaScheduler::new(config);
    let ids: Vec<FighterId> = (0..5).map(|_| FighterId::new()).collect();
    for id in &ids {
        s.record_usage_at(id, 100, NOW);
    }
    assert_eq!(s.cleanup_at(NOW + 1), 5);
    for id in &ids {
        assert!(s.check_quota_at(id, NOW + 1));
    }
}

#[test]
fn remove_nonexistent_fighter_does_not_panic() {
    let mut s = QuotaScheduler::new(test_config());
    s.remove_fighter(&FighterId::new());
}

#[test]
fn accumulating_usage_reaches_limit() {
    let mut s = QuotaScheduler::new(test_config());
    let id = FighterId::new();
    for _ in 0..4 {
        s.record_usage_at(&id, 200, NOW);
    }
    assert!(s.check_quota_at(&id, NOW));
    s.record_usage_at(&id, 200, NOW);
    assert!(!s.check_quota_at(&id, NOW));
}

#[test]
fn usage_outside_window_does_not_count() {
    let mut s = QuotaScheduler::new(test_config());
    let id = FighterId::new();
    s.record_usage_at(&id, 5000, NOW - 3_600_001);
    assert!(s.check_quota_at(&id, NOW));
    s.record_usage_at(&id, 5000, NOW - 3_600_000);
    assert!(!s.check_quota_at(&id, NOW));
}

// ---------------------------------------------------------------------------
// Kernel triggers
// ---------------------------------------------------------------------------

fn trigger(name: &str, condition: TriggerCondition) -> Trigger {
    Trigger {
        id: TriggerId::new(),
        name: name.to_string(),
        condition,
        action: TriggerAction::Log { message: format!("{name} matched") },
        enabled: true,
        created_at: NOW,
        fire_count: 0,
        max_fires: 0,
    }
}

fn keyword(words: &[&str]) -> Trigger {
    trigger("test-keyword", TriggerCondition::Keyword { keywords: words.iter().map(|w| w.to_string()).collect() })
}

fn event(kind: &str) -> Trigger {
    trigger("test-event", TriggerCondition::Event { event_kind: kind.to_string() })
}

fn schedule(secs: u64) -> Trigger {
    trigger("test-schedule", TriggerCondition::Schedule { interval_secs: secs })
}

fn webhook() -> Trigger {
    trigger("test-webhook", TriggerCondition::Webhook { secret: None })
}

#[test]
fn test_keyword_trigger_matching() {
    let mut engine = TriggerEngine::new();
    let id = engine.register_trigger(keyword(&["deploy", "release"]));
    assert_eq!(engine.check_keyword("please deploy the app"), vec![id]);
    assert_eq!(engine.check_keyword("DEPLOY now!").len(), 1);
    assert!(engine.check_keyword("hello world").is_empty());
}

#[test]
fn test_event_trigger_firing_and_wildcard() {
    let mut engine = TriggerEngine::new();
    let id = engine.register_trigger(event("fighter_spawned"));
    assert_eq!(engine.check_event(EventKind::FighterSpawned), vec![id]);
    assert!(engine.check_event(EventKind::BoutEnded).is_empty());
    let any = engine.register_trigger(event("*"));
    assert_eq!(engine.check_event(EventKind::Error), vec![any]);
}

#[test]
fn test_schedule_trigger_listing() {
    let mut engine = TriggerEngine::new();
    engine.register_trigger(schedule(60));
    engine.register_trigger(schedule(3600));
    engine.register_trigger(keyword(&["x"]));
    let schedules = engine.get_schedule_triggers();
    assert_eq!(schedules.len(), 2);
    assert_eq!(schedules[1].1, Duration::from_secs(3600));
}

#[test]
fn test_trigger_registration_and_removal() {
    let mut engine = TriggerEngine::new();
    let id = engine.register_trigger(keyword(&["x"]));
    assert!(engine.get_trigger(&id).is_some());
    assert_eq!(engine.list_triggers().len(), 1);
    engine.remove_trigger(&id);
    assert!(engine.get_trigger(&id).is_none());
    assert_eq!(engine.list_triggers().len(), 0);
}

#[test]
fn test_trigger_max_fires() {
    let mut engine = TriggerEngine::new();
    let mut t = keyword(&["fire"]);
    t.max_fires = 2;
    let id = engine.register_trigger(t);
    assert_eq!(engine.check_keyword("fire").len(), 1);
    assert_eq!(engine.check_keyword("fire").len(), 1);
    assert_eq!(engine.check_keyword("fire").len(), 0);
    assert!(!engine.get_trigger(&id).unwrap().enabled);
}

#[test]
fn test_webhook_trigger() {
    let mut engine = TriggerEngine::new();
    let id = engine.register_trigger(webhook());
    assert!(engine.check_webhook(&id).is_some());
    assert!(engine.check_webhook(&TriggerId::new()).is_none());
}

#[test]
fn trigger_engine_default() {
    let engine = TriggerEngine::default();
    assert!(engine.list_triggers().is_empty());
}

#[test]
fn trigger_id_display() {
    assert!(!TriggerId::new().to_string().is_empty());
}

#[test]
fn trigger_id_default() {
    assert_ne!(TriggerId::default().0, 0);
}

#[test]
fn get_trigger_returns_correct_data() {
    let mut engine = TriggerEngine::new();
    let id = engine.register_trigger(keyword(&["x"]));
    let t = engine.get_trigger(&id).unwrap();
    assert_eq!(t.name, "test-keyword");
    assert!(t.enabled);
    assert_eq!(t.fire_count, 0);
}

#[test]
fn get_trigger_nonexistent_returns_none() {
    let engine = TriggerEngine::new();
    assert!(engine.get_trigger(&TriggerId::new()).is_none());
}

#[test]
fn remove_nonexistent_trigger_does_not_panic() {
    let mut engine = TriggerEngine::new();
    engine.remove_trigger(&TriggerId::new());
}

#[test]
fn webhook_trigger_fire_count_increments() {
    let mut engine = TriggerEngine::new();
    let id = engine.register_trigger(webhook());
    engine.check_webhook(&id);
    engine.check_webhook(&id);
    assert_eq!(engine.get_trigger(&id).unwrap().fire_count, 2);
}

#[test]
fn webhook_trigger_disabled_returns_none() {
    let mut engine = TriggerEngine::new();
    let mut t = webhook();
    t.enabled = false;
    let id = engine.register_trigger(t);
    assert!(engine.check_webhook(&id).is_none());
}

#[test]
fn webhook_trigger_max_fires_reached() {
    let mut engine = TriggerEngine::new();
    let mut t = webhook();
    t.max_fires = 1;
    let id = engine.register_trigger(t);
    assert!(engine.check_webhook(&id).is_some());
    assert!(engine.check_webhook(&id).is_none());
}

#[test]
fn check_webhook_on_non_webhook_trigger_returns_none() {
    let mut engine = TriggerEngine::new();
    let id = engine.register_trigger(keyword(&["x"]));
    assert!(engine.check_webhook(&id).is_none());
}

#[test]
fn disabled_schedule_trigger_excluded() {
    let mut engine = TriggerEngine::new();
    let mut t = schedule(60);
    t.enabled = false;
    engine.register_trigger(t);
    assert!(engine.get_schedule_triggers().is_empty());
}

#[test]
fn list_triggers_returns_summaries() {
    let mut engine = TriggerEngine::new();
    engine.register_trigger(keyword(&["a", "b"]));
    engine.register_trigger(event("error"));
    engine.register_trigger(schedule(60));
    engine.register_trigger(webhook());
    let summaries = engine.list_triggers();
    assert_eq!(summaries.len(), 4);
    let types: Vec<String> = summaries.iter().map(|(_, s)| s.condition_type.clone()).collect();
    assert_eq!(types, vec!["keyword(a, b)", "event(error)", "schedule(60s)", "webhook"]);
}

// ---------------------------------------------------------------------------
// Tenants
// ---------------------------------------------------------------------------

#[test]
fn test_register_tenant() {
    let mut registry = TenantRegistry::new();
    let tenant = registry.register_tenant("Acme Corp".to_string(), TenantQuota::default());
    assert_eq!(tenant.name, "Acme Corp");
    assert_eq!(tenant.status, TenantStatus::Active);
    assert!(tenant.api_key.starts_with("pk_"));
    assert_eq!(tenant.api_key.len(), 35);
    assert!(!tenant.api_key.contains('-'));
}

#[test]
fn test_get_tenant() {
    let mut registry = TenantRegistry::new();
    let tenant = registry.register_tenant("Acme Corp".to_string(), TenantQuota::default());
    let found = registry.get_tenant(&tenant.id).unwrap();
    assert_eq!(found.id, tenant.id);
    assert_eq!(found.name, "Acme Corp");
}

#[test]
fn test_get_tenant_not_found() {
    let registry = TenantRegistry::new();
    assert!(registry.get_tenant(&TenantId::new()).is_none());
}

#[test]
fn test_get_tenant_by_api_key() {
    let mut registry = TenantRegistry::new();
    let tenant = registry.register_tenant("Acme Corp".to_string(), TenantQuota::default());
    let found = registry.get_tenant_by_api_key(&tenant.api_key).unwrap();
    assert_eq!(found.id, tenant.id);
}

#[test]
fn test_get_tenant_by_api_key_invalid() {
    let registry = TenantRegistry::new();
    assert!(registry.get_tenant_by_api_key("pk_invalid").is_none());
}

#[test]
fn test_update_quota() {
    let mut registry = TenantRegistry::new();
    let tenant = registry.register_tenant("Acme Corp".to_string(), TenantQuota::default());
    let new_quota = TenantQuota { max_fighters: 50, ..TenantQuota::default() };
    registry.update_quota(&tenant.id, new_quota).unwrap();
    assert_eq!(registry.get_tenant(&tenant.id).unwrap().quota.max_fighters, 50);
}

#[test]
fn test_update_quota_not_found() {
    let mut registry = TenantRegistry::new();
    assert!(registry.update_quota(&TenantId::new(), TenantQuota::default()).is_err());
}

#[test]
fn test_suspend_tenant() {
    let mut registry = TenantRegistry::new();
    let tenant = registry.register_tenant("Acme Corp".to_string(), TenantQuota::default());
    registry.suspend_tenant(&tenant.id).unwrap();
    assert_eq!(registry.get_tenant(&tenant.id).unwrap().status, TenantStatus::Suspended);
    assert!(!registry.is_tenant_active(&tenant.id));
}

#[test]
fn test_activate_tenant() {
    let mut registry = TenantRegistry::new();
    let tenant = registry.register_tenant("Acme Corp".to_string(), TenantQuota::default());
    registry.suspend_tenant(&tenant.id).unwrap();
    registry.activate_tenant(&tenant.id).unwrap();
    assert_eq!(registry.get_tenant(&tenant.id).unwrap().status, TenantStatus::Active);
    assert!(registry.is_tenant_active(&tenant.id));
}

#[test]
fn test_list_tenants() {
    let mut registry = TenantRegistry::new();
    registry.register_tenant("Tenant A".to_string(), TenantQuota::default());
    registry.register_tenant("Tenant B".to_string(), TenantQuota::default());
    assert_eq!(registry.list_tenants().len(), 2);
}

#[test]
fn test_delete_tenant() {
    let mut registry = TenantRegistry::new();
    let tenant = registry.register_tenant("Acme Corp".to_string(), TenantQuota::default());
    let api_key = tenant.api_key.clone();
    assert!(registry.delete_tenant(&tenant.id).is_some());
    assert!(registry.get_tenant(&tenant.id).is_none());
    assert!(registry.get_tenant_by_api_key(&api_key).is_none());
}

#[test]
fn test_delete_tenant_not_found() {
    let mut registry = TenantRegistry::new();
    assert!(registry.delete_tenant(&TenantId::new()).is_none());
}

#[test]
fn test_tenant_count() {
    let mut registry = TenantRegistry::new();
    assert_eq!(registry.tenant_count(), 0);
    registry.register_tenant("A".to_string(), TenantQuota::default());
    assert_eq!(registry.tenant_count(), 1);
    registry.register_tenant("B".to_string(), TenantQuota::default());
    assert_eq!(registry.tenant_count(), 2);
}

#[test]
fn test_register_tenant_with_key() {
    let mut registry = TenantRegistry::new();
    let tenant = registry.register_tenant_with_key(
        "Custom Tenant".to_string(),
        "custom-api-key-123".to_string(),
        TenantQuota::default(),
    );
    assert_eq!(tenant.api_key, "custom-api-key-123");
    let found = registry.get_tenant_by_api_key("custom-api-key-123").unwrap();
    assert_eq!(found.id, tenant.id);
}

#[test]
fn test_is_tenant_active_unknown() {
    let registry = TenantRegistry::new();
    assert!(!registry.is_tenant_active(&TenantId::new()));
}

#[test]
fn test_two_tenants_isolated() {
    let mut registry = TenantRegistry::new();
    let t1 = registry.register_tenant("Tenant A".to_string(), TenantQuota::default());
    let t2 = registry.register_tenant("Tenant B".to_string(), TenantQuota::default());
    assert_ne!(t1.id, t2.id);
    assert_ne!(t1.api_key, t2.api_key);
    assert!(registry.get_tenant(&t1.id).is_some());
    assert!(registry.get_tenant(&t2.id).is_some());
    registry.delete_tenant(&t1.id);
    assert!(registry.get_tenant(&t1.id).is_none());
    assert!(registry.get_tenant(&t2.id).is_some());
}

#[test]
fn tenant_tool_access() {
    let mut registry = TenantRegistry::new();
    let open = registry.register_tenant("open".to_string(), TenantQuota::default());
    let q = TenantQuota { max_fighters: 1, max_tools: vec!["web_fetch".to_string()] };
    let limited = registry.register_tenant("limited".to_string(), q);
    assert!(registry.check_tool_access(&open.id, "anything"));
    assert!(registry.check_tool_access(&limited.id, "web_fetch"));
    assert!(!registry.check_tool_access(&limited.id, "shell"));
    assert!(!registry.check_tool_access(&TenantId::new(), "web_fetch"));
}

// ---------------------------------------------------------------------------
// Shutdown
// ---------------------------------------------------------------------------

#[test]
fn shutdown_is_idempotent_and_refuses_new_requests() {
    let mut c = ShutdownCoordinator::with_default_timeout();
    assert!(c.track_request());
    assert_eq!(c.in_flight_count(), 1);
    assert!(c.initiate_shutdown());
    assert!(!c.initiate_shutdown());
    assert!(c.is_shutting_down());
    assert!(!c.track_request());
    assert_eq!(c.drain_step(10), DrainStep::Wait { ms: 50 });
    assert_eq!(c.drain_step(30_000), DrainStep::TimedOut { remaining: 1 });
    c.finish_request();
    c.finish_request();
    assert_eq!(c.in_flight_count(), 0);
    assert_eq!(c.drain_step(0), DrainStep::Drained);
}

// ---------------------------------------------------------------------------
// Gorilla lifecycle
// ---------------------------------------------------------------------------

fn manifest(name: &str) -> punch::executor::GorillaManifest {
    punch::executor::GorillaManifest {
        name: name.to_string(),
        description: format!("{name} description"),
        schedule: "*/5 * * * *".to_string(),
        moves_required: Vec::new(),
        settings_schema: None,
        dashboard_metrics: Vec::new(),
        system_prompt: None,
        model: None,
        capabilities: Vec::new(),
        weight_class: None,
    }
}

#[test]
fn lifecycle_register_unleash_cage() {
    let mut lc = GorillaLifecycle::new();
    let id = lc.register(manifest("alpha"));
    let list = lc.list();
    assert_eq!(list.len(), 1);
    assert_eq!(list[0].1, "alpha");
    assert_eq!(lc.get_status(id), Ok(GorillaStatus::Caged));
    lc.unleash(id).unwrap();
    assert_eq!(lc.get_status(id), Ok(GorillaStatus::Unleashed));
    lc.cage(id).unwrap();
    assert_eq!(lc.get_status(id), Ok(GorillaStatus::Caged));
    assert!(lc.unleash(GorillaId::new()).is_err());
}

// ---------------------------------------------------------------------------
// Data sweeper
// ---------------------------------------------------------------------------

#[test]
fn data_sweeper_new() {
    let sweeper = DataSweeper::new();
    assert_eq!(sweeper.manifest().name, "Data Sweeper");
    assert_eq!(sweeper.retention_period, Duration::from_secs(30 * 86400));
    assert!(sweeper.compact_memory);
    assert!(!sweeper.dry_run);
}

#[test]
fn data_sweeper_default() {
    assert_eq!(DataSweeper::default().max_memories_per_fighter, 1000);
}

#[test]
fn data_sweeper_with_config() {
    let sweeper = DataSweeper::with_config(Duration::from_secs(7 * 86400), false, 500);
    assert_eq!(sweeper.retention_period, Duration::from_secs(7 * 86400));
    assert!(!sweeper.compact_memory);
    assert_eq!(sweeper.max_memories_per_fighter, 500);
}

#[test]
fn data_sweeper_dry_run_mode() {
    assert!(DataSweeper::new().with_dry_run(true).is_dry_run());
}

#[test]
fn data_sweeper_dry_run_disabled_by_default() {
    assert!(!DataSweeper::new().is_dry_run());
}

#[test]
fn data_sweeper_retention_cutoff() {
    let sweeper = DataSweeper::new();
    assert_eq!(sweeper.retention_cutoff_at(NOW), NOW - 30 * 86_400_000);
}

#[test]
fn data_sweeper_configurable_retention() {
    let sweeper = DataSweeper::with_config(Duration::from_secs(7 * 86400), true, 1000);
    assert_eq!(sweeper.retention_cutoff_at(NOW), NOW - 7 * 86_400_000);
}

#[test]
fn data_sweeper_check_requirements() {
    let reqs = DataSweeper::new().check_requirements();
    assert_eq!(reqs.len(), 1);
    assert!(reqs[0].met);
}

#[test]
fn data_sweeper_manifest_schedule() {
    assert_eq!(DataSweeper::new().manifest().schedule, "@daily");
}

#[test]
fn data_sweeper_accessors() {
    let sweeper = DataSweeper::new();
    assert_eq!(sweeper.retention_period(), Duration::from_secs(30 * 86400));
    assert!(sweeper.compact_memory_enabled());
    assert_eq!(sweeper.max_memories_per_fighter(), 1000);
}

fn report(dry_run: bool, deleted: u64, compacted: u64, vacuum: bool, errors: Vec<String>) -> SweepReport {
    SweepReport {
        timestamp: NOW,
        dry_run,
        messages_deleted: deleted,
        memories_compacted: compacted,
        vacuum_performed: vacuum,
        retention_cutoff: NOW - 30 * 86_400_000,
        errors,
    }
}

#[test]
fn sweep_report_success() {
    assert!(report(false, 10, 5, true, Vec::new()).is_success());
}

#[test]
fn sweep_report_with_errors() {
    assert!(!report(false, 0, 0, false, vec!["test error".to_string()]).is_success());
}

#[test]
fn sweep_report_format_summary() {
    let summary = report(false, 42, 7, true, Vec::new()).format_summary();
    assert!(summary.contains("Messages deleted: 42"));
    assert!(summary.contains("Memories compacted: 7"));
    assert!(summary.contains("Vacuum: performed"));
    assert!(summary.contains("LIVE"));
    assert_eq!(
        summary,
        "Data sweep (LIVE) completed at 2023-11-14 22:13:20 UTC. Retention cutoff: 2023-10-15. Messages deleted: 42. Memories compacted: 7. Vacuum: performed. "
    );
}

#[test]
fn sweep_report_dry_run_summary() {
    assert!(report(true, 10, 0, false, Vec::new()).format_summary().contains("DRY RUN"));
}

#[test]
fn sweep_report_zero_counts() {
    let r = report(false, 0, 0, false, Vec::new());
    assert!(r.is_success());
    assert_eq!(r.messages_deleted, 0);
    assert_eq!(r.memories_compacted, 0);
}

#[test]
fn sweep_plan_and_finish() {
    let live = DataSweeper::new();
    let plan = live.plan(NOW - 1);
    assert!(!plan.count_only);
    assert_eq!(plan.compact_to, Some(1000));
    assert!(plan.vacuum);
    let run = live.finish(
        NOW,
        NOW - 1,
        StepResult::Failed("disk full".to_string()),
        Some(StepResult::Done(3)),
        Some(true),
    );
    assert_eq!(run.report.errors, vec!["cleanup_messages: disk full".to_string()]);
    assert_eq!(
        run.output.artifacts,
        vec![
            "error:cleanup_messages:disk full".to_string(),
            "vacuum:success".to_string(),
            "messages_deleted:0".to_string(),
            "memories_compacted:3".to_string(),
        ]
    );
    let dry = DataSweeper::new().with_dry_run(true);
    let dplan = dry.plan(NOW - 1);
    assert!(dplan.count_only && dplan.compact_to.is_none() && !dplan.vacuum);
    let drun = dry.finish(NOW, NOW - 1, StepResult::Done(12), None, None);
    assert_eq!(drun.report.messages_deleted, 12);
    assert_eq!(drun.output.artifacts.last().unwrap(), "mode:dry_run");
}

#[test]
fn quota_check_at_the_earliest_instant() {
    let mut s = QuotaScheduler::new(QuotaConfig::default());
    let id = FighterId::new();
    s.record_usage_at(&id, 10, i64::MIN);
    assert!(s.check_quota_at(&id, i64::MIN));
    assert_eq!(s.cleanup_at(i64::MIN), 0);
    assert_eq!(s.cleanup_at(i64::MAX), 1);
}
