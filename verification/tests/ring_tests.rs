use punch::a2a::{finish_task_run, spawn_task_fighter, A2ATask, A2ATaskBoard, A2ATaskInput, A2ATaskStatus};
use punch::budget::{BudgetEnforcer, BudgetLimit};
use punch::ids::FighterId;
use punch::metrics::MetricsRegistry;
use punch::quota::{QuotaConfig, QuotaScheduler};
use punch::ring::{FighterStatus, Ring, RingError};
use punch::tenants::{TenantId, TenantQuota, TenantRegistry};

const NOW: i64 = 1_700_000_000_000;

fn ring() -> Ring {
    let cfg = QuotaConfig { tokens_per_hour: 1000, messages_per_hour: 2, window_ms: 3_600_000 };
    Ring::new(QuotaScheduler::new(cfg), BudgetEnforcer::new(), MetricsRegistry::new())
}

#[test]
fn spawned_fighter_is_idle() {
    let mut r = ring();
    let id = FighterId::new();
    r.spawn_fighter_with_id(id, "alpha".to_string(), "m".to_string());
    let e = r.get_fighter(&id).unwrap();
    assert_eq!(e.name, "alpha");
    assert_eq!(e.status, FighterStatus::Idle);
    assert!(e.tenant_id.is_none());
    assert_eq!(r.list_fighters().len(), 1);
}

#[test]
fn message_to_unknown_fighter_is_refused() {
    let mut r = ring();
    let id = FighterId::new();
    assert_eq!(r.begin_message_at(&id, NOW, 0, 0), Err(RingError::FighterNotFound(id)));
}

#[test]
fn message_lifecycle_counts_tokens() {
    let mut r = ring();
    let id = FighterId::new();
    r.spawn_fighter_with_id(id, "alpha".to_string(), "m".to_string());
    assert_eq!(r.begin_message_at(&id, NOW, 0, 0), Ok(None));
    assert_eq!(r.metrics.counter_get("punch_messages_total"), 0);
    assert_eq!(r.start_fighting(&id, 42), Some(42));
    assert_eq!(r.get_fighter(&id).unwrap().status, FighterStatus::Fighting);
    assert_eq!(r.get_fighter(&id).unwrap().current_bout, Some(42));
    r.finish_message_at(&id, Some((10, 5)), NOW);
    assert_eq!(r.get_fighter(&id).unwrap().status, FighterStatus::Idle);
    assert_eq!(r.metrics.counter_get("punch_tokens_input_total"), 10);
    assert_eq!(r.metrics.counter_get("punch_tokens_output_total"), 5);
    assert_eq!(r.metrics.counter_get("punch_messages_total"), 1);
}

#[test]
fn failed_message_knocks_fighter_out() {
    let mut r = ring();
    let id = FighterId::new();
    r.spawn_fighter_with_id(id, "alpha".to_string(), "m".to_string());
    r.finish_message_at(&id, None, NOW);
    assert_eq!(r.get_fighter(&id).unwrap().status, FighterStatus::KnockedOut);
    assert_eq!(r.metrics.counter_get("punch_errors_total"), 1);
}

#[test]
fn fighter_over_quota_rests() {
    let mut r = ring();
    let id = FighterId::new();
    r.spawn_fighter_with_id(id, "alpha".to_string(), "m".to_string());
    r.finish_message_at(&id, Some((1, 1)), NOW);
    r.finish_message_at(&id, Some((1, 1)), NOW);
    match r.begin_message_at(&id, NOW + 1, 0, 0) {
        Err(RingError::RateLimited { provider, retry_after_ms }) => {
            assert_eq!(provider, "scheduler");
            assert_eq!(retry_after_ms, 60_000);
        }
        other => panic!("expected a rate limit, got {other:?}"),
    }
    assert_eq!(r.get_fighter(&id).unwrap().status, FighterStatus::Resting);
}

#[test]
fn fighter_over_budget_is_refused() {
    let mut r = ring();
    let id = FighterId::new();
    r.spawn_fighter_with_id(id, "alpha".to_string(), "m".to_string());
    let mut limit = BudgetLimit::default();
    limit.max_cost_per_day_cents = Some(100);
    r.budget.set_fighter_limit(id, limit);
    assert!(matches!(r.begin_message_at(&id, NOW, 150, 150), Err(RingError::RateLimited { .. })));
    assert_eq!(r.get_fighter(&id).unwrap().status, FighterStatus::Resting);
}

#[test]
fn budget_refusal_names_the_reason_and_the_wait() {
    let mut r = ring();
    let id = FighterId::new();
    r.spawn_fighter_with_id(id, "alpha".to_string(), "m".to_string());
    let mut limit = BudgetLimit::default();
    limit.max_cost_per_day_cents = Some(100);
    r.budget.set_fighter_limit(id, limit);
    assert_eq!(
        r.begin_message_at(&id, NOW, 150, 0),
        Err(RingError::RateLimited {
            provider: "budget: daily cost budget exceeded: 150c / 100c".to_string(),
            retry_after_ms: 6_400_000,
        })
    );
    assert_eq!(r.metrics.counter_get("punch_messages_total"), 0);
    assert_eq!(r.get_fighter(&id).unwrap().current_bout, None);
}

#[test]
fn global_budget_refusal_names_the_global_limit() {
    let mut r = ring();
    let id = FighterId::new();
    r.spawn_fighter_with_id(id, "alpha".to_string(), "m".to_string());
    let mut limit = BudgetLimit::default();
    limit.max_cost_per_day_cents = Some(500);
    r.budget.set_global_limit(limit);
    match r.begin_message_at(&id, NOW, 0, 700) {
        Err(RingError::RateLimited { provider, .. }) => {
            assert_eq!(provider, "budget: global daily cost budget exceeded: 700c / 500c")
        }
        other => panic!("expected a rate limit, got {other:?}"),
    }
}

#[test]
fn open_bout_is_reused_and_not_announced_again() {
    let mut r = ring();
    let id = FighterId::new();
    r.spawn_fighter_with_id(id, "alpha".to_string(), "m".to_string());
    assert_eq!(r.start_fighting(&id, 7), Some(7));
    r.finish_message_at(&id, Some((1, 1)), NOW);
    assert_eq!(r.begin_message_at(&id, NOW + 1, 0, 0), Ok(Some(7)));
    assert_eq!(r.start_fighting(&id, 7), None);
    assert_eq!(r.metrics.counter_get("punch_messages_total"), 2);
    assert_eq!(r.start_fighting(&FighterId::new(), 9), None);
}

#[test]
fn task_fighter_is_spawned_and_removed() {
    let mut r = ring();
    let mut board = A2ATaskBoard::new();
    let input = A2ATaskInput {
        prompt_field: Some("hi".to_string()),
        message_field: None,
        as_text: None,
        json_text: "{\"prompt\":\"hi\"}".to_string(),
        context: Vec::new(),
    };
    board.add(A2ATask {
        id: "task-abcdefgh-1".to_string(),
        status: A2ATaskStatus::Running,
        input: input.clone(),
        output: None,
        created_at: NOW,
        updated_at: NOW,
    });
    let (fid, manifest) = spawn_task_fighter(&mut r, "task-abcdefgh-1", &input, "m1");
    assert_eq!(manifest.name, "a2a-task-task-abc");
    let e = r.get_fighter(&fid).unwrap();
    assert_eq!(e.name, "a2a-task-task-abc");
    assert_eq!(e.model, "m1");
    assert_eq!(e.status, FighterStatus::Idle);
    assert!(finish_task_run(&mut board, &mut r, "task-abcdefgh-1", &fid, Err("boom".to_string()), NOW + 1));
    assert!(r.get_fighter(&fid).is_none());
    assert!(matches!(board.get("task-abcdefgh-1").unwrap().status, A2ATaskStatus::Failed(ref m) if m == "boom"));
}

#[test]
fn kill_fighter_removes_it() {
    let mut r = ring();
    let id = FighterId::new();
    r.spawn_fighter_with_id(id, "alpha".to_string(), "m".to_string());
    assert!(r.kill_fighter(&id).is_some());
    assert!(r.get_fighter(&id).is_none());
    assert!(r.kill_fighter(&id).is_none());
}

#[test]
fn find_fighter_by_name_finds_first() {
    let mut r = ring();
    let a = FighterId::new();
    let b = FighterId::new();
    r.spawn_fighter_with_id(a, "alpha".to_string(), "m".to_string());
    r.spawn_fighter_with_id(b, "beta".to_string(), "m".to_string());
    assert_eq!(r.find_fighter_by_name("beta"), Some(b));
    assert_eq!(r.find_fighter_by_name("gamma"), None);
}

fn tenant_with(reg: &mut TenantRegistry, max_fighters: usize) -> TenantId {
    let t = TenantId::new();
    reg.register_tenant_at(t, "acme".to_string(), "key-1".to_string(), TenantQuota { max_fighters, max_tools: Vec::new() }, NOW);
    t
}

#[test]
fn tenant_spawn_respects_quota() {
    let mut r = ring();
    let mut reg = TenantRegistry::new();
    let t = tenant_with(&mut reg, 2);
    let a = r.spawn_fighter_for_tenant(&reg, &t, "a".to_string(), "m".to_string()).unwrap();
    let _b = r.spawn_fighter_for_tenant(&reg, &t, "b".to_string(), "m".to_string()).unwrap();
    assert_eq!(r.get_fighter(&a).unwrap().tenant_id, Some(t));
    assert_eq!(
        r.spawn_fighter_for_tenant(&reg, &t, "c".to_string(), "m".to_string()),
        Err(RingError::FighterQuotaExceeded { tenant: t, max: 2 })
    );
    assert_eq!(r.list_fighters_for_tenant(&t).len(), 2);
}

#[test]
fn tenant_spawn_refused_for_unknown_or_suspended() {
    let mut r = ring();
    let mut reg = TenantRegistry::new();
    let unknown = TenantId::new();
    assert_eq!(
        r.spawn_fighter_for_tenant(&reg, &unknown, "a".to_string(), "m".to_string()),
        Err(RingError::TenantNotFound(unknown))
    );
    let t = tenant_with(&mut reg, 5);
    reg.suspend_tenant(&t).unwrap();
    assert_eq!(
        r.spawn_fighter_for_tenant(&reg, &t, "a".to_string(), "m".to_string()),
        Err(RingError::TenantSuspended(t))
    );
}

#[test]
fn tenant_lists_only_its_fighters() {
    let mut r = ring();
    let mut reg = TenantRegistry::new();
    let t1 = tenant_with(&mut reg, 5);
    let t2 = tenant_with(&mut reg, 5);
    let a = r.spawn_fighter_for_tenant(&reg, &t1, "a".to_string(), "m".to_string()).unwrap();
    let _b = r.spawn_fighter_for_tenant(&reg, &t2, "b".to_string(), "m".to_string()).unwrap();
    r.spawn_fighter_with_id(FighterId::new(), "c".to_string(), "m".to_string());
    let listed = r.list_fighters_for_tenant(&t1);
    assert_eq!(listed.len(), 1);
    assert_eq!(listed[0].0, a);
    assert_eq!(listed[0].1, "a");
    assert_eq!(listed[0].2, FighterStatus::Idle);
}

#[test]
fn tenant_kill_checks_ownership() {
    let mut r = ring();
    let mut reg = TenantRegistry::new();
    let t1 = tenant_with(&mut reg, 5);
    let t2 = tenant_with(&mut reg, 5);
    let a = r.spawn_fighter_for_tenant(&reg, &t1, "a".to_string(), "m".to_string()).unwrap();
    assert_eq!(r.kill_fighter_for_tenant(&a, &t2), Err(RingError::NotOwnedByTenant { fighter: a, tenant: t2 }));
    assert!(r.get_fighter(&a).is_some());
    assert_eq!(r.kill_fighter_for_tenant(&a, &t1), Ok(()));
    assert!(r.get_fighter(&a).is_none());
    assert_eq!(r.kill_fighter_for_tenant(&a, &t1), Err(RingError::FighterNotFound(a)));
}

fn gorilla_manifest(name: &str) -> punch::executor::GorillaManifest {
    punch::executor::GorillaManifest {
        name: name.to_string(),
        description: format!("{name} description"),
        schedule: "every 30m".to_string(),
        moves_required: Vec::new(),
        settings_schema: None,
        dashboard_metrics: Vec::new(),
        system_prompt: None,
        model: None,
        capabilities: Vec::new(),
        weight_class: None,
    }
}

#[test]
fn registered_gorilla_is_caged() {
    let mut r = ring();
    let id = r.register_gorilla(gorilla_manifest("alpha"));
    let listed = r.list_gorillas();
    assert_eq!(listed.len(), 1);
    assert_eq!(listed[0].0, id);
    assert_eq!(listed[0].1, "alpha");
    assert_eq!(listed[0].2, punch::executor::GorillaStatus::Caged);
    assert_eq!(r.get_gorilla_manifest(&id).unwrap().schedule, "every 30m");
}

#[test]
fn unleash_and_cage_gorilla() {
    let mut r = ring();
    let id = r.register_gorilla(gorilla_manifest("alpha"));
    assert_eq!(r.unleash_gorilla_at(&id, NOW), Ok(()));
    assert!(r.background.is_running(&id));
    assert_eq!(r.metrics.counter_get(punch::metrics::GORILLA_RUNS_TOTAL), 1);
    assert_eq!(r.metrics.gauge_get(punch::metrics::ACTIVE_GORILLAS), 1);
    assert_eq!(r.unleash_gorilla_at(&id, NOW), Err(RingError::GorillaAlreadyActive(id)));
    assert_eq!(r.cage_gorilla(&id), Ok(()));
    assert!(!r.background.is_running(&id));
    assert_eq!(r.metrics.gauge_get(punch::metrics::ACTIVE_GORILLAS), 0);
    assert_eq!(r.list_gorillas()[0].2, punch::executor::GorillaStatus::Caged);
}

#[test]
fn unknown_gorilla_is_refused() {
    let mut r = ring();
    let id = punch::ids::GorillaId::new();
    assert_eq!(r.unleash_gorilla_at(&id, NOW), Err(RingError::GorillaNotFound(id)));
    assert_eq!(r.cage_gorilla(&id), Err(RingError::GorillaNotFound(id)));
}

#[test]
fn find_gorilla_by_name_ignores_ascii_case() {
    let mut r = ring();
    let id = r.register_gorilla(gorilla_manifest("Health Monitor"));
    assert_eq!(r.find_gorilla_by_name("health monitor"), Some(id));
    assert_eq!(r.find_gorilla_by_name("HEALTH MONITOR"), Some(id));
    assert_eq!(r.find_gorilla_by_name("health"), None);
}

#[test]
fn ring_shutdown_stops_background_gorillas() {
    let mut r = ring();
    let a = r.register_gorilla(gorilla_manifest("a"));
    let b = r.register_gorilla(gorilla_manifest("b"));
    r.unleash_gorilla_at(&a, NOW).unwrap();
    r.unleash_gorilla_at(&b, NOW).unwrap();
    assert_eq!(r.shutdown(), 2);
    assert!(!r.background.is_running(&a));
    assert_eq!(r.background.running_count(), 0);
}

#[test]
fn spawn_and_kill_track_fighter_metrics() {
    let mut r = ring();
    let a = r.spawn_fighter("a".to_string(), "m".to_string());
    let _b = r.spawn_fighter("b".to_string(), "m".to_string());
    assert_eq!(r.metrics.counter_get(punch::metrics::FIGHTER_SPAWNS_TOTAL), 2);
    assert_eq!(r.metrics.gauge_get(punch::metrics::ACTIVE_FIGHTERS), 2);
    r.kill_fighter(&a);
    assert_eq!(r.metrics.gauge_get(punch::metrics::ACTIVE_FIGHTERS), 1);
    assert_eq!(r.metrics.counter_get(punch::metrics::FIGHTER_SPAWNS_TOTAL), 2);
}
