use punch::gorilla_triggers::{
    new_trigger, ChainEvaluator, CronEvaluator, FileWatchEvaluator, GorillaTrigger, GorillaTriggerEngine,
    GorillaTriggerId, ManualEvaluator, MessageEvaluator, TriggerEvaluator, TriggerType, WebhookEvaluator,
};
use punch::ids::GorillaId;

const NOW: i64 = 1_700_000_000_000;

fn make_cron_trigger(gid: GorillaId) -> GorillaTrigger {
    new_trigger(gid, "cron-test", TriggerType::Cron { schedule: "*/5 * * * *".to_string() })
}

fn make_manual_trigger(gid: GorillaId) -> GorillaTrigger {
    new_trigger(gid, "manual-test", TriggerType::Manual)
}

fn make_message_trigger(gid: GorillaId, keywords: Vec<&str>) -> GorillaTrigger {
    new_trigger(
        gid,
        "message-test",
        TriggerType::Message {
            channel: "general".to_string(),
            keywords: keywords.into_iter().map(String::from).collect(),
        },
    )
}

fn make_chain_trigger(gid: GorillaId, source: GorillaId) -> GorillaTrigger {
    new_trigger(gid, "chain-test", TriggerType::Chain { source_gorilla: source, on_success_only: true })
}

fn make_webhook_trigger(gid: GorillaId) -> GorillaTrigger {
    new_trigger(gid, "webhook-test", TriggerType::Webhook { path: "/hooks/test".to_string(), secret: None })
}

fn make_filewatch_trigger(gid: GorillaId) -> GorillaTrigger {
    new_trigger(
        gid,
        "filewatch-test",
        TriggerType::FileWatch { paths: vec!["/tmp".to_string()], patterns: vec!["*.log".to_string()] },
    )
}

#[test]
fn register_and_list_triggers() {
    let mut engine = GorillaTriggerEngine::new();
    let gid = GorillaId::new();
    engine.register(make_cron_trigger(gid));
    engine.register(make_manual_trigger(gid));
    assert_eq!(engine.list().len(), 2);
}

#[test]
fn remove_trigger() {
    let mut engine = GorillaTriggerEngine::new();
    let gid = GorillaId::new();
    let id = engine.register(make_cron_trigger(gid));
    engine.remove(&id);
    assert!(engine.get(&id).is_none());
}

#[test]
fn manual_trigger_fires() {
    let mut engine = GorillaTriggerEngine::new();
    let gid = GorillaId::new();
    engine.register(make_manual_trigger(gid));
    let fired = engine.evaluate(&ManualEvaluator);
    assert_eq!(fired.len(), 1);
    assert_eq!(fired[0], gid);
}

#[test]
fn cron_trigger_fires() {
    let mut engine = GorillaTriggerEngine::new();
    let gid = GorillaId::new();
    engine.register(make_cron_trigger(gid));
    let fired = engine.evaluate(&CronEvaluator { now: NOW });
    assert_eq!(fired.len(), 1);
}

#[test]
fn message_trigger_keyword_match() {
    let mut engine = GorillaTriggerEngine::new();
    let gid = GorillaId::new();
    engine.register(make_message_trigger(gid, vec!["deploy", "release"]));
    let evaluator = MessageEvaluator { message: "please deploy the app".to_string(), channel: "general".to_string() };
    assert_eq!(engine.evaluate(&evaluator).len(), 1);
}

#[test]
fn message_trigger_no_match() {
    let mut engine = GorillaTriggerEngine::new();
    let gid = GorillaId::new();
    engine.register(make_message_trigger(gid, vec!["deploy"]));
    let evaluator = MessageEvaluator { message: "hello world".to_string(), channel: "general".to_string() };
    assert!(engine.evaluate(&evaluator).is_empty());
}

#[test]
fn message_trigger_wrong_channel() {
    let mut engine = GorillaTriggerEngine::new();
    let gid = GorillaId::new();
    engine.register(make_message_trigger(gid, vec!["deploy"]));
    let evaluator = MessageEvaluator { message: "deploy now".to_string(), channel: "random".to_string() };
    assert!(engine.evaluate(&evaluator).is_empty());
}

#[test]
fn message_trigger_empty_keywords_matches_all() {
    let mut engine = GorillaTriggerEngine::new();
    let gid = GorillaId::new();
    engine.register(make_message_trigger(gid, vec![]));
    let evaluator = MessageEvaluator { message: "anything at all".to_string(), channel: "general".to_string() };
    assert_eq!(engine.evaluate(&evaluator).len(), 1);
}

#[test]
fn message_trigger_case_insensitive() {
    let mut engine = GorillaTriggerEngine::new();
    let gid = GorillaId::new();
    engine.register(make_message_trigger(gid, vec!["Deploy"]));
    let evaluator = MessageEvaluator { message: "DEPLOY now".to_string(), channel: "general".to_string() };
    assert_eq!(engine.evaluate(&evaluator).len(), 1);
}

#[test]
fn chain_trigger_fires_on_success() {
    let mut engine = GorillaTriggerEngine::new();
    let source = GorillaId::new();
    let target = GorillaId::new();
    engine.register(make_chain_trigger(target, source));
    let fired = engine.evaluate(&ChainEvaluator { completed_gorilla: source, success: true });
    assert_eq!(fired.len(), 1);
    assert_eq!(fired[0], target);
}

#[test]
fn chain_trigger_does_not_fire_on_failure() {
    let mut engine = GorillaTriggerEngine::new();
    let source = GorillaId::new();
    let target = GorillaId::new();
    engine.register(make_chain_trigger(target, source));
    assert!(engine.evaluate(&ChainEvaluator { completed_gorilla: source, success: false }).is_empty());
}

#[test]
fn chain_trigger_wrong_source() {
    let mut engine = GorillaTriggerEngine::new();
    let source = GorillaId::new();
    let target = GorillaId::new();
    engine.register(make_chain_trigger(target, source));
    assert!(engine.evaluate(&ChainEvaluator { completed_gorilla: GorillaId::new(), success: true }).is_empty());
}

#[test]
fn webhook_trigger_fires() {
    let mut engine = GorillaTriggerEngine::new();
    let gid = GorillaId::new();
    engine.register(make_webhook_trigger(gid));
    assert_eq!(engine.evaluate(&WebhookEvaluator { path: "/hooks/test".to_string() }).len(), 1);
}

#[test]
fn webhook_trigger_wrong_path() {
    let mut engine = GorillaTriggerEngine::new();
    let gid = GorillaId::new();
    engine.register(make_webhook_trigger(gid));
    assert!(engine.evaluate(&WebhookEvaluator { path: "/hooks/other".to_string() }).is_empty());
}

#[test]
fn filewatch_trigger_fires() {
    let mut engine = GorillaTriggerEngine::new();
    let gid = GorillaId::new();
    engine.register(make_filewatch_trigger(gid));
    assert_eq!(engine.evaluate(&FileWatchEvaluator { changed_path: "/tmp/app.log".to_string() }).len(), 1);
}

#[test]
fn filewatch_trigger_wrong_extension() {
    let mut engine = GorillaTriggerEngine::new();
    let gid = GorillaId::new();
    engine.register(make_filewatch_trigger(gid));
    assert!(engine.evaluate(&FileWatchEvaluator { changed_path: "/tmp/app.txt".to_string() }).is_empty());
}

#[test]
fn filewatch_trigger_wrong_directory() {
    let mut engine = GorillaTriggerEngine::new();
    let gid = GorillaId::new();
    engine.register(make_filewatch_trigger(gid));
    assert!(engine.evaluate(&FileWatchEvaluator { changed_path: "/var/app.log".to_string() }).is_empty());
}

#[test]
fn disabled_trigger_does_not_fire() {
    let mut engine = GorillaTriggerEngine::new();
    let gid = GorillaId::new();
    let mut trigger = make_manual_trigger(gid);
    trigger.enabled = false;
    engine.register(trigger);
    assert!(engine.evaluate(&ManualEvaluator).is_empty());
}

#[test]
fn max_fires_respected() {
    let mut engine = GorillaTriggerEngine::new();
    let gid = GorillaId::new();
    let mut trigger = make_manual_trigger(gid);
    trigger.max_fires = 2;
    engine.register(trigger);
    assert_eq!(engine.evaluate(&ManualEvaluator).len(), 1);
    assert_eq!(engine.evaluate(&ManualEvaluator).len(), 1);
    assert_eq!(engine.evaluate(&ManualEvaluator).len(), 0);
}

#[test]
fn enable_disable_trigger() {
    let mut engine = GorillaTriggerEngine::new();
    let gid = GorillaId::new();
    let id = engine.register(make_manual_trigger(gid));
    engine.disable(&id).unwrap();
    assert!(engine.evaluate(&ManualEvaluator).is_empty());
    engine.enable(&id).unwrap();
    assert_eq!(engine.evaluate(&ManualEvaluator).len(), 1);
}

#[test]
fn get_triggers_for_gorilla() {
    let mut engine = GorillaTriggerEngine::new();
    let gid1 = GorillaId::new();
    let gid2 = GorillaId::new();
    engine.register(make_cron_trigger(gid1));
    engine.register(make_manual_trigger(gid1));
    engine.register(make_cron_trigger(gid2));
    assert_eq!(engine.get_triggers_for_gorilla(&gid1).len(), 2);
    assert_eq!(engine.get_triggers_for_gorilla(&gid2).len(), 1);
}

#[test]
fn triggers_trigger_engine_default() {
    let engine = GorillaTriggerEngine::default();
    assert!(engine.list().is_empty());
}

#[test]
fn triggers_trigger_id_display() {
    let id = GorillaTriggerId::new();
    let s = id.to_string();
    assert!(!s.is_empty());
    assert_eq!(GorillaTriggerId(0x1234).to_string(), "00000000-0000-0000-0000-000000001234");
}

#[test]
fn triggers_trigger_id_default() {
    let id = GorillaTriggerId::default();
    assert_ne!(id.0, 0);
}

#[test]
fn trigger_fire_count_increments() {
    let mut engine = GorillaTriggerEngine::new();
    let gid = GorillaId::new();
    let id = engine.register(make_manual_trigger(gid));
    engine.evaluate_at(&ManualEvaluator, NOW);
    engine.evaluate_at(&ManualEvaluator, NOW + 1);
    let t = engine.get(&id).unwrap();
    assert_eq!(t.fire_count, 2);
    assert_eq!(t.last_fired, Some(NOW + 1));
}

#[test]
fn new_trigger_helper() {
    let gid = GorillaId::new();
    let trigger = new_trigger(gid, "test", TriggerType::Manual);
    assert_eq!(trigger.name, "test");
    assert_eq!(trigger.gorilla_id, gid);
    assert!(trigger.enabled);
    assert_eq!(trigger.fire_count, 0);
}

#[test]
fn enable_nonexistent_trigger() {
    let mut engine = GorillaTriggerEngine::new();
    let id = GorillaTriggerId::new();
    assert!(engine.enable(&id).is_err());
}

#[test]
fn disable_nonexistent_trigger() {
    let mut engine = GorillaTriggerEngine::new();
    let id = GorillaTriggerId::new();
    assert!(engine.disable(&id).is_err());
}

#[test]
fn evaluator_descriptions() {
    assert_eq!(CronEvaluator { now: NOW }.description(), "cron/schedule trigger");
    assert_eq!(ManualEvaluator.description(), "manual trigger");
    let m = MessageEvaluator { message: "hi".to_string(), channel: "general".to_string() };
    assert_eq!(m.description(), "message trigger on channel 'general'");
    let w = WebhookEvaluator { path: "/hooks/a".to_string() };
    assert_eq!(w.description(), "webhook trigger on path '/hooks/a'");
    let f = FileWatchEvaluator { changed_path: "/tmp/x.rs".to_string() };
    assert_eq!(f.description(), "file watch trigger for '/tmp/x.rs'");
    let g = punch::ids::GorillaId(0x1234);
    let c = ChainEvaluator { completed_gorilla: g, success: true };
    assert_eq!(c.description(), format!("chain trigger from gorilla {}", g.to_string()));
}

#[test]
fn filewatch_compares_whole_path_components() {
    let mut engine = GorillaTriggerEngine::new();
    let gid = GorillaId::new();
    engine.register(make_filewatch_trigger(gid));
    assert!(engine.evaluate(&FileWatchEvaluator { changed_path: "/tmpfiles/app.log".to_string() }).is_empty());
    assert_eq!(engine.evaluate(&FileWatchEvaluator { changed_path: "//tmp/./sub/app.log".to_string() }).len(), 1);
    assert!(engine.evaluate(&FileWatchEvaluator { changed_path: "tmp/app.log".to_string() }).is_empty());
}
