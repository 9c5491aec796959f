use punch::duration::Duration;
use punch::executor::{
    CircuitBreaker, ExecutorConfig, ExecutorError, GorillaExecutor, GorillaManifest, GorillaOutput,
    GorillaStatus,
};
use punch::ids::GorillaId;

fn test_manifest(name: &str) -> GorillaManifest {
    GorillaManifest {
        name: name.to_string(),
        description: format!("{name} description"),
        schedule: "*/5 * * * *".to_string(),
        moves_required: Vec::new(),
        settings_schema: None,
        dashboard_metrics: Vec::new(),
        system_prompt: None,
        model: None,
        capabilities: Vec::new(),
        weight_class: None,
    }
}

fn test_output() -> GorillaOutput {
    GorillaOutput { summary: "Test completed".to_string(), artifacts: vec!["artifact.txt".to_string()], next_run: None }
}

const NOW: i64 = 1_700_000_000_000;

/// Put a registered gorilla into the running state through the API.
fn run(executor: &mut GorillaExecutor, id: &GorillaId) {
    executor.unleash(id).unwrap();
    executor.begin_execution_at(id, NOW).unwrap();
}

#[test]
fn executor_register_and_list() {
    let mut executor = GorillaExecutor::new();
    let id = GorillaId::new();
    executor.register(id, test_manifest("test"));
    let list = executor.list();
    assert_eq!(list.len(), 1);
    assert_eq!(list[0].0, id);
    assert_eq!(list[0].1, GorillaStatus::Caged);
}

#[test]
fn executor_unregister() {
    let mut executor = GorillaExecutor::new();
    let id = GorillaId::new();
    executor.register(id, test_manifest("test"));
    executor.unregister(&id);
    assert!(executor.get_status(&id).is_none());
}

#[test]
fn executor_unleash_and_cage() {
    let mut executor = GorillaExecutor::new();
    let id = GorillaId::new();
    executor.register(id, test_manifest("test"));
    executor.unleash(&id).unwrap();
    assert_eq!(executor.get_status(&id), Some(GorillaStatus::Unleashed));
    executor.cage(&id).unwrap();
    assert_eq!(executor.get_status(&id), Some(GorillaStatus::Caged));
}

#[test]
fn executor_unleash_nonexistent() {
    let mut executor = GorillaExecutor::new();
    let id = GorillaId::new();
    assert_eq!(executor.unleash(&id), Err(ExecutorError::NotFound(id)));
}

#[test]
fn executor_can_execute_caged() {
    let mut executor = GorillaExecutor::new();
    let id = GorillaId::new();
    executor.register(id, test_manifest("test"));
    assert!(!executor.can_execute(&id).unwrap());
}

#[test]
fn executor_can_execute_unleashed() {
    let mut executor = GorillaExecutor::new();
    let id = GorillaId::new();
    executor.register(id, test_manifest("test"));
    executor.unleash(&id).unwrap();
    assert!(executor.can_execute(&id).unwrap());
}

#[test]
fn executor_begin_execution() {
    let mut executor = GorillaExecutor::new();
    let id = GorillaId::new();
    executor.register(id, test_manifest("test"));
    executor.unleash(&id).unwrap();
    let manifest = executor.begin_execution(&id).unwrap();
    assert_eq!(manifest.name, "test");
    assert_eq!(executor.get_status(&id), Some(GorillaStatus::Rampaging));
}

#[test]
fn caged_gorilla_cannot_begin() {
    let mut executor = GorillaExecutor::new();
    let id = GorillaId::new();
    executor.register(id, test_manifest("caged"));
    assert_eq!(executor.get_status(&id), Some(GorillaStatus::Caged));
    assert!(matches!(executor.begin_execution_at(&id, NOW), Err(ExecutorError::Caged(e)) if e == id));
    assert!(executor.begin_execution(&id).is_err());
    assert_eq!(executor.get_status(&id), Some(GorillaStatus::Caged));
}

#[test]
fn executor_begin_execution_injured() {
    let config = ExecutorConfig { circuit_breaker_threshold: 1, ..Default::default() };
    let mut executor = GorillaExecutor::with_config(config);
    let id = GorillaId::new();
    executor.register(id, test_manifest("test"));
    run(&mut executor, &id);
    executor.record_failure_at(&id, NOW, "boom", 0, NOW).unwrap();
    assert_eq!(executor.get_status(&id), Some(GorillaStatus::Injured));
    assert!(executor.begin_execution_at(&id, NOW).is_err());
}

#[test]
fn executor_record_success() {
    let mut executor = GorillaExecutor::new();
    let id = GorillaId::new();
    executor.register(id, test_manifest("test"));
    run(&mut executor, &id);
    executor.record_success_at(&id, NOW - 5000, test_output(), 0, NOW).unwrap();
    assert_eq!(executor.get_status(&id), Some(GorillaStatus::Unleashed));
    let stats = executor.get_stats(&id).unwrap();
    assert_eq!(stats.run_count, 1);
    assert_eq!(stats.error_count, 0);
    let history = executor.get_history(&id).unwrap();
    assert_eq!(history[0].duration, Duration::from_secs(5));
}

#[test]
fn executor_record_failure() {
    let mut executor = GorillaExecutor::new();
    let id = GorillaId::new();
    executor.register(id, test_manifest("test"));
    run(&mut executor, &id);
    executor.record_failure_at(&id, NOW, "test error", 0, NOW).unwrap();
    let stats = executor.get_stats(&id).unwrap();
    assert_eq!(stats.error_count, 1);
}

#[test]
fn executor_circuit_breaker_trips() {
    let config = ExecutorConfig { circuit_breaker_threshold: 3, ..Default::default() };
    let mut executor = GorillaExecutor::with_config(config);
    let id = GorillaId::new();
    executor.register(id, test_manifest("test"));
    executor.unleash(&id).unwrap();
    for i in 0..3 {
        executor.record_failure_at(&id, NOW, &format!("error {}", i), 0, NOW).unwrap();
    }
    assert_eq!(executor.get_status(&id), Some(GorillaStatus::Injured));
    assert!(!executor.can_execute_at(&id, NOW).unwrap());
    let stats = executor.get_stats(&id).unwrap();
    assert!(stats.circuit_breaker_open);
    assert_eq!(stats.consecutive_failures, 3);
}

#[test]
fn executor_reset_circuit_breaker() {
    let config = ExecutorConfig { circuit_breaker_threshold: 1, ..Default::default() };
    let mut executor = GorillaExecutor::with_config(config);
    let id = GorillaId::new();
    executor.register(id, test_manifest("test"));
    executor.unleash(&id).unwrap();
    executor.record_failure_at(&id, NOW, "error", 0, NOW).unwrap();
    assert_eq!(executor.get_status(&id), Some(GorillaStatus::Injured));
    executor.reset_circuit_breaker(&id).unwrap();
    assert_eq!(executor.get_status(&id), Some(GorillaStatus::Caged));
    let stats = executor.get_stats(&id).unwrap();
    assert!(!stats.circuit_breaker_open);
}

#[test]
fn executor_retry_delay_exponential() {
    let executor = GorillaExecutor::new();
    assert_eq!(executor.retry_delay(0), Duration::from_secs(5));
    assert_eq!(executor.retry_delay(1), Duration::from_secs(10));
    assert_eq!(executor.retry_delay(2), Duration::from_secs(20));
}

#[test]
fn executor_retry_delay_capped() {
    let executor = GorillaExecutor::new();
    let d10 = executor.retry_delay(10);
    assert!(d10 <= ExecutorConfig::default().retry_max_delay);
    assert_eq!(executor.retry_delay(u32::MAX), ExecutorConfig::default().retry_max_delay);
}

#[test]
fn executor_execution_history() {
    let mut executor = GorillaExecutor::new();
    let id = GorillaId::new();
    executor.register(id, test_manifest("test"));
    executor.unleash(&id).unwrap();
    for i in 0..5 {
        let out = GorillaOutput { summary: format!("run {}", i), artifacts: Vec::new(), next_run: None };
        executor.record_success_at(&id, NOW, out, 0, NOW).unwrap();
    }
    let history = executor.get_history(&id).unwrap();
    assert_eq!(history.len(), 5);
    assert!(history[0].summary.as_deref() == Some("run 4"));
}

#[test]
fn executor_history_capped() {
    let config = ExecutorConfig { max_history_entries: 3, ..Default::default() };
    let mut executor = GorillaExecutor::with_config(config);
    let id = GorillaId::new();
    executor.register(id, test_manifest("test"));
    for i in 0..5 {
        let out = GorillaOutput { summary: format!("run {}", i), artifacts: Vec::new(), next_run: None };
        executor.record_success_at(&id, NOW, out, 0, NOW).unwrap();
    }
    let history = executor.get_history(&id).unwrap();
    assert_eq!(history.len(), 3);
    assert!(history[2].summary.as_deref() == Some("run 2"));
}

#[test]
fn executor_get_last_output() {
    let mut executor = GorillaExecutor::new();
    let id = GorillaId::new();
    executor.register(id, test_manifest("test"));
    assert!(executor.get_last_output(&id).is_none());
    executor.record_success_at(&id, NOW, test_output(), 0, NOW).unwrap();
    let output = executor.get_last_output(&id).unwrap();
    assert_eq!(output.summary, "Test completed");
}

#[test]
fn executor_stats_success_rate() {
    let mut executor = GorillaExecutor::new();
    let id = GorillaId::new();
    executor.register(id, test_manifest("test"));
    for _ in 0..3 {
        executor.record_success_at(&id, NOW, test_output(), 0, NOW).unwrap();
    }
    executor.record_failure_at(&id, NOW, "oops", 0, NOW).unwrap();
    let stats = executor.get_stats(&id).unwrap();
    assert_eq!(stats.run_count, 3);
    assert_eq!(stats.error_count, 1);
    let rate = stats.run_count as f64 / (stats.run_count + stats.error_count) as f64;
    assert!((rate - 0.75).abs() < f64::EPSILON);
}

#[test]
fn executor_default() {
    let executor = GorillaExecutor::default();
    assert!(executor.list().is_empty());
}

#[test]
fn circuit_breaker_new_allows() {
    let cb = CircuitBreaker::new();
    assert!(cb.should_allow(Duration::from_secs(60)));
}

#[test]
fn circuit_breaker_success_resets() {
    let mut cb = CircuitBreaker::new();
    cb.record_failure(3);
    cb.record_failure(3);
    cb.record_success();
    assert_eq!(cb.consecutive_failures, 0);
    assert!(!cb.is_open);
}

#[test]
fn circuit_breaker_reopens_after_reset_window() {
    let mut cb = CircuitBreaker::new();
    cb.record_failure_at(1, NOW);
    assert!(cb.is_open);
    assert!(!cb.should_allow_at(Duration::from_secs(60), NOW + 59_999));
    assert!(!cb.should_allow_at(Duration::from_secs(60), NOW + 60_000));
    assert!(cb.should_allow_at(Duration::from_secs(60), NOW + 60_001));
}

#[test]
fn executor_errors_for_unknown_gorilla() {
    let mut executor = GorillaExecutor::new();
    let id = GorillaId::new();
    assert_eq!(executor.cage(&id), Err(ExecutorError::NotFound(id)));
    assert_eq!(executor.can_execute_at(&id, NOW), Err(ExecutorError::NotFound(id)));
    assert!(executor.record_success_at(&id, NOW, test_output(), 0, NOW).is_err());
    assert!(executor.get_history(&id).is_none());
}
