use punch::ids::FighterId;
use punch::patterns::{
    chain_find_handler, chain_walk, execute_map_reduce, map_reduce_merge, map_split, scatter_consensus,
    scatter_fastest, supervisor_handle_failure, ChainHandler, MapReduceConfig, RestartStrategy, ScatterResponse,
    SupervisedWorker, SupervisorConfig,
};

#[test]
fn test_map_split_even() {
    let chunks = map_split("line1\nline2\nline3\nline4", 2);
    assert_eq!(chunks.len(), 2);
    assert!(chunks[0].contains("line1"));
    assert!(chunks[1].contains("line3"));
}

#[test]
fn test_map_split_uneven() {
    assert_eq!(map_split("line1\nline2\nline3", 2).len(), 2);
}

#[test]
fn test_map_split_single_worker() {
    let chunks = map_split("line1\nline2", 1);
    assert_eq!(chunks.len(), 1);
    assert!(chunks[0].contains("line1"));
    assert!(chunks[0].contains("line2"));
}

#[test]
fn test_map_split_zero_workers() {
    assert!(map_split("anything", 0).is_empty());
}

#[test]
fn test_map_split_empty_input() {
    assert_eq!(map_split("", 3).len(), 1);
}

#[test]
fn map_split_exact_chunks() {
    assert_eq!(map_split("a\nb\nc", 2), vec!["a\nb".to_string(), "c".to_string()]);
}

#[test]
fn test_map_reduce_merge() {
    let f1 = FighterId::new();
    let f2 = FighterId::new();
    let results = vec![(f1, "result1".to_string()), (f2, "result2".to_string())];
    let merged = map_reduce_merge(&results);
    assert!(merged.contains("result1"));
    assert!(merged.contains("result2"));
}

#[test]
fn map_reduce_merge_orders_by_worker_id() {
    let results = vec![(FighterId(2), "second".to_string()), (FighterId(1), "first".to_string())];
    assert_eq!(map_reduce_merge(&results), "first\n\nsecond");
}

#[test]
fn test_execute_map_reduce() {
    let f1 = FighterId::new();
    let f2 = FighterId::new();
    let config = MapReduceConfig { input: "data".to_string(), workers: vec![f1, f2] };
    let results = vec![(f1, "processed-1".to_string()), (f2, "processed-2".to_string())];
    let mr_result = execute_map_reduce(&config, results);
    assert_eq!(mr_result.map_results.len(), 2);
    assert!(mr_result.reduced.contains("processed"));
}

fn handler(id: FighterId, cap: &str) -> ChainHandler {
    ChainHandler { fighter_id: id, capabilities: vec![cap.to_string()] }
}

#[test]
fn test_chain_find_handler_match() {
    let f1 = FighterId::new();
    let f2 = FighterId::new();
    let chain = vec![handler(f1, "code"), handler(f2, "review")];
    assert_eq!(chain_find_handler(&chain, "please review this PR"), Some(f2));
}

#[test]
fn test_chain_find_handler_first_match() {
    let f1 = FighterId::new();
    let f2 = FighterId::new();
    let chain = vec![handler(f1, "code"), handler(f2, "code")];
    assert_eq!(chain_find_handler(&chain, "analyze code quality"), Some(f1));
}

#[test]
fn test_chain_find_handler_no_match() {
    let chain = vec![handler(FighterId::new(), "database")];
    assert!(chain_find_handler(&chain, "fix CSS styling").is_none());
}

#[test]
fn test_chain_walk() {
    let f1 = FighterId::new();
    let f2 = FighterId::new();
    let f3 = FighterId::new();
    let chain = vec![handler(f1, "a"), handler(f2, "b"), handler(f3, "c")];
    let answers = vec![(f1, false), (f2, true), (f3, true)];
    assert_eq!(chain_walk(&chain, "task", &answers), Some((f2, 1)));
}

#[test]
fn test_chain_walk_none_accept() {
    let f1 = FighterId::new();
    let chain = vec![handler(f1, "a")];
    assert!(chain_walk(&chain, "task", &[(f1, false)]).is_none());
}

fn response(text: &str, ms: u64) -> ScatterResponse {
    ScatterResponse { fighter_id: FighterId::new(), response: text.to_string(), response_time_ms: ms }
}

#[test]
fn test_scatter_select_fastest() {
    let responses = vec![response("slow", 500), response("fast", 100)];
    let best = scatter_fastest(&responses).map(|i| responses[i].response.as_str());
    assert_eq!(best, Some("fast"));
}

#[test]
fn test_scatter_select_consensus() {
    let responses = vec![response("yes", 100), response("yes", 200), response("no", 150)];
    let best = scatter_consensus(&responses).map(|i| responses[i].response.as_str());
    assert_eq!(best, Some("yes"));
}

#[test]
fn test_scatter_select_empty() {
    let responses: Vec<ScatterResponse> = vec![];
    assert!(scatter_fastest(&responses).is_none());
    assert!(scatter_consensus(&responses).is_none());
}

fn worker(id: FighterId, restarts: u32) -> SupervisedWorker {
    SupervisedWorker { fighter_id: id, restart_count: restarts, running: true, failed: false }
}

#[test]
fn test_supervisor_one_for_one_restart() {
    let f1 = FighterId::new();
    let f2 = FighterId::new();
    let mut config = SupervisorConfig {
        strategy: RestartStrategy::OneForOne,
        max_restarts: 3,
        workers: vec![worker(f1, 0), worker(f2, 0)],
    };
    let restarted = supervisor_handle_failure(&mut config, &f1);
    assert_eq!(restarted, vec![f1]);
    assert_eq!(config.workers[0].restart_count, 1);
    assert!(config.workers[0].running);
    assert_eq!(config.workers[1].restart_count, 0);
}

#[test]
fn test_supervisor_one_for_one_max_restarts() {
    let f1 = FighterId::new();
    let mut config =
        SupervisorConfig { strategy: RestartStrategy::OneForOne, max_restarts: 2, workers: vec![worker(f1, 2)] };
    let restarted = supervisor_handle_failure(&mut config, &f1);
    assert!(restarted.is_empty());
    assert!(config.workers[0].failed);
    assert!(!config.workers[0].running);
}

#[test]
fn test_supervisor_all_for_one_restart() {
    let f1 = FighterId::new();
    let f2 = FighterId::new();
    let f3 = FighterId::new();
    let mut config = SupervisorConfig {
        strategy: RestartStrategy::AllForOne,
        max_restarts: 3,
        workers: vec![worker(f1, 0), worker(f2, 0), worker(f3, 0)],
    };
    let restarted = supervisor_handle_failure(&mut config, &f1);
    assert_eq!(restarted.len(), 3);
    for w in &config.workers {
        assert_eq!(w.restart_count, 1);
        assert!(w.running);
    }
}

#[test]
fn test_supervisor_all_for_one_max_restarts() {
    let f1 = FighterId::new();
    let f2 = FighterId::new();
    let mut config = SupervisorConfig {
        strategy: RestartStrategy::AllForOne,
        max_restarts: 1,
        workers: vec![worker(f1, 1), worker(f2, 0)],
    };
    let restarted = supervisor_handle_failure(&mut config, &f1);
    assert!(restarted.is_empty());
    assert!(config.workers[0].failed);
}

#[test]
fn test_supervisor_repeated_failures() {
    let f = FighterId::new();
    let mut config =
        SupervisorConfig { strategy: RestartStrategy::OneForOne, max_restarts: 3, workers: vec![worker(f, 0)] };
    for i in 1..=3 {
        let restarted = supervisor_handle_failure(&mut config, &f);
        assert_eq!(restarted, vec![f]);
        assert_eq!(config.workers[0].restart_count, i);
    }
    let restarted = supervisor_handle_failure(&mut config, &f);
    assert!(restarted.is_empty());
    assert!(config.workers[0].failed);
}

#[test]
fn test_map_reduce_end_to_end() {
    let f1 = FighterId::new();
    let f2 = FighterId::new();
    let config = MapReduceConfig { input: "line1\nline2\nline3\nline4".to_string(), workers: vec![f1, f2] };
    let chunks = map_split(&config.input, config.workers.len());
    assert_eq!(chunks.len(), 2);
    let results = vec![(f1, format!("analyzed: {}", chunks[0])), (f2, format!("analyzed: {}", chunks[1]))];
    let mr = execute_map_reduce(&config, results);
    assert!(mr.reduced.contains("analyzed"));
    assert_eq!(mr.map_results.len(), 2);
}
