use punch::a2a::{
    build_task_system_prompt, extract_prompt, task_fighter_manifest, task_fighter_name, A2ATask, A2ATaskBoard,
    A2ATaskInput, A2ATaskStatus, LoopSummary,
};
use punch::duration::Duration;
use punch::ids::FighterId;
use punch::messaging::{AgentMessage, MessageChannel, MessagePriority, MessageRouter, RouterError, MAX_DEAD_LETTERS};
use punch::registry::{AgentRegistry, FighterManifest, WeightClass};

const NOW: i64 = 1_700_000_000_000;

// ---------------------------------------------------------------------------
// Agent templates
// ---------------------------------------------------------------------------

fn manifest(name: &str) -> FighterManifest {
    FighterManifest {
        name: name.to_string(),
        description: format!("{name} template"),
        model: "test-model".to_string(),
        system_prompt: "You help.".to_string(),
        capabilities: Vec::new(),
        weight_class: WeightClass::Middleweight,
        tenant_id: None,
    }
}

#[test]
fn registry_starts_empty() {
    let reg = AgentRegistry::new();
    assert!(reg.is_empty());
    assert_eq!(reg.len(), 0);
    assert!(reg.list_templates().is_empty());
}

#[test]
fn registry_lookup_ignores_case() {
    let mut reg = AgentRegistry::new();
    reg.register("Coder".to_string(), manifest("coder"));
    assert_eq!(reg.get_template("coder").map(|m| m.name.clone()), Some("coder".to_string()));
    assert_eq!(reg.get_template("CODER").map(|m| m.name.clone()), Some("coder".to_string()));
    assert!(reg.get_template("planner").is_none());
}

#[test]
fn registry_lists_names_sorted_and_lower_case() {
    let mut reg = AgentRegistry::new();
    reg.register("Zeta".to_string(), manifest("z"));
    reg.register("alpha".to_string(), manifest("a"));
    reg.register("Mid".to_string(), manifest("m"));
    assert_eq!(reg.list_templates(), vec!["alpha".to_string(), "mid".to_string(), "zeta".to_string()]);
    assert_eq!(reg.len(), 3);
}

#[test]
fn registry_register_replaces_same_name() {
    let mut reg = AgentRegistry::new();
    reg.register("coder".to_string(), manifest("first"));
    reg.register("CODER".to_string(), manifest("second"));
    assert_eq!(reg.len(), 1);
    assert_eq!(reg.get_template("Coder").map(|m| m.name.clone()), Some("second".to_string()));
}

#[test]
fn registry_unregister() {
    let mut reg = AgentRegistry::new();
    reg.register("coder".to_string(), manifest("coder"));
    let removed = reg.unregister("Coder");
    assert_eq!(removed.map(|m| m.name), Some("coder".to_string()));
    assert!(reg.is_empty());
    assert!(reg.unregister("coder").is_none());
}

// ---------------------------------------------------------------------------
// A2A tasks
// ---------------------------------------------------------------------------

fn input_with(prompt: Option<&str>, message: Option<&str>, text: Option<&str>, json: &str) -> A2ATaskInput {
    A2ATaskInput {
        prompt_field: prompt.map(|s| s.to_string()),
        message_field: message.map(|s| s.to_string()),
        as_text: text.map(|s| s.to_string()),
        json_text: json.to_string(),
        context: Vec::new(),
    }
}

#[test]
fn test_extract_prompt_structured() {
    let input = input_with(Some("Summarize this code"), None, None, "{\"prompt\":\"Summarize this code\"}");
    assert_eq!(extract_prompt(&input), "Summarize this code");
}

#[test]
fn test_extract_prompt_message_field() {
    let input = input_with(None, Some("Hello agent"), None, "{\"message\":\"Hello agent\"}");
    assert_eq!(extract_prompt(&input), "Hello agent");
}

#[test]
fn test_extract_prompt_string_value() {
    let input = input_with(None, None, Some("just text"), "\"just text\"");
    assert_eq!(extract_prompt(&input), "just text");
}

#[test]
fn test_extract_prompt_fallback_json() {
    let input = input_with(None, None, None, "{\"data\":42}");
    assert_eq!(extract_prompt(&input), "{\"data\":42}");
}

#[test]
fn system_prompt_without_context() {
    let input = input_with(Some("x"), None, None, "{}");
    let p = build_task_system_prompt(&input);
    assert_eq!(
        p,
        "You are an AI agent executing a task received via the A2A protocol. Complete the task thoroughly and return a clear, actionable response."
    );
}

#[test]
fn system_prompt_with_context() {
    let mut input = input_with(Some("x"), None, None, "{}");
    input.context = vec![("lang".to_string(), "\"rust\"".to_string()), ("n".to_string(), "3".to_string())];
    let p = build_task_system_prompt(&input);
    assert!(p.ends_with("\n\n## Task Context\n- **lang**: \"rust\"\n- **n**: 3\n"));
}

#[test]
fn fighter_name_takes_eight_bytes_of_id() {
    assert_eq!(task_fighter_name("0123456789abcdef"), "a2a-task-01234567");
    assert_eq!(task_fighter_name("abc"), "a2a-task-abc");
    assert_eq!(task_fighter_name("ééééé"), "a2a-task-éééé");
}

#[test]
fn fighter_manifest_for_task() {
    let input = input_with(Some("x"), None, None, "{}");
    let m = task_fighter_manifest("task-1234-5678", &input, "m1");
    assert_eq!(m.name, "a2a-task-task-123");
    assert_eq!(m.description, "Temporary fighter for A2A task task-1234-5678");
    assert_eq!(m.model, "m1");
    assert_eq!(m.weight_class, WeightClass::Middleweight);
    assert!(m.capabilities.is_empty());
    assert!(m.tenant_id.is_none());
}

fn task(id: &str, status: A2ATaskStatus) -> A2ATask {
    A2ATask {
        id: id.to_string(),
        status,
        input: input_with(Some("hello world"), None, None, "{\"prompt\":\"hello world\"}"),
        output: None,
        created_at: NOW,
        updated_at: NOW,
    }
}

fn status_name(s: &A2ATaskStatus) -> String {
    match s {
        A2ATaskStatus::Pending => "pending".to_string(),
        A2ATaskStatus::Running => "running".to_string(),
        A2ATaskStatus::Completed => "completed".to_string(),
        A2ATaskStatus::Failed(e) => format!("failed: {e}"),
        A2ATaskStatus::Cancelled => "cancelled".to_string(),
    }
}

#[test]
fn claim_takes_only_pending_tasks() {
    let mut board = A2ATaskBoard::new();
    board.add(task("a", A2ATaskStatus::Pending));
    board.add(task("b", A2ATaskStatus::Completed));
    board.add(task("c", A2ATaskStatus::Pending));
    let ids = board.claim_pending(NOW + 5);
    assert_eq!(ids, vec!["a".to_string(), "c".to_string()]);
    assert_eq!(status_name(&board.get("a").unwrap().status), "running");
    assert_eq!(board.get("a").unwrap().updated_at, NOW + 5);
    assert_eq!(status_name(&board.get("b").unwrap().status), "completed");
    assert!(board.claim_pending(NOW + 10).is_empty());
}

#[test]
fn add_replaces_task_with_same_id() {
    let mut board = A2ATaskBoard::new();
    board.add(task("a", A2ATaskStatus::Pending));
    board.add(task("a", A2ATaskStatus::Cancelled));
    assert_eq!(board.len(), 1);
    assert_eq!(status_name(&board.get("a").unwrap().status), "cancelled");
}

#[test]
fn outcome_completes_or_fails_the_task() {
    let mut board = A2ATaskBoard::new();
    board.add(task("ok", A2ATaskStatus::Running));
    board.add(task("bad", A2ATaskStatus::Running));
    let summary = LoopSummary { response: "done".to_string(), tokens_used: 120, iterations: 2, tool_calls: 1 };
    assert!(board.record_outcome("ok", Ok(summary), NOW + 1));
    assert!(board.record_outcome("bad", Err("boom".to_string()), NOW + 2));
    let ok = board.get("ok").unwrap();
    assert_eq!(status_name(&ok.status), "completed");
    let out = ok.output.as_ref().unwrap();
    assert_eq!(out.content, "done");
    assert_eq!(out.tokens_used, 120);
    assert_eq!(out.iterations, 2);
    assert_eq!(out.tool_calls, 1);
    assert_eq!(status_name(&board.get("bad").unwrap().status), "failed: boom");
    assert_eq!(board.get("bad").unwrap().updated_at, NOW + 2);
}

#[test]
fn cancelled_task_is_not_overwritten() {
    let mut board = A2ATaskBoard::new();
    board.add(task("c", A2ATaskStatus::Cancelled));
    assert!(board.record_outcome("c", Err("late".to_string()), NOW + 3));
    assert_eq!(status_name(&board.get("c").unwrap().status), "cancelled");
    assert_eq!(board.get("c").unwrap().updated_at, NOW);
    assert!(!board.record_outcome("missing", Err("x".to_string()), NOW));
}

// ---------------------------------------------------------------------------
// Messaging
// ---------------------------------------------------------------------------

#[test]
fn test_register_and_receive() {
    let mut router: MessageRouter<String> = MessageRouter::new();
    let f1 = FighterId::new();
    let f2 = FighterId::new();
    let mut rx1 = router.register(f1);
    let _rx2 = router.register(f2);
    let id = router.send_direct(f2, f1, "done".to_string(), MessagePriority::Normal).expect("should deliver");
    let received = rx1.try_recv().expect("should receive");
    assert_eq!(received.id, id);
    assert_eq!(received.from, f2);
    assert_eq!(received.content, "done");
}

#[test]
fn test_broadcast_excludes_sender() {
    let mut router: MessageRouter<String> = MessageRouter::new();
    let sender = FighterId::new();
    let a = FighterId::new();
    let b = FighterId::new();
    let mut rx_s = router.register(sender);
    let mut rx_a = router.register(a);
    let mut rx_b = router.register(b);
    let ids = router.broadcast(sender, "hi".to_string(), MessagePriority::Normal);
    assert_eq!(ids.len(), 2);
    assert_eq!(rx_a.try_recv().unwrap().from, sender);
    assert_eq!(rx_b.try_recv().unwrap().from, sender);
    assert!(rx_s.try_recv().is_err());
}

#[test]
fn test_multicast() {
    let mut router: MessageRouter<String> = MessageRouter::new();
    let sender = FighterId::new();
    let a = FighterId::new();
    let b = FighterId::new();
    let mut rx_a = router.register(a);
    let mut rx_b = router.register(b);
    let ids = router.multicast(sender, vec![a, b], "hey".to_string(), MessagePriority::High);
    assert_eq!(ids.len(), 2);
    let m = rx_a.try_recv().unwrap();
    assert_eq!(m.priority, MessagePriority::High);
    match m.channel {
        MessageChannel::Multicast(t) => assert_eq!(t, vec![a, b]),
        _ => panic!("expected a multicast"),
    }
    assert!(rx_b.try_recv().is_ok());
}

#[test]
fn test_dead_letter_on_unregistered() {
    let mut router: MessageRouter<String> = MessageRouter::new();
    let from = FighterId::new();
    let to = FighterId::new();
    let r = router.send_direct(from, to, "x".to_string(), MessagePriority::Normal);
    assert_eq!(r, Err(RouterError::NoMailbox(to)));
    assert_eq!(router.dead_letter_count(), 1);
    let err = RouterError::NoMailbox(to).to_string();
    assert!(err.starts_with("no mailbox registered for fighter "));
}

#[test]
fn test_drain_dead_letters() {
    let mut router: MessageRouter<String> = MessageRouter::new();
    let to = FighterId::new();
    let _ = router.send_direct(FighterId::new(), to, "lost".to_string(), MessagePriority::Normal);
    let letters = router.drain_dead_letters();
    assert_eq!(letters.len(), 1);
    assert_eq!(letters[0].content, "lost");
    assert_eq!(router.dead_letter_count(), 0);
}

#[test]
fn dead_letters_keep_only_the_newest() {
    let mut router: MessageRouter<u32> = MessageRouter::new();
    let to = FighterId::new();
    for i in 0..(MAX_DEAD_LETTERS as u32 + 5) {
        let _ = router.send_direct(FighterId::new(), to, i, MessagePriority::Low);
    }
    assert_eq!(router.dead_letter_count(), MAX_DEAD_LETTERS);
    let letters = router.drain_dead_letters();
    assert_eq!(letters[0].content, 5);
    assert_eq!(letters[MAX_DEAD_LETTERS - 1].content, MAX_DEAD_LETTERS as u32 + 4);
}

#[test]
fn full_mailbox_files_dead_letter() {
    let mut router: MessageRouter<u32> = MessageRouter::new();
    let to = FighterId::new();
    let _rx = router.register(to);
    for i in 0..256u32 {
        assert!(router.send_direct(FighterId::new(), to, i, MessagePriority::Normal).is_ok());
    }
    let r = router.send_direct(FighterId::new(), to, 999, MessagePriority::Normal);
    assert_eq!(r, Err(RouterError::MailboxFull(to)));
    assert_eq!(router.dead_letter_count(), 1);
}

#[test]
fn closed_mailbox_files_dead_letter() {
    let mut router: MessageRouter<u32> = MessageRouter::new();
    let to = FighterId::new();
    let rx = router.register(to);
    drop(rx);
    let r = router.send_direct(FighterId::new(), to, 1, MessagePriority::Normal);
    assert_eq!(r, Err(RouterError::MailboxClosed(to)));
}

#[test]
fn test_unregister() {
    let mut router: MessageRouter<String> = MessageRouter::new();
    let f = FighterId::new();
    let _rx = router.register(f);
    assert!(router.is_registered(&f));
    router.unregister(&f);
    assert!(!router.is_registered(&f));
}

#[test]
fn test_registered_count() {
    let mut router: MessageRouter<String> = MessageRouter::new();
    assert_eq!(router.registered_count(), 0);
    let _a = router.register(FighterId::new());
    let _b = router.register(FighterId::new());
    assert_eq!(router.registered_count(), 2);
}

#[test]
fn test_request_response() {
    let mut router: MessageRouter<String> = MessageRouter::new();
    let asker = FighterId::new();
    let answerer = FighterId::new();
    let _rx_a = router.register(asker);
    let mut rx_b = router.register(answerer);
    let (req_id, mut reply) = router
        .begin_request(asker, answerer, "what is 6*7?".to_string(), Duration::from_secs(5))
        .expect("should deliver");
    let incoming = rx_b.try_recv().unwrap();
    assert_eq!(incoming.id, req_id);
    assert_eq!(incoming.priority, MessagePriority::High);
    match incoming.channel {
        MessageChannel::Request { timeout_ms } => assert_eq!(timeout_ms, 5000),
        _ => panic!("expected a request"),
    }
    let response = AgentMessage {
        id: 7,
        from: answerer,
        to: asker,
        channel: MessageChannel::Direct,
        content: "42".to_string(),
        priority: MessagePriority::Normal,
        timestamp: NOW,
        delivered: false,
    };
    assert_eq!(router.respond(&req_id, response), Ok(()));
    assert_eq!(reply.try_recv().unwrap().content, "42");
}

#[test]
fn test_respond_to_nonexistent_request() {
    let mut router: MessageRouter<String> = MessageRouter::new();
    let response = AgentMessage {
        id: 1,
        from: FighterId::new(),
        to: FighterId::new(),
        channel: MessageChannel::Direct,
        content: "x".to_string(),
        priority: MessagePriority::Normal,
        timestamp: NOW,
        delivered: false,
    };
    assert_eq!(router.respond(&12345, response), Err(RouterError::NoPendingRequest(12345)));
}

#[test]
fn timeout_error_text() {
    assert_eq!(RouterError::TimedOut(1500).to_string(), "request timed out after 1500ms");
    assert_eq!(RouterError::ChannelClosed.to_string(), "request channel closed before response");
}

// ---------------------------------------------------------------------------
// The A2A executor's inputs and task transitions
// ---------------------------------------------------------------------------

fn object_input(prompt: Option<&str>, message: Option<&str>, json: &str, context: &[(&str, &str)]) -> A2ATaskInput {
    A2ATaskInput {
        prompt_field: prompt.map(|s| s.to_string()),
        message_field: message.map(|s| s.to_string()),
        as_text: None,
        json_text: json.to_string(),
        context: context.iter().map(|(k, v)| (k.to_string(), v.to_string())).collect(),
    }
}

fn made(id: &str, status: A2ATaskStatus) -> A2ATaskBoard {
    let mut board = A2ATaskBoard::new();
    board.add(task(id, status));
    board
}

#[test]
fn test_extract_prompt_simple_prompt_field() {
    let input = object_input(Some("Do the thing"), None, "{\"prompt\":\"Do the thing\"}", &[]);
    assert_eq!(extract_prompt(&input), "Do the thing");
}

#[test]
fn test_build_task_system_prompt_no_context() {
    let input = object_input(Some("hello"), None, "{\"prompt\":\"hello\"}", &[]);
    let prompt = build_task_system_prompt(&input);
    assert!(prompt.contains("A2A protocol"));
    assert!(!prompt.contains("Task Context"));
}

#[test]
fn test_build_task_system_prompt_with_context() {
    let input = object_input(
        Some("hello"),
        None,
        "{\"context\":{\"language\":\"rust\",\"project\":\"punch\"},\"prompt\":\"hello\"}",
        &[("language", "\"rust\""), ("project", "\"punch\"")],
    );
    let prompt = build_task_system_prompt(&input);
    assert!(prompt.contains("Task Context"));
    assert!(prompt.contains("language"));
    assert!(prompt.contains("rust"));
}

#[test]
fn test_build_task_system_prompt_empty_context() {
    let input = object_input(Some("hello"), None, "{\"context\":{},\"prompt\":\"hello\"}", &[]);
    let prompt = build_task_system_prompt(&input);
    assert!(!prompt.contains("Task Context"));
}

#[test]
fn test_executor_creation() {
    let board = A2ATaskBoard::new();
    assert_eq!(board.len(), 0);
}

#[test]
fn test_task_pending_to_running_transition() {
    let mut board = made("task-001", A2ATaskStatus::Pending);
    assert_eq!(status_name(&board.get("task-001").unwrap().status), "pending");
    assert_eq!(board.claim_pending(NOW + 1), vec!["task-001".to_string()]);
    assert_eq!(status_name(&board.get("task-001").unwrap().status), "running");
}

#[test]
fn test_task_running_to_completed_transition() {
    let mut board = made("task-002", A2ATaskStatus::Running);
    let summary = LoopSummary { response: "Task result here".to_string(), tokens_used: 0, iterations: 1, tool_calls: 0 };
    assert!(board.record_outcome("task-002", Ok(summary), NOW + 1));
    let t = board.get("task-002").unwrap();
    assert_eq!(status_name(&t.status), "completed");
    assert!(t.output.is_some());
}

#[test]
fn test_task_running_to_failed_transition() {
    let mut board = made("task-003", A2ATaskStatus::Running);
    assert!(board.record_outcome("task-003", Err("LLM provider error".to_string()), NOW + 1));
    assert!(matches!(board.get("task-003").unwrap().status, A2ATaskStatus::Failed(ref msg) if msg.contains("LLM provider")));
}

#[test]
fn test_multiple_concurrent_tasks() {
    let mut board = A2ATaskBoard::new();
    for i in 0..5 {
        board.add(task(&format!("concurrent-{i}"), A2ATaskStatus::Pending));
    }
    let pending_ids = board.claim_pending(NOW + 1);
    assert_eq!(pending_ids.len(), 5);
    let running = pending_ids.iter().filter(|id| status_name(&board.get(id).unwrap().status) == "running").count();
    assert_eq!(running, 5);
    for (i, id) in pending_ids.iter().enumerate() {
        if i % 2 == 0 {
            let summary = LoopSummary { response: "ok".to_string(), tokens_used: 1, iterations: 1, tool_calls: 0 };
            assert!(board.record_outcome(id, Ok(summary), NOW + 2));
        } else {
            assert!(board.record_outcome(id, Err("test error".to_string()), NOW + 2));
        }
    }
    let completed = pending_ids.iter().filter(|id| status_name(&board.get(id).unwrap().status) == "completed").count();
    let failed = pending_ids
        .iter()
        .filter(|id| matches!(board.get(id).unwrap().status, A2ATaskStatus::Failed(_)))
        .count();
    assert_eq!(completed, 3);
    assert_eq!(failed, 2);
}

#[test]
fn test_cancelled_task_not_overwritten() {
    let mut board = made("task-cancel", A2ATaskStatus::Running);
    let mut cancelled = task("task-cancel", A2ATaskStatus::Cancelled);
    cancelled.updated_at = NOW + 1;
    board.add(cancelled);
    let summary = LoopSummary { response: "should not appear".to_string(), tokens_used: 1, iterations: 1, tool_calls: 0 };
    assert!(board.record_outcome("task-cancel", Ok(summary), NOW + 2));
    let t = board.get("task-cancel").unwrap();
    assert_eq!(status_name(&t.status), "cancelled");
    assert!(t.output.is_none());
}

#[test]
fn test_completed_task_has_output() {
    let mut board = made("task-output", A2ATaskStatus::Running);
    let summary = LoopSummary { response: "The answer is 42".to_string(), tokens_used: 100, iterations: 1, tool_calls: 0 };
    assert!(board.record_outcome("task-output", Ok(summary), NOW + 1));
    let t = board.get("task-output").unwrap();
    assert_eq!(status_name(&t.status), "completed");
    let out = t.output.as_ref().unwrap();
    assert_eq!(out.content, "The answer is 42");
    assert_eq!(out.tokens_used, 100);
}

#[test]
fn test_failed_task_has_error_message() {
    let mut board = made("task-err", A2ATaskStatus::Running);
    assert!(board.record_outcome("task-err", Err("connection timeout to provider".to_string()), NOW + 1));
    match &board.get("task-err").unwrap().status {
        A2ATaskStatus::Failed(msg) => assert!(msg.contains("connection timeout")),
        _ => panic!("expected Failed status"),
    }
}

#[test]
fn test_pending_task_skipped_if_already_claimed() {
    let mut board = made("task-race", A2ATaskStatus::Pending);
    assert_eq!(board.claim_pending(NOW + 1), vec!["task-race".to_string()]);
    assert_eq!(status_name(&board.get("task-race").unwrap().status), "running");
    assert!(board.claim_pending(NOW + 2).is_empty());
}

#[test]
fn test_extract_prompt_with_context_and_prompt() {
    let input = object_input(
        Some("Analyze this code"),
        None,
        "{\"context\":{\"language\":\"rust\"},\"mode\":\"text\",\"prompt\":\"Analyze this code\"}",
        &[("language", "\"rust\"")],
    );
    assert_eq!(extract_prompt(&input), "Analyze this code");
}

#[test]
fn test_extract_prompt_numeric_value() {
    let input = object_input(None, None, "42", &[]);
    assert_eq!(extract_prompt(&input), "42");
}

#[test]
fn test_extract_prompt_null_value() {
    let input = object_input(None, None, "null", &[]);
    assert_eq!(extract_prompt(&input), "null");
}

#[test]
fn test_extract_prompt_array_value() {
    let input = object_input(None, None, "[\"a\",\"b\"]", &[]);
    assert!(extract_prompt(&input).contains('a'));
}

#[test]
fn test_extract_prompt_empty_object() {
    let input = object_input(None, None, "{}", &[]);
    assert!(!extract_prompt(&input).is_empty());
}

#[test]
fn test_extract_prompt_prefers_structured_over_prompt_field() {
    let input = object_input(
        Some("structured prompt"),
        None,
        "{\"context\":{},\"mode\":\"text\",\"prompt\":\"structured prompt\"}",
        &[],
    );
    assert_eq!(extract_prompt(&input), "structured prompt");
}

#[test]
fn test_extract_prompt_message_over_json_fallback() {
    let input = object_input(None, Some("msg field"), "{\"message\":\"msg field\",\"other\":\"data\"}", &[]);
    assert_eq!(extract_prompt(&input), "msg field");
}

#[test]
fn test_build_task_system_prompt_with_multiple_context_keys() {
    let input = object_input(
        Some("do stuff"),
        None,
        "{\"context\":{\"a\":\"1\",\"b\":\"2\",\"c\":\"3\"},\"prompt\":\"do stuff\"}",
        &[("a", "\"1\""), ("b", "\"2\""), ("c", "\"3\"")],
    );
    let prompt = build_task_system_prompt(&input);
    assert!(prompt.contains("Task Context"));
    assert!(prompt.contains("**a**"));
    assert!(prompt.contains("**b**"));
    assert!(prompt.contains("**c**"));
}

#[test]
fn test_build_task_system_prompt_null_context() {
    let input = object_input(Some("hello"), None, "{\"context\":null,\"prompt\":\"hello\"}", &[]);
    assert!(!build_task_system_prompt(&input).contains("Task Context"));
}

#[test]
fn test_build_task_system_prompt_context_is_string() {
    let input = object_input(Some("hello"), None, "{\"context\":\"not an object\",\"prompt\":\"hello\"}", &[]);
    assert!(!build_task_system_prompt(&input).contains("Task Context"));
}

#[test]
fn test_task_lifecycle_pending_running_completed() {
    let mut board = made("lifecycle", A2ATaskStatus::Pending);
    assert_eq!(status_name(&board.get("lifecycle").unwrap().status), "pending");
    board.claim_pending(NOW + 1);
    assert_eq!(status_name(&board.get("lifecycle").unwrap().status), "running");
    let summary = LoopSummary { response: "done".to_string(), tokens_used: 1, iterations: 1, tool_calls: 0 };
    assert!(board.record_outcome("lifecycle", Ok(summary), NOW + 2));
    let t = board.get("lifecycle").unwrap();
    assert_eq!(status_name(&t.status), "completed");
    assert!(t.output.is_some());
}

#[test]
fn test_task_lifecycle_pending_running_failed() {
    let mut board = made("fail-life", A2ATaskStatus::Pending);
    board.claim_pending(NOW + 1);
    assert!(board.record_outcome("fail-life", Err("some error".to_string()), NOW + 2));
    assert!(matches!(board.get("fail-life").unwrap().status, A2ATaskStatus::Failed(_)));
}

#[test]
fn test_failed_task_preserves_error_detail() {
    let mut board = made("err-detail", A2ATaskStatus::Running);
    let error_msg = "rate limit exceeded: retry after 60s".to_string();
    assert!(board.record_outcome("err-detail", Err(error_msg.clone()), NOW + 1));
    match &board.get("err-detail").unwrap().status {
        A2ATaskStatus::Failed(msg) => assert_eq!(msg, &error_msg),
        _ => panic!("expected Failed"),
    }
}

#[test]
fn test_concurrent_task_isolation() {
    let mut board = A2ATaskBoard::new();
    board.add(task("t1", A2ATaskStatus::Pending));
    board.add(task("t2", A2ATaskStatus::Running));
    board.add(task("t3", A2ATaskStatus::Completed));
    assert_eq!(board.claim_pending(NOW + 1), vec!["t1".to_string()]);
    assert_eq!(status_name(&board.get("t1").unwrap().status), "running");
    assert_eq!(status_name(&board.get("t2").unwrap().status), "running");
    assert_eq!(status_name(&board.get("t3").unwrap().status), "completed");
}

#[test]
fn test_task_removal() {
    let mut board = made("rm-task", A2ATaskStatus::Completed);
    assert!(board.get("rm-task").is_some());
    let removed = board.remove("rm-task").unwrap();
    assert_eq!(removed.id, "rm-task");
    assert!(board.get("rm-task").is_none());
    assert!(board.remove("rm-task").is_none());
    assert_eq!(board.len(), 0);
}
