use punch::ids::FighterId;
use punch::swarm::{SubtaskStatus, SwarmCoordinator, SwarmSubtask};

#[test]
fn test_decompose_single_task() {
    let coord = SwarmCoordinator::new();
    let subtasks = coord.decompose_task("single task");
    assert_eq!(subtasks.len(), 1);
    assert_eq!(subtasks[0].description, "single task");
}

#[test]
fn test_decompose_multi_line_task() {
    let coord = SwarmCoordinator::new();
    let subtasks = coord.decompose_task("step 1\nstep 2\nstep 3");
    assert_eq!(subtasks.len(), 3);
    assert_eq!(subtasks[0].description, "step 1");
    assert_eq!(subtasks[1].description, "step 2");
    assert_eq!(subtasks[2].description, "step 3");
}

#[test]
fn test_decompose_ignores_blank_lines() {
    let coord = SwarmCoordinator::new();
    assert_eq!(coord.decompose_task("step 1\n\n\nstep 2\n").len(), 2);
}

#[test]
fn test_decompose_by_paragraphs() {
    let coord = SwarmCoordinator::new();
    let input =
        "First paragraph about setup.\n\nSecond paragraph about execution.\n\nThird paragraph about cleanup.";
    let subtasks = coord.decompose_task(input);
    assert_eq!(subtasks.len(), 3);
    assert!(subtasks[0].description.contains("setup"));
    assert!(subtasks[1].description.contains("execution"));
    assert!(subtasks[2].description.contains("cleanup"));
}

#[test]
fn test_decompose_by_sentences() {
    let coord = SwarmCoordinator::new();
    assert_eq!(coord.decompose_task("Analyze the code. Fix bugs. Write tests").len(), 3);
}

#[test]
fn test_create_task() {
    let mut coord = SwarmCoordinator::new();
    let id = coord.create_task("test task".to_string());
    assert!(coord.get_task(id).is_some());
}

fn sub(desc: &str) -> SwarmSubtask {
    SwarmSubtask {
        id: punch::ids::TaskId::new().0,
        description: desc.to_string(),
        assigned_to: None,
        status: SubtaskStatus::Pending,
        result: None,
        depends_on: vec![],
    }
}

#[test]
fn test_create_task_with_subtasks() {
    let mut coord = SwarmCoordinator::new();
    let id = coord.create_task_with_subtasks("parent".to_string(), vec![sub("sub1"), sub("sub2")]);
    assert_eq!(coord.get_task(id).unwrap().subtasks.len(), 2);
}

#[test]
fn test_register_and_unregister_fighter() {
    let mut coord = SwarmCoordinator::new();
    let f = FighterId::new();
    coord.register_fighter(f);
    assert_eq!(coord.available_fighter_count(), 1);
    coord.unregister_fighter(&f);
    assert_eq!(coord.available_fighter_count(), 0);
}

#[test]
fn test_register_fighter_with_capabilities() {
    let mut coord = SwarmCoordinator::new();
    let f = FighterId::new();
    coord.register_fighter_with_capabilities(f, vec!["code".to_string(), "review".to_string()]);
    let loads = coord.get_fighter_loads();
    let load = loads.iter().find(|l| l.fighter_id == f).expect("should exist");
    assert_eq!(load.capabilities.len(), 2);
    assert!(load.capabilities.contains(&"code".to_string()));
}

#[test]
fn test_find_least_loaded_fighter() {
    let mut coord = SwarmCoordinator::new();
    let f1 = FighterId::new();
    let f2 = FighterId::new();
    coord.register_fighter(f1);
    coord.register_fighter(f2);
    // Give f1 some load through an assignment.
    let task = coord.create_task("one job".to_string());
    let assigned = coord.assign_subtasks(task).unwrap();
    assert_eq!(assigned[0].1, f1);
    assert_eq!(coord.find_least_loaded_fighter(), Some(f2));
}

#[test]
fn test_find_least_loaded_skips_unhealthy() {
    let mut coord = SwarmCoordinator::new();
    let f1 = FighterId::new();
    let f2 = FighterId::new();
    coord.register_fighter(f1);
    coord.register_fighter(f2);
    coord.mark_unhealthy(&f1);
    assert_eq!(coord.find_least_loaded_fighter(), Some(f2));
}

#[test]
fn test_mark_healthy_unhealthy() {
    let mut coord = SwarmCoordinator::new();
    let f = FighterId::new();
    coord.register_fighter(f);
    assert_eq!(coord.available_fighter_count(), 1);
    coord.mark_unhealthy(&f);
    assert_eq!(coord.available_fighter_count(), 0);
    coord.mark_healthy(&f);
    assert_eq!(coord.available_fighter_count(), 1);
}

#[test]
fn test_record_heartbeat() {
    let mut coord = SwarmCoordinator::new();
    let f = FighterId::new();
    coord.register_fighter_at(f, 0);
    coord.record_heartbeat_at(&f, 1_700_000_000);
    let loads = coord.get_fighter_loads();
    assert_eq!(loads[0].last_heartbeat, 1_700_000_000);
}

#[test]
fn test_list_task_ids() {
    let mut coord = SwarmCoordinator::new();
    let id1 = coord.create_task("task 1".to_string());
    let id2 = coord.create_task("task 2".to_string());
    let ids = coord.list_task_ids();
    assert_eq!(ids.len(), 2);
    assert!(ids.contains(&id1));
    assert!(ids.contains(&id2));
}

#[test]
fn test_remove_task() {
    let mut coord = SwarmCoordinator::new();
    let id = coord.create_task("temp".to_string());
    assert!(coord.remove_task(id));
    assert!(!coord.remove_task(id));
}

#[test]
fn swarm_test_default_impl() {
    let coord = SwarmCoordinator::default();
    assert_eq!(coord.available_fighter_count(), 0);
}

#[test]
fn test_get_fighter_loads() {
    let mut coord = SwarmCoordinator::new();
    coord.register_fighter(FighterId::new());
    coord.register_fighter(FighterId::new());
    assert_eq!(coord.get_fighter_loads().len(), 2);
}

#[test]
fn complete_subtask_frees_fighter_and_aggregates() {
    let mut coord = SwarmCoordinator::new();
    let f = FighterId::new();
    coord.register_fighter(f);
    let task = coord.create_task("a\nb".to_string());
    let assigned = coord.assign_subtasks(task).unwrap();
    assert_eq!(assigned.len(), 2);
    for (sid, _) in &assigned {
        coord.complete_subtask(task, *sid, format!("result-{sid}")).unwrap();
    }
    assert_eq!(coord.get_progress(task), Some((2, 2)));
    let t = coord.get_task(task).unwrap();
    assert_eq!(t.aggregated_result.unwrap().matches("result-").count(), 2);
    assert_eq!(coord.get_fighter_loads()[0].active_tasks, 0);
}

#[test]
fn assign_unknown_task_is_an_error() {
    let mut coord = SwarmCoordinator::new();
    assert!(coord.assign_subtasks(12345).is_err());
    assert!(coord.get_task(12345).is_none());
}
