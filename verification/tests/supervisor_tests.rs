use aeroe::node::{NockchainRequest, NockchainResponse};
use aeroe::supervisor::{
    restart_decision, RestartDecision, WorkOutcome, WorkerAction, WorkerRegistry,
};

fn status_of(reg: &mut WorkerRegistry) -> (bool, u64) {
    let (reply, actions) = reg.handle_request(&NockchainRequest::GetStatus);
    assert!(actions.is_empty());
    match reply.unwrap() {
        NockchainResponse::Status { master_running, num_workers } => {
            (master_running, num_workers)
        }
        other => panic!("expected a status reply, got {:?}", other),
    }
}

#[test]
fn restart_policy() {
    assert_eq!(
        restart_decision(&WorkOutcome::Completed, false),
        RestartDecision::Restart
    );
    assert_eq!(
        restart_decision(&WorkOutcome::Panicked, false),
        RestartDecision::Restart
    );
    assert_eq!(
        restart_decision(&WorkOutcome::Stop("done".to_string()), false),
        RestartDecision::Exit
    );
    // A raised shutdown flag always wins.
    assert_eq!(
        restart_decision(&WorkOutcome::Completed, true),
        RestartDecision::Exit
    );
    assert_eq!(
        restart_decision(&WorkOutcome::Panicked, true),
        RestartDecision::Exit
    );
}

#[test]
fn master_crash_is_restarted() {
    let mut reg = WorkerRegistry::new();
    let (reply, actions) = reg.handle_request(&NockchainRequest::StartMaster);
    assert!(matches!(reply.unwrap(), NockchainResponse::Success));
    assert_eq!(actions.len(), 1);
    assert!(matches!(&actions[0], WorkerAction::Spawn(id) if id == "master"));
    assert_eq!(status_of(&mut reg), (true, 0));

    // The master dies while still intended: it is restarted.
    let (restart, actions) = reg.handle_death(&"master".to_string());
    assert!(restart);
    assert_eq!(actions.len(), 1);
    assert!(matches!(&actions[0], WorkerAction::Spawn(id) if id == "master"));
    assert_eq!(status_of(&mut reg), (true, 0));
}

#[test]
fn intentionally_stopped_master_is_not_restarted() {
    let mut reg = WorkerRegistry::new();
    reg.handle_request(&NockchainRequest::StartMaster);
    let (reply, actions) = reg.handle_request(&NockchainRequest::StopMaster);
    assert!(matches!(reply.unwrap(), NockchainResponse::Success));
    assert_eq!(actions.len(), 1);
    assert!(matches!(&actions[0], WorkerAction::Stop(id) if id == "master"));
    // Still registered until its death is observed.
    assert_eq!(status_of(&mut reg), (true, 0));

    let (restart, actions) = reg.handle_death(&"master".to_string());
    assert!(!restart);
    assert!(actions.is_empty());
    assert_eq!(status_of(&mut reg), (false, 0));
}

#[test]
fn double_start_is_idempotent() {
    let mut reg = WorkerRegistry::new();
    let (_, actions) = reg.handle_request(&NockchainRequest::StartMaster);
    assert_eq!(actions.len(), 1);
    let (_, actions) = reg.handle_request(&NockchainRequest::StartMaster);
    assert!(actions.is_empty());
}

#[test]
fn socket_requests_leave_the_pool_alone() {
    let mut reg = WorkerRegistry::new();
    reg.handle_request(&NockchainRequest::StartMaster);
    let (reply, actions) =
        reg.handle_request(&NockchainRequest::ConnectExternal("/x.sock".to_string()));
    assert!(matches!(reply.unwrap(), NockchainResponse::Success));
    assert!(actions.is_empty());
    let (reply, actions) = reg.handle_request(&NockchainRequest::DisconnectExternal);
    assert!(matches!(reply.unwrap(), NockchainResponse::Success));
    assert!(actions.is_empty());
    assert_eq!(status_of(&mut reg), (true, 0));
}

#[test]
fn worker_pool_scales_up_and_down() {
    let mut reg = WorkerRegistry::new();
    let actions = reg.set_workers(2);
    let spawned: Vec<String> = actions
        .iter()
        .map(|a| match a {
            WorkerAction::Spawn(id) => id.clone(),
            other => panic!("expected a spawn, got {:?}", other),
        })
        .collect();
    assert_eq!(spawned, vec!["worker0".to_string(), "worker1".to_string()]);
    assert_eq!(status_of(&mut reg), (false, 2));

    // Scaling down stops the earliest workers, but they stay counted
    // until their deaths are observed.
    let actions = reg.set_workers(1);
    assert_eq!(actions.len(), 1);
    assert!(matches!(&actions[0], WorkerAction::Stop(id) if id == "worker0"));
    assert_eq!(status_of(&mut reg), (false, 2));
    let (restart, _) = reg.handle_death(&"worker0".to_string());
    assert!(!restart);
    assert_eq!(status_of(&mut reg), (false, 1));

    // A crash of a still-intended worker is restarted.
    let (restart, actions) = reg.handle_death(&"worker1".to_string());
    assert!(restart);
    assert!(matches!(&actions[0], WorkerAction::Spawn(id) if id == "worker1"));
    assert_eq!(status_of(&mut reg), (false, 1));

    // Fresh workers get fresh numbers; stopped names are never reused.
    let actions = reg.set_workers(2);
    assert_eq!(actions.len(), 1);
    assert!(matches!(&actions[0], WorkerAction::Spawn(id) if id == "worker2"));
    assert_eq!(status_of(&mut reg), (false, 2));
}

#[test]
fn set_workers_no_change_is_a_no_op() {
    let mut reg = WorkerRegistry::new();
    reg.set_workers(2);
    let actions = reg.set_workers(2);
    assert!(actions.is_empty());
}
