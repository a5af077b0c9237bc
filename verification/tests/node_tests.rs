use aeroe::node::{NockchainNode, NockchainRequest, NockchainResponse, NodeMode};

#[test]
fn node_starts_local_from_disconnected() {
    let mut n = NockchainNode::new();
    assert!(!n.is_connected());
    let req = n.start_master().unwrap();
    assert!(matches!(req, NockchainRequest::StartMaster));
    n.complete_start_master(Ok(NockchainResponse::Success)).unwrap();
    assert!(matches!(n.get_mode(), NodeMode::Local));
    assert!(n.is_connected());
    assert!(n.socket_path().is_none());
}

#[test]
fn node_start_while_external_fails() {
    let mut n = NockchainNode::new();
    n.connect_external("/tmp/x.sock", true).unwrap();
    n.complete_connect_external("/tmp/x.sock", Ok(NockchainResponse::Success)).unwrap();
    let err = n.start_master().unwrap_err();
    assert_eq!(
        err,
        "Cannot start local node when connected to external socket"
    );
    assert!(matches!(n.get_mode(), NodeMode::External(_)));
}

#[test]
fn node_disconnect_while_local_fails() {
    let mut n = NockchainNode::new();
    n.start_master().unwrap();
    n.complete_start_master(Ok(NockchainResponse::Success)).unwrap();
    let err = n.disconnect_external().unwrap_err();
    assert_eq!(err, "Cannot disconnect external node when using local node");
    assert!(matches!(n.get_mode(), NodeMode::Local));
}

#[test]
fn node_connect_to_missing_path_fails_without_mode_change() {
    let n = NockchainNode::new();
    let err = n.connect_external("/no/such.sock", false).unwrap_err();
    assert_eq!(err, "Socket path does not exist: /no/such.sock");
    assert!(matches!(n.get_mode(), NodeMode::Disconnected));
}

#[test]
fn node_stop_guards() {
    let mut n = NockchainNode::new();
    assert_eq!(n.stop_master().unwrap_err(), "No node running to stop");
    n.start_master().unwrap();
    n.complete_start_master(Ok(NockchainResponse::Success)).unwrap();
    let req = n.stop_master().unwrap();
    assert!(matches!(req, NockchainRequest::StopMaster));
    n.complete_stop_master(Ok(NockchainResponse::Success)).unwrap();
    assert!(matches!(n.get_mode(), NodeMode::Disconnected));
    n.connect_external("/tmp/a.sock", true).unwrap();
    n.complete_connect_external("/tmp/a.sock", Ok(NockchainResponse::Success)).unwrap();
    assert_eq!(n.stop_master().unwrap_err(), "Cannot stop external node");
}

#[test]
fn node_external_connect_and_disconnect() {
    let mut n = NockchainNode::new();
    assert_eq!(
        n.disconnect_external().unwrap_err(),
        "No external node connected"
    );
    let req = n.connect_external("/run/ext.sock", true).unwrap();
    assert!(matches!(req, NockchainRequest::ConnectExternal(p) if p == "/run/ext.sock"));
    n.complete_connect_external("/run/ext.sock", Ok(NockchainResponse::Success)).unwrap();
    assert_eq!(n.socket_path().unwrap(), "/run/ext.sock");
    let req = n.disconnect_external().unwrap();
    assert!(matches!(req, NockchainRequest::DisconnectExternal));
    n.complete_disconnect_external(Ok(NockchainResponse::Success)).unwrap();
    assert!(matches!(n.get_mode(), NodeMode::Disconnected));
}

#[test]
fn node_failed_completion_keeps_mode() {
    let mut n = NockchainNode::new();
    n.start_master().unwrap();
    let err = n
        .complete_start_master(Err("worker gone".to_string()))
        .unwrap_err();
    assert_eq!(err, "worker gone");
    assert!(matches!(n.get_mode(), NodeMode::Disconnected));
}

#[test]
fn node_status_parsing() {
    let req = NockchainNode::new().get_status();
    assert!(matches!(req, NockchainRequest::GetStatus));
    let parsed = NockchainNode::parse_status(Ok(NockchainResponse::Status {
        master_running: true,
        num_workers: 3,
    }))
    .unwrap();
    assert_eq!(parsed, (true, 3));
    assert_eq!(
        NockchainNode::parse_status(Ok(NockchainResponse::Success)).unwrap_err(),
        "invalid response"
    );
    assert_eq!(
        NockchainNode::parse_status(Err("gone".to_string())).unwrap_err(),
        "gone"
    );
}
