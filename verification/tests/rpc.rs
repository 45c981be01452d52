use repo_manager::clone::{
    after_clone_tool, begin_clone, clone_call, first_clone_tool, manage_requested, CloneNext,
    CloneTool,
};
use repo_manager::config::{Config, RepoVisibility};
use repo_manager::daemon::{clone_event_key, DaemonState, RateLimiter};
use repo_manager::git::{ghq_get_args, git_clone_args};
use repo_manager::locator::Locator;
use repo_manager::rpc::{
    parse_rpc_endpoint, validate_rpc_protocol_version, CloneCancelledEvent, CloneEventMessage,
    CloneFinishedEvent, CloneStartedEvent, ManageRequestedEvent, RpcEvent, RPC_PROTOCOL_VERSION,
};

fn test_config(root: &str) -> Config {
    Config {
        config_path: format!("{root}/config.json"),
        state: format!("{root}/repos.sqlite"),
        cache_root: format!("{root}/cache"),
        root: format!("{root}/code"),
        clone_root: format!("{root}/code/clones"),
        dev_worktree_root: format!("{root}/code/dev-worktrees"),
        rpc_url: format!("unix://{root}/repo-manager.sock"),
        client_id: "00000000-0000-4000-8000-000000000099".to_string(),
        assume_origin_as_canonical: false,
        clone_as_bare: false,
        create_default_visibility: RepoVisibility::Private,
        forges: Vec::new(),
    }
}

fn current() -> Locator {
    Locator::parse("example.com/current").unwrap()
}

fn started() -> RpcEvent {
    RpcEvent::Started(CloneStartedEvent {
        client_id: "00000000-0000-4000-8000-000000000099".to_string(),
        url: "https://example.com/current.git".to_string(),
        locator: current(),
        path: "/work/code/clones/example.com/current".to_string(),
        scan_root: "/work/code/clones".to_string(),
    })
}

fn finished() -> RpcEvent {
    RpcEvent::Finished(CloneFinishedEvent {
        client_id: "00000000-0000-4000-8000-000000000007".to_string(),
        url: "https://example.com/current.git".to_string(),
        locator: current(),
        path: "/tmp/client/clones/example.com/current".to_string(),
        success: true,
        scan_root: "/tmp/client/clones".to_string(),
    })
}

fn cancelled() -> RpcEvent {
    RpcEvent::Cancelled(CloneCancelledEvent {
        client_id: "00000000-0000-4000-8000-000000000099".to_string(),
        url: "https://example.com/current.git".to_string(),
        locator: current(),
        path: "/work/code/clones/example.com/current".to_string(),
        reason: "test cancellation".to_string(),
        scan_root: "/work/code/clones".to_string(),
    })
}

#[test]
fn rpc_endpoints_are_unix_only() {
    assert_eq!(
        parse_rpc_endpoint("unix:///tmp/repo-manager.sock").unwrap(),
        "/tmp/repo-manager.sock"
    );
    assert!(parse_rpc_endpoint("tcp://127.0.0.1:47321").is_err());
    assert!(parse_rpc_endpoint("udp://127.0.0.1:47321").is_err());
}

#[test]
fn rpc_endpoints_must_be_urls_with_a_path() {
    assert!(parse_rpc_endpoint("/tmp/repo-manager.sock").is_err());
    assert!(parse_rpc_endpoint("").is_err());
}

fn cancellation() {
    let mut state = DaemonState::new(0, 60);
    assert!(state.handle_rpc_event(true, started()).is_none());
    assert_eq!(state.clone_starts.len(), 1);
    assert!(state.handle_rpc_event(true, cancelled()).is_none());
    assert!(state.clone_starts.is_empty());
}

#[test]
fn daemon_cancellation_removes_matching_clone_start() {
    cancellation();
}

#[test]
fn lib_daemon_cancellation_removes_matching_clone_start() {
    cancellation();
}

fn expiry() {
    let mut state = DaemonState::new(0, 0);
    state.handle_rpc_event(true, started());
    let pruned = state.prune_expired_clone_starts();
    assert_eq!(pruned, 1);
    assert!(state.clone_starts.is_empty());
}

#[test]
fn daemon_ttl_prunes_stale_clone_starts() {
    expiry();
}

#[test]
fn lib_daemon_ttl_prunes_stale_clone_starts() {
    expiry();
}

fn round_trip(event: RpcEvent) {
    assert_eq!(event.to_proto().protocol_version, RPC_PROTOCOL_VERSION);

    let decoded = RpcEvent::from_proto(event.to_proto()).unwrap();

    match decoded {
        RpcEvent::Finished(decoded) => {
            assert_eq!(decoded.client_id, "00000000-0000-4000-8000-000000000007");
            assert_eq!(decoded.locator, current());
            assert_eq!(decoded.path, "/tmp/client/clones/example.com/current");
            assert!(decoded.success);
            assert_eq!(decoded.scan_root, "/tmp/client/clones");
        }
        RpcEvent::ManageRequested(decoded) => {
            assert_eq!(decoded.client_id, "00000000-0000-4000-8000-000000000008");
            assert_eq!(
                decoded.locator,
                Locator::parse("example.com/managed").unwrap()
            );
            assert_eq!(decoded.path, "/tmp/client/clones/example.com/managed");
            assert_eq!(decoded.scan_root, "/tmp/client/clones");
        }
        other => panic!("unexpected decoded event: {other:?}"),
    }
}

#[test]
fn rpc_clone_event_round_trips_through_protobuf() {
    round_trip(finished());
    round_trip(RpcEvent::ManageRequested(ManageRequestedEvent {
        client_id: "00000000-0000-4000-8000-000000000008".to_string(),
        url: "https://example.com/managed.git".to_string(),
        locator: Locator::parse("example.com/managed").unwrap(),
        path: "/tmp/client/clones/example.com/managed".to_string(),
        scan_root: "/tmp/client/clones".to_string(),
    }));
}

#[test]
fn lib_rpc_clone_event_round_trips_through_protobuf() {
    round_trip(finished());
}

fn mismatch() {
    for unsupported_version in [0, RPC_PROTOCOL_VERSION + 1] {
        let mut proto = finished().to_proto();
        proto.protocol_version = unsupported_version;

        let error = RpcEvent::from_proto(proto).unwrap_err();

        assert!(error.message.contains("RPC protocol version mismatch"));
    }
    assert!(validate_rpc_protocol_version(RPC_PROTOCOL_VERSION).is_ok());
}

#[test]
fn rpc_clone_event_rejects_protocol_version_mismatch() {
    mismatch();
}

#[test]
fn lib_rpc_clone_event_rejects_protocol_version_mismatch() {
    mismatch();
}

#[test]
fn messages_without_an_event_or_a_locator_are_refused() {
    assert!(RpcEvent::from_proto(CloneEventMessage {
        protocol_version: RPC_PROTOCOL_VERSION,
        event: None,
    })
    .is_err());
    assert_eq!(finished().client_id(), "00000000-0000-4000-8000-000000000007");
    assert_ne!(finished().event_name(), started().event_name());
}

#[test]
fn reviews_follow_clones_that_end_in_time() {
    let mut state = DaemonState::new(0, 1);
    state.handle_event_at(true, started(), 0);
    let ended = RpcEvent::Finished(CloneFinishedEvent {
        client_id: "00000000-0000-4000-8000-000000000099".to_string(),
        url: "https://example.com/current.git".to_string(),
        locator: current(),
        path: "/work/code/clones/example.com/current".to_string(),
        success: true,
        scan_root: "/work/code/clones".to_string(),
    });
    let review = state.handle_event_at(true, ended, 1).unwrap();
    assert_eq!(review.locator, current());
    assert_eq!(review.scan_root, "/work/code/clones");

    state.handle_event_at(true, started(), 0);
    assert_eq!(state.prune_at(u128::MAX), 1);
}

#[test]
fn clients_wait_between_requests() {
    let mut limiter = RateLimiter::new(1);
    assert!(limiter.allow_at("a", 0));
    assert!(!limiter.allow_at("a", 999_999_999));
    assert!(limiter.allow_at("b", 999_999_999));
    assert!(limiter.allow_at("a", 1_000_000_000));
    assert_ne!(
        clone_event_key("a", &current(), "/x"),
        clone_event_key("a", &current(), "/y")
    );
}

fn ghq_root() {
    let config = Config {
        clone_root: "/tmp/clones".to_string(),
        ..test_config("/work")
    };
    let clone = begin_clone(&config, "https://github.com/owner/repo").unwrap();
    let call = clone_call(CloneTool::Ghq, &config, &clone);
    assert_eq!(call.program, "ghq");
    assert_eq!(call.args, vec!["get", "https://github.com/owner/repo"]);
    assert_eq!(call.ghq_root.as_deref(), Some("/tmp/clones"));
    assert_eq!(
        ghq_get_args("https://github.com/owner/repo"),
        vec!["get", "https://github.com/owner/repo"]
    );
}

#[test]
fn ghq_root_is_configured_with_environment() {
    ghq_root();
}

#[test]
fn lib_ghq_root_is_configured_with_environment() {
    ghq_root();
}

#[test]
fn clones_end_after_at_most_two_tools() {
    assert_eq!(first_clone_tool(false, true), CloneTool::Ghq);
    assert_eq!(first_clone_tool(false, false), CloneTool::Git);
    assert_eq!(first_clone_tool(true, true), CloneTool::Git);
    assert_eq!(after_clone_tool(CloneTool::Ghq, true), CloneNext::Cloned);
    assert_eq!(
        after_clone_tool(CloneTool::Ghq, false),
        CloneNext::Run(CloneTool::Git)
    );
    assert_eq!(after_clone_tool(CloneTool::Git, false), CloneNext::Failed);
    assert!(git_clone_args("https://example.com/a", "/work/a", true).contains(&"--bare".to_string()));
}

#[test]
fn clones_are_announced() {
    let config = test_config("/work");
    let clone = begin_clone(&config, "https://example.com/current.git").unwrap();
    assert_eq!(clone.path, "/work/code/clones/example.com/current");
    assert!(matches!(clone.started(), RpcEvent::Started(_)));
    assert!(matches!(clone.cancelled(), RpcEvent::Cancelled(_)));
    match clone.finished(false) {
        RpcEvent::Finished(event) => assert!(!event.success),
        other => panic!("unexpected event {other:?}"),
    }
    assert!(begin_clone(&config, "nonsense").is_err());
    match manage_requested(&config, &current(), "/work/x", "https://example.com/current") {
        RpcEvent::ManageRequested(event) => {
            assert_eq!(event.path, "/work/x");
            assert_eq!(event.client_id, config.client_id);
        }
        other => panic!("unexpected event {other:?}"),
    }
}
