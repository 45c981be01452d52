use repo_manager::config::FileConfig;
use repo_manager::daemon::DaemonState;
use repo_manager::locator::{locator_path, Locator};
use repo_manager::moves::plan_move;
use repo_manager::naming::sanitize_remote_name;
use repo_manager::paths::path_starts_with;
use repo_manager::registry::Registry;
use repo_manager::repair::{
    repair_report_needs_repair, RepairReport, RepairRepositoryFormat, RepairRepositoryFormatStatus,
    RepairStalePathStatus, RepairUntrackedCheckoutStatus, SharedGitDirResolution,
};
use repo_manager::repair_plan::{
    apply_repair_operations, format_repair_plan, parse_repair_plan, repair_operations_from_report,
    RepairOutcome,
};
use repo_manager::repair_report::{
    build_repair_report, CheckoutFacts, RelationFacts, RepairFacts, RepoFacts,
};
use repo_manager::rpc::{CloneFinishedEvent, CloneStartedEvent, RpcEvent};
use repo_manager::scan::sort_paths;

fn locator(text: &str) -> Locator {
    Locator::parse(text).unwrap()
}

#[test]
fn keys_are_read_back() {
    for text in [
        "https://GitHub.com/Me/Tool.git",
        "git@example.com:group/sub/tool.git",
        "example.com/tool",
    ] {
        let first = locator(text);
        assert_eq!(locator(&first.key()), first);
        assert_eq!(
            Locator::new(&first.authority, &first.remote_path).unwrap(),
            first
        );
    }
    let with_port = locator("ssh://git@example.com:2222/tool");
    assert_eq!(with_port.authority, "example.com:2222");
    assert!(Locator::parse(&with_port.key()).map_or(true, |read| read != with_port));
}

#[test]
fn places_are_below_the_root_and_apart() {
    let places: Vec<String> = ["example.com/a/b", "example.com/a-b", "a/example.com/b"]
        .iter()
        .map(|text| locator_path("/work/clones", &locator(text)))
        .collect();
    for place in &places {
        assert!(path_starts_with(place, "/work/clones"));
    }
    assert_ne!(places[0], places[1]);
    assert_ne!(places[0], places[2]);
    assert_ne!(places[1], places[2]);
}

#[test]
fn remote_names_are_sanitized_once() {
    let name = sanitize_remote_name("--github.com//me/tool--");
    assert_eq!(name, "github.com-me-tool");
    assert_eq!(sanitize_remote_name(&name), name);
}

#[test]
fn aliases_follow_every_move() {
    let mut registry = Registry::new();
    let names = ["example.com/a/tool", "example.com/b/tool", "example.com/c/tool"];
    let first = locator(names[0]);
    let id = registry.upsert_repo(&first, &locator_path("/work", &first), None);
    for pair in names.windows(2) {
        let plan = plan_move(
            "/work",
            locator(pair[0]),
            locator(pair[1]),
            &registry.historical_locators(id),
        );
        registry.apply_move_metadata(id, &plan).unwrap();
    }
    let aliases = registry.aliases_of(id);
    let old: Vec<&str> = aliases.iter().map(|alias| alias.alias_path.as_str()).collect();
    assert_eq!(
        old,
        vec!["/work/example.com/a/tool", "/work/example.com/b/tool"]
    );
    assert!(aliases
        .iter()
        .all(|alias| alias.target_path == "/work/example.com/c/tool"));
    for name in names {
        assert_eq!(registry.find_repo(name).unwrap().unwrap().id, id);
    }
    assert_eq!(
        registry.locators.iter().filter(|row| row.current).count(),
        1
    );
}

#[test]
fn found_histories_stay_resolved() {
    let mut registry = Registry::new();
    let a = registry.upsert_repo(&locator("example.com/a"), "/work/a", None);
    let b = registry.upsert_repo(&locator("example.com/b"), "/work/b", None);
    let refs = vec!["shared root commit aaaaaaaaaaaa".to_string()];
    registry.record_related_history(a, b, &refs).unwrap();
    let id = registry.related_suggestions(true)[0].id;
    registry.resolve_related(id, "unrelated").unwrap();
    registry.record_related_history(b, a, &refs).unwrap();
    assert_eq!(registry.pending_related_count(), 0);
    assert_eq!(registry.related_suggestions(false).len(), 1);
    assert!(registry.resolve_related(id + 1, "fork").is_err());
    assert!(registry.related_suggestion(id + 1).is_err());
    assert!(registry.record_related_history(a, 99, &refs).is_err());
    assert!(registry.record_related_history(a, a, &refs).is_ok());
}

#[test]
fn layers_are_merged_in_any_grouping() {
    let layer = |state: Option<&str>, ttl: Option<u64>| {
        let mut config = FileConfig::empty();
        config.state = state.map(str::to_string);
        config.clone_start_ttl_minutes = ttl;
        config
    };
    let mut left = layer(Some("a"), Some(1));
    left.merge(layer(Some("b"), None));
    left.merge(layer(None, Some(3)));
    let mut tail = layer(Some("b"), None);
    tail.merge(layer(None, Some(3)));
    let mut right = layer(Some("a"), Some(1));
    right.merge(tail);
    assert_eq!(left.state, right.state);
    assert_eq!(left.state.as_deref(), Some("b"));
    assert_eq!(left.clone_start_ttl_minutes, right.clone_start_ttl_minutes);
}

fn started() -> RpcEvent {
    RpcEvent::Started(CloneStartedEvent {
        client_id: "client".to_string(),
        url: "https://example.com/a".to_string(),
        locator: locator("example.com/a"),
        path: "/work/a".to_string(),
        scan_root: "/work".to_string(),
    })
}

fn finished(success: bool) -> RpcEvent {
    RpcEvent::Finished(CloneFinishedEvent {
        client_id: "client".to_string(),
        url: "https://example.com/a".to_string(),
        locator: locator("example.com/a"),
        path: "/work/a".to_string(),
        success,
        scan_root: "/work".to_string(),
    })
}

#[test]
fn late_and_failed_clones_are_not_reviewed() {
    let minute: u128 = 60_000_000_000;
    let mut state = DaemonState::new(0, 1);
    state.handle_event_at(true, started(), 0);
    assert!(state.handle_event_at(true, finished(true), minute).is_none());
    state.handle_event_at(true, started(), 0);
    assert!(state
        .handle_event_at(true, finished(true), minute - 1)
        .is_some());
    state.handle_event_at(true, started(), 0);
    assert!(state.handle_event_at(true, finished(false), 1).is_none());
    state.handle_event_at(true, started(), 0);
    assert!(state.handle_event_at(false, finished(true), 1).is_none());
    assert!(state.clone_starts.is_empty());
}

#[test]
fn events_of_a_client_are_limited_together() {
    let second: u128 = 1_000_000_000;
    let mut state = DaemonState::new(1, 1);
    assert!(state.allow_event_at(&started(), 0));
    assert!(!state.allow_event_at(&started(), 1));
    assert!(!state.allow_event_at(&finished(true), second - 1));
    assert!(state.allow_event_at(&finished(true), second));
    assert_eq!(state.cleanup_seconds(), 60);

    let mut live = DaemonState::new(1, 60);
    assert!(live.allow_rpc_event(&started()));
    assert!(!live.allow_rpc_event(&finished(true)));
    let mut unlimited = DaemonState::new(0, 60);
    assert!(unlimited.allow_rpc_event(&started()));
    assert!(unlimited.allow_rpc_event(&finished(true)));
}

#[test]
fn paths_are_sorted_by_component() {
    let paths = vec![
        "/work/a-b".to_string(),
        "/work/a/c".to_string(),
        "/work/a".to_string(),
    ];
    assert_eq!(sort_paths(&paths), vec!["/work/a", "/work/a/c", "/work/a-b"]);
}

fn repo(id: i64, name: &str, exists: bool) -> RepoFacts {
    RepoFacts {
        id,
        locator: locator(name),
        path: format!("/work/clones/{name}"),
        comparable: format!("/work/clones/{name}"),
        exists,
        view: false,
        bare: Ok(false),
        shares_git_dir: false,
        conversion: Ok(()),
    }
}

fn relation(reasons: Vec<String>) -> RelationFacts {
    RelationFacts {
        relationship: "fork".to_string(),
        dependent_repo_id: 2,
        dependent_locator: locator("example.com/fork"),
        dependent_path: "/work/clones/example.com/fork".to_string(),
        dependent_exists: true,
        controlling_repo_id: 1,
        controlling_locator: locator("example.com/up"),
        controlling_path: "/work/clones/example.com/up".to_string(),
        controlling_exists: true,
        reasons: Ok(reasons),
        materialized: Ok(shared()),
    }
}

fn shared() -> SharedGitDirResolution {
    SharedGitDirResolution {
        dependent_locator: locator("example.com/fork"),
        controlling_locator: locator("example.com/up"),
        dependent_path: "/work/clones/example.com/fork".to_string(),
        controlling_path: "/work/clones/example.com/up".to_string(),
        dependent_remote: "fork-example".to_string(),
        dependent_url: "https://example.com/fork.git".to_string(),
        local_branch: "repo-manager/forks/example.com-fork/main".to_string(),
        remote_branch: "fork-example/main".to_string(),
        converted_to_worktree: true,
    }
}

fn facts(upstream_exists: bool) -> RepairFacts {
    let mut link = relation(vec!["no remote".to_string()]);
    link.controlling_exists = upstream_exists;
    let mut again = relation(vec!["no remote".to_string()]);
    again.controlling_exists = upstream_exists;
    RepairFacts {
        clone_as_bare: false,
        clone_root: "/work/clones".to_string(),
        repos: vec![
            repo(1, "example.com/up", upstream_exists),
            repo(2, "example.com/fork", true),
            repo(3, "example.com/gone", false),
        ],
        checkouts: vec![CheckoutFacts {
            path: "/work/clones/example.com/new".to_string(),
            comparable: "/work/clones/example.com/new".to_string(),
            locator: Some(locator("example.com/new")),
        }],
        snapshot: vec![link],
        relationships: vec![again],
    }
}

fn statuses(report: &RepairReport) -> Vec<RepairStalePathStatus> {
    report.stale_paths.iter().map(|stale| stale.status).collect()
}

#[test]
fn checks_find_what_repairs_settle() {
    let checked = build_repair_report(&facts(true), true);
    assert!(repair_report_needs_repair(&checked));
    assert_eq!(statuses(&checked), vec![RepairStalePathStatus::NeedsPrune]);
    assert_eq!(
        checked.untracked_checkouts[0].status,
        RepairUntrackedCheckoutStatus::NeedsTracking
    );
    let repaired = build_repair_report(&facts(true), false);
    assert!(!repair_report_needs_repair(&repaired));
    assert_eq!(statuses(&repaired), vec![RepairStalePathStatus::Pruned]);
}

#[test]
fn repositories_that_others_need_are_kept() {
    let repaired = build_repair_report(&facts(false), false);
    assert_eq!(
        statuses(&repaired),
        vec![RepairStalePathStatus::Blocked, RepairStalePathStatus::Pruned]
    );
    assert_eq!(repaired.stale_paths[0].blocking_dependents.len(), 1);
}

#[test]
fn plans_that_nobody_edits_repair_everything() {
    let checked = build_repair_report(&facts(true), true);
    let operations = repair_operations_from_report(&checked);
    assert_eq!(operations.len(), 3);
    for (index, operation) in operations.iter().enumerate() {
        assert_eq!(operation.id, index + 1);
    }
    let plan = format_repair_plan(&operations);
    let selected = parse_repair_plan(&plan, &operations).unwrap();
    assert_eq!(selected, vec![1, 2, 3]);
    let outcomes: Vec<RepairOutcome> = operations
        .iter()
        .map(|operation| match operation.kind {
            repo_manager::repair_plan::RepairOperationKind::RepairRelationship(_) => {
                RepairOutcome::Shared(shared())
            }
            _ => RepairOutcome::Done,
        })
        .collect();
    let report = apply_repair_operations(&operations, &selected, &outcomes);
    assert!(!repair_report_needs_repair(&report));
    assert!(parse_repair_plan("pick 9 nothing", &operations).is_err());
    assert!(parse_repair_plan("keep 1", &operations).is_err());
}

fn format(path: &str, id: i64, status: RepairRepositoryFormatStatus) -> RepairRepositoryFormat {
    RepairRepositoryFormat {
        repo_id: id,
        locator: locator("example.com/tool"),
        path: path.to_string(),
        status,
        reasons: Vec::new(),
    }
}

#[test]
fn operations_come_in_the_order_of_the_report() {
    let wanted = RepairRepositoryFormatStatus::NeedsBareConversion;
    let mut report = build_repair_report(&facts(true), true);
    report.repository_formats = vec![
        format("/work/b", 1, wanted),
        format("/work/a-b", 2, wanted),
        format("/work/a/c", 3, RepairRepositoryFormatStatus::Skipped),
        format("/work//b", 4, wanted),
        format("/work/a", 5, wanted),
    ];
    let operations = repair_operations_from_report(&report);
    let summaries: Vec<&str> = operations.iter().map(|o| o.summary.as_str()).collect();
    assert_eq!(
        summaries,
        vec![
            "prune stale managed path example.com/gone",
            "convert clone-root repository to bare /work/a",
            "convert clone-root repository to bare /work/a-b",
            "convert clone-root repository to bare /work/b",
            "track unmanaged clone-root checkout example.com/new",
            "repair fork example.com/fork -> example.com/up",
        ]
    );
    for (at, operation) in operations.iter().enumerate() {
        assert_eq!(operation.id, at + 1);
    }
    let settled = build_repair_report(&facts(true), false);
    assert!(repair_operations_from_report(&settled).is_empty());
    assert!(!repair_report_needs_repair(&settled));
}
