use repo_manager::config::{Config, RepoVisibility};
use repo_manager::context::{
    begin_related_resolve, check_outcome, editor_command, pending_warning, reject_sudo_repod,
    repo_context, selection_text, ContextFacts, RepoContext,
};
use repo_manager::detect::{
    detect_related_history, record_fetch_turn, related_notification, FetchTurn, FoundRepository,
};
use repo_manager::dump::{
    expected_repo_path, is_git_worktree, repository_path_id, DirectoryFacts, FoundDirectory,
    KindFacts,
};
use repo_manager::fetch::{
    background_fetch_args, background_fetch_wake_seconds, learned_interval,
};
use repo_manager::history::{
    shared_root_evidence, short_hash, summarize_shared_history_evidence,
    validate_relationship_kind,
};
use repo_manager::inventory::{check_dump_report, take_inventory, CheckDump, RepositoryFacts};
use repo_manager::locator::{locator_path, Locator};
use repo_manager::moves::plan_move;
use repo_manager::parents::{
    begin_set_type, choose_parent, ensure_managed_canonical_is_bare, finish_set_type,
    managed_repo_by_path_id, parse_repo_type, plan_fork, record_parent,
    resolve_relationship_parent_storage, BareNeed, ParentSource, RelationshipParent, RepoType,
    TypeChange,
};
use repo_manager::paths::{join, same_path};
use repo_manager::registry::Registry;
use repo_manager::repair::{
    repair_report_needs_repair, RepairStalePath, RepairStalePathStatus, RepairUntrackedCheckout,
    RepairUntrackedCheckoutStatus,
};
use repo_manager::repair_apply::{
    apply_to_registry, prune_stale, repair_registry, track_checkouts,
};
use repo_manager::repair_plan::RepairOperationKind;
use repo_manager::repair_report::{
    build_repair_report, CheckoutFacts, RelationFacts, RepairFacts, RepoFacts,
};
use repo_manager::scan::{DirectoryEntry, DirectoryMarks, Scan};
use repo_manager::share::{record_share, Placed};

fn test_config(root: &str) -> Config {
    Config {
        config_path: format!("{root}/config.json"),
        state: format!("{root}/repos.sqlite"),
        cache_root: format!("{root}/cache"),
        root: format!("{root}/code"),
        clone_root: format!("{root}/code/clones"),
        dev_worktree_root: format!("{root}/code/dev-worktrees"),
        rpc_url: format!("unix://{root}/repo-manager.sock"),
        client_id: "00000000-0000-4000-8000-000000000099".to_string(),
        assume_origin_as_canonical: false,
        clone_as_bare: false,
        create_default_visibility: RepoVisibility::Private,
        forges: Vec::new(),
    }
}

fn locator(text: &str) -> Locator {
    Locator::parse(text).unwrap()
}

fn successor() {
    let mut store = Registry::new();
    store.record_successor(
        "github.com/old/project",
        &Locator::parse("github.com/new/project").unwrap(),
    );
    assert!(store.find_repo("github.com/old/project").unwrap().is_none());
}

#[test]
fn store_records_successor_without_rename_alias() {
    successor();
}

#[test]
fn lib_store_records_successor_without_rename_alias() {
    successor();
}

fn suggestions() {
    let mut store = Registry::new();
    let first_id = store.upsert_repo(
        &locator("github.com/example/first"),
        "/work/clones/github.com/example/first",
        None,
    );
    let second_id = store.upsert_repo(
        &locator("github.com/example/second"),
        "/work/clones/github.com/example/second",
        None,
    );

    store
        .record_related_history(
            first_id,
            second_id,
            &vec!["abcdef123456 main".to_string()],
        )
        .unwrap();

    let suggestions = store.related_suggestions(true);
    assert_eq!(suggestions.len(), 1);
    assert_eq!(store.pending_related_count(), 1);

    store.resolve_related(suggestions[0].id, "mirror").unwrap();

    assert_eq!(store.pending_related_count(), 0);
    assert!(store.related_suggestions(true).is_empty());
}

#[test]
fn related_history_suggestions_are_persisted_until_resolved() {
    suggestions();
}

#[test]
fn lib_related_history_suggestions_are_persisted_until_resolved() {
    suggestions();
}

fn stale_facts(store: &Registry, config: &Config) -> RepairFacts {
    RepairFacts {
        clone_as_bare: config.clone_as_bare,
        clone_root: config.clone_root.clone(),
        repos: store
            .current_repos()
            .into_iter()
            .map(|repo| RepoFacts {
                id: repo.id,
                locator: repo.current,
                comparable: repo.path.clone(),
                path: repo.path,
                exists: false,
                view: false,
                bare: Err("missing".to_string()),
                shares_git_dir: false,
                conversion: Err("missing".to_string()),
            })
            .collect(),
        checkouts: Vec::new(),
        snapshot: Vec::new(),
        relationships: Vec::new(),
    }
}

#[test]
fn repair_prunes_stale_repo_rows_without_existing_dependents() {
    let config = test_config("/work");
    let mut store = Registry::new();
    let stale_locator = Locator::parse("github.com/example/stale").unwrap();
    let stale_path = locator_path(&config.clone_root, &stale_locator);
    let repo_id = store.upsert_repo(&stale_locator, &stale_path, None);

    let found = stale_facts(&store, &config);
    let report = build_repair_report(&found, true);
    assert!(repair_report_needs_repair(&report));
    assert!(check_outcome(&report, true).is_err());
    repair_registry(&mut store, &found, true).unwrap();
    assert_eq!(store.repos.iter().filter(|repo| repo.id == repo_id).count(), 1);

    let report = build_repair_report(&found, false);
    check_outcome(&report, false).unwrap();
    for stale in &report.stale_paths {
        assert_eq!(stale.status, RepairStalePathStatus::Pruned);
    }
    repair_registry(&mut store, &found, false).unwrap();
    assert_eq!(store.repos.iter().filter(|repo| repo.id == repo_id).count(), 0);
    assert_eq!(
        store
            .locators
            .iter()
            .filter(|row| row.repo_id == repo_id)
            .count(),
        0
    );
}

#[test]
fn blocked_repositories_stay_registered() {
    let config = test_config("/work");
    let mut store = Registry::new();
    let fork_locator = Locator::parse("github.com/example/fork").unwrap();
    let canonical_locator = Locator::parse("github.com/example/canonical").unwrap();
    let fork_path = locator_path(&config.clone_root, &fork_locator);
    let canonical_path = locator_path(&config.clone_root, &canonical_locator);
    let fork_id = store.upsert_repo(&fork_locator, &fork_path, None);
    let canonical_id = store.upsert_repo(&canonical_locator, &canonical_path, None);
    store.record_fork(fork_id, canonical_id).unwrap();
    let gone_id = store.upsert_repo(&locator("github.com/example/gone"), "/work/gone", None);

    let mut found = stale_facts(&store, &config);
    for repo in &mut found.repos {
        repo.exists = repo.id == fork_id;
    }
    found.snapshot.push(RelationFacts {
        relationship: "fork".to_string(),
        dependent_repo_id: fork_id,
        dependent_locator: fork_locator,
        dependent_path: fork_path,
        dependent_exists: true,
        controlling_repo_id: canonical_id,
        controlling_locator: canonical_locator,
        controlling_path: canonical_path,
        controlling_exists: false,
        reasons: Ok(Vec::new()),
        materialized: Err("not repaired".to_string()),
    });
    repair_registry(&mut store, &found, false).unwrap();

    let ids: Vec<i64> = store.repos.iter().map(|repo| repo.id).collect();
    assert_eq!(ids, vec![fork_id, canonical_id]);
    assert_eq!(store.forks.len(), 1);
    assert!(store.locators.iter().all(|row| row.repo_id != gone_id));
    assert_eq!(
        prune_stale(&mut store, &found, false).unwrap_err().message,
        format!("unknown repository id: {gone_id}")
    );
}

#[test]
fn moved_checkouts_are_recorded_where_they_are() {
    let config = test_config("/work");
    let mut store = Registry::new();
    let name = locator("example.com/moved/repo");
    let id = store.upsert_repo(&name, &locator_path(&config.clone_root, &name), None);
    let moved = join(&config.clone_root, "example.com/moved-out-of-band/repo");
    let mut found = stale_facts(&store, &config);
    found.checkouts.push(CheckoutFacts {
        path: moved.clone(),
        comparable: moved.clone(),
        locator: Some(name),
    });
    track_checkouts(&mut store, &found, true);
    assert_ne!(store.repos[0].path, moved);
    repair_registry(&mut store, &found, false).unwrap();
    assert_eq!(store.repos.len(), 1);
    assert_eq!(store.repos[0].id, id);
    assert_eq!(store.repos[0].path, moved);
}

#[test]
fn operations_change_the_registry() {
    let mut store = Registry::new();
    let name = locator("example.com/manual/repo");
    let track = RepairOperationKind::TrackUnmanagedCheckout(RepairUntrackedCheckout {
        locator: Some(name.clone()),
        path: "/work/manual".to_string(),
        status: RepairUntrackedCheckoutStatus::NeedsTracking,
        reasons: Vec::new(),
    });
    apply_to_registry(&mut store, &track).unwrap();
    let id = store.find_locator(&name).unwrap().id;
    let prune = RepairOperationKind::PruneStale(RepairStalePath {
        repo_id: id,
        locator: name.clone(),
        path: "/work/manual".to_string(),
        status: RepairStalePathStatus::NeedsPrune,
        reasons: Vec::new(),
        blocking_dependents: Vec::new(),
    });
    apply_to_registry(&mut store, &prune).unwrap();
    assert!(store.find_locator(&name).is_none());
    assert!(apply_to_registry(&mut store, &prune).is_err());
}

fn missing(path: &str) -> RepositoryFacts {
    RepositoryFacts {
        exists: false,
        comparable: path.to_string(),
        namespace: None,
        worktrees: Vec::new(),
        kind: KindFacts {
            view: Ok(false),
            bare: Err("missing".to_string()),
            worktree: Ok(false),
        },
    }
}

fn report_on(config: &Config, store: &Registry) -> CheckDump {
    let seen = store
        .current_repos()
        .iter()
        .map(|repo| missing(&repo.path))
        .collect();
    let places = store
        .managed_worktrees()
        .iter()
        .map(|worktree| worktree.path.clone())
        .collect();
    let inventory = take_inventory(&config.root, store, &seen, &places).unwrap();
    check_dump_report(&config.root, inventory, &Vec::new())
}

#[test]
fn check_dump_reports_root_relative_ids_and_relationship_types() {
    let config = test_config("/work");
    let mut store = Registry::new();
    let canonical_locator = Locator::parse("example.com/project/canonical").unwrap();
    let fork_locator = Locator::parse("example.com/project/fork").unwrap();
    let mirror_locator = Locator::parse("example.com/project/mirror").unwrap();
    let canonical_path = locator_path(&config.clone_root, &canonical_locator);
    let fork_path = locator_path(&config.clone_root, &fork_locator);
    let mirror_path = locator_path(&config.clone_root, &mirror_locator);
    let canonical_id = store.upsert_repo(&canonical_locator, &canonical_path, None);
    let fork_id = store.upsert_repo(&fork_locator, &fork_path, None);
    let mirror_id = store.upsert_repo(&mirror_locator, &mirror_path, None);
    store.record_fork(fork_id, canonical_id).unwrap();
    store
        .record_resolved_related(mirror_id, canonical_id, "mirror")
        .unwrap();

    let dump = report_on(&config, &store);
    let entry = |wanted: &Locator| {
        &dump
            .tracked_repositories
            .iter()
            .find(|repo| repo.repository.locator == *wanted)
            .unwrap()
            .repository
    };
    let canonical_entry = entry(&canonical_locator);
    let fork_entry = entry(&fork_locator);
    let mirror_entry = entry(&mirror_locator);

    assert_eq!(canonical_entry.id, "clones/example.com/project/canonical");
    assert_eq!(canonical_entry.repo_type, "canonical");
    assert_eq!(canonical_entry.fork_depth, 0);
    assert_eq!(fork_entry.id, "clones/example.com/project/fork");
    assert_eq!(fork_entry.repo_type, "fork");
    assert_eq!(fork_entry.fork_depth, 1);
    assert_eq!(fork_entry.parent.as_ref().unwrap().id, canonical_entry.id);
    assert_eq!(fork_entry.canonical.as_ref().unwrap().id, canonical_entry.id);
    assert_eq!(mirror_entry.id, "clones/example.com/project/mirror");
    assert_eq!(mirror_entry.repo_type, "mirror");
    assert_eq!(mirror_entry.fork_depth, 1);
    assert_eq!(mirror_entry.parent.as_ref().unwrap().id, canonical_entry.id);
    assert_eq!(
        mirror_entry.canonical.as_ref().unwrap().id,
        canonical_entry.id
    );
    assert_eq!(canonical_entry.dependents.len(), 2);
    assert!(canonical_entry
        .dependents
        .iter()
        .any(|dependent| dependent.id == fork_entry.id && dependent.relationship == "fork"));
    assert!(canonical_entry
        .dependents
        .iter()
        .any(|dependent| dependent.id == mirror_entry.id && dependent.relationship == "mirror"));
}

#[test]
fn check_dump_resolves_transitive_fork_parent_and_canonical() {
    let config = test_config("/work");
    let mut store = Registry::new();
    let upstream_locator = Locator::parse("example.com/project/upstream").unwrap();
    let fork_locator = Locator::parse("example.com/project/fork").unwrap();
    let fork_of_fork_locator = Locator::parse("example.com/project/fork-of-fork").unwrap();
    let upstream_path = locator_path(&config.clone_root, &upstream_locator);
    let fork_path = locator_path(&config.clone_root, &fork_locator);
    let fork_of_fork_path = locator_path(&config.clone_root, &fork_of_fork_locator);
    let upstream_id = store.upsert_repo(&upstream_locator, &upstream_path, None);
    let fork_id = store.upsert_repo(&fork_locator, &fork_path, Some(upstream_locator.key()));
    let fork_of_fork_id = store.upsert_repo(
        &fork_of_fork_locator,
        &fork_of_fork_path,
        Some(upstream_locator.key()),
    );
    store.record_fork(fork_id, upstream_id).unwrap();
    store.record_fork(fork_of_fork_id, fork_id).unwrap();

    let dump = report_on(&config, &store);
    let entry = |wanted: &Locator| {
        &dump
            .tracked_repositories
            .iter()
            .find(|repo| repo.repository.locator == *wanted)
            .unwrap()
            .repository
    };
    let upstream_entry = entry(&upstream_locator);
    let fork_entry = entry(&fork_locator);
    let fork_of_fork_entry = entry(&fork_of_fork_locator);

    assert_eq!(upstream_entry.repo_type, "canonical");
    assert_eq!(upstream_entry.fork_depth, 0);
    assert_eq!(upstream_entry.dependents.len(), 1);
    assert_eq!(upstream_entry.dependents[0].id, fork_entry.id);

    assert_eq!(fork_entry.repo_type, "fork");
    assert_eq!(fork_entry.fork_depth, 1);
    assert_eq!(fork_entry.parent.as_ref().unwrap().id, upstream_entry.id);
    assert_eq!(fork_entry.canonical.as_ref().unwrap().id, upstream_entry.id);
    assert_eq!(fork_entry.dependents.len(), 1);
    assert_eq!(fork_entry.dependents[0].id, fork_of_fork_entry.id);

    assert_eq!(fork_of_fork_entry.repo_type, "fork");
    assert_eq!(fork_of_fork_entry.fork_depth, 2);
    assert_eq!(
        fork_of_fork_entry.parent.as_ref().unwrap().id,
        fork_entry.id
    );
    assert_eq!(
        fork_of_fork_entry.canonical.as_ref().unwrap().id,
        upstream_entry.id
    );
    assert!(fork_of_fork_entry.dependents.is_empty());
}

#[test]
fn check_dump_tells_directories_apart() {
    let config = test_config("/work");
    let mut store = Registry::new();
    let followed = locator("example.com/tracked/repo");
    let path = locator_path(&config.clone_root, &followed);
    let id = store.upsert_repo(&followed, &path, None);
    let topic = "/work/code/dev-worktrees/topic";
    store
        .record_worktree(id, topic, Some("topic".to_string()), None)
        .unwrap();
    store
        .record_background_fetch(id, 1_000, 3_600, true, None)
        .unwrap();
    let seen = vec![RepositoryFacts {
        exists: true,
        comparable: path.clone(),
        namespace: None,
        worktrees: vec!["/elsewhere/raw".to_string(), topic.to_string()],
        kind: KindFacts {
            view: Ok(false),
            bare: Ok(true),
            worktree: Ok(false),
        },
    }];
    let inventory =
        take_inventory(&config.root, &store, &seen, &vec![topic.to_string()]).unwrap();
    let paths = inventory.directories(vec![
        FoundDirectory {
            path: path.clone(),
            comparable: path.clone(),
        },
        FoundDirectory {
            path: topic.to_string(),
            comparable: topic.to_string(),
        },
        FoundDirectory {
            path: "/work/code/clones/stray".to_string(),
            comparable: "/work/code/clones/stray".to_string(),
        },
    ]);
    let listed: Vec<&str> = paths.iter().map(|found| found.path.as_str()).collect();
    assert_eq!(
        listed,
        vec![
            "/elsewhere/raw",
            "/work/code/clones/example.com/tracked/repo",
            "/work/code/clones/stray",
            "/work/code/dev-worktrees/topic",
        ]
    );
    let facts = paths
        .iter()
        .map(|found| DirectoryFacts {
            path: found.path.clone(),
            comparable: found.comparable.clone(),
            under_root: found.comparable.starts_with("/work/code"),
            view_locator: None,
            origin_locator: None,
            kind: KindFacts {
                view: Ok(false),
                bare: Ok(found.path == path),
                worktree: Ok(found.path == topic || found.path == "/elsewhere/raw"),
            },
        })
        .collect();
    let dump = check_dump_report(&config.root, inventory, &facts);
    assert!(dump.tracked_repositories[0].exists);
    assert_eq!(dump.tracked_repositories[0].repository.checkout_kind, "bare");
    assert_eq!(
        dump.tracked_repositories[0]
            .background_fetch
            .as_ref()
            .unwrap()
            .learned_interval_seconds,
        3_600
    );
    let raw = &dump.git_directories[0];
    assert!(!raw.is_tracked);
    assert_eq!(raw.id, None);
    assert_eq!(raw.kind.as_deref(), Some("worktree"));
    let own = &dump.git_directories[1];
    assert!(own.is_tracked);
    assert_eq!(own.id.as_deref(), Some("clones/example.com/tracked/repo"));
    assert_eq!(own.kind.as_deref(), Some("bare"));
    let stray = &dump.git_directories[2];
    assert!(!stray.is_tracked);
    assert_eq!(stray.id.as_deref(), Some("clones/stray"));
    let managed = &dump.git_directories[3];
    assert!(managed.is_tracked);
    assert_eq!(managed.worktree_name.as_deref(), Some("topic"));
}

#[test]
fn moved_repositories_answer_to_their_old_names() {
    let mut store = Registry::new();
    let old = locator("example.com/old/tool");
    let new = locator("example.com/new/tool");
    let path = locator_path("/work/clones", &old);
    let id = store.upsert_repo(&old, &path, None);
    let plan = plan_move("/work/clones", old.clone(), new.clone(), &[]);
    store.apply_move_metadata(id, &plan).unwrap();
    let found = store.find_locator(&old).unwrap();
    assert_eq!(found.id, id);
    assert_eq!(found.current, new);
    assert_eq!(found.path, "/work/clones/example.com/new/tool");
    assert_eq!(store.find_repo("example.com/old/tool").unwrap().unwrap().id, id);
    let aliases = store.aliases("example.com/new/tool").unwrap();
    assert_eq!(aliases[0].alias_path, "/work/clones/example.com/old/tool");
    assert!(store.historical_locators(id).contains(&old));
    store.delete_repo(id).unwrap();
    assert!(store.find_locator(&new).is_none());
    assert!(store.aliases_of(id).is_empty());
}

#[test]
fn canonical_repositories_have_no_parent() {
    let mut store = Registry::new();
    let upstream = store.upsert_repo(&locator("example.com/a/up"), "/work/up", None);
    let fork = store.upsert_repo(&locator("example.com/b/fork"), "/work/fork", None);
    store.record_fork(fork, upstream).unwrap();
    assert!(store.ensure_no_dependents(upstream).is_err());
    assert!(store.ensure_no_dependents(fork).is_ok());
    store.clear_dependent_relationships(fork);
    assert!(store.shared_git_dir_relationships().is_empty());
    assert!(store.ensure_no_dependents(upstream).is_ok());
    assert!(store.record_fork(fork, 99).is_err());
}

#[test]
fn types_are_changed_step_by_step() {
    let mut store = Registry::new();
    let upstream = store.upsert_repo(&locator("example.com/a/up"), "/work/up", None);
    let fork = store.upsert_repo(&locator("example.com/b/fork"), "/work/fork", None);
    let repo = store.repo_by_id(fork).unwrap();
    assert_eq!(parse_repo_type("fork").unwrap(), RepoType::Fork);
    assert_eq!(parse_repo_type("mirror").unwrap().as_str(), "mirror");
    assert!(parse_repo_type("clone").is_err());
    assert!(begin_set_type(&mut store, &repo, RepoType::Fork, &None, false).is_err());
    match begin_set_type(
        &mut store,
        &repo,
        RepoType::Fork,
        &Some("example.com/a/up".to_string()),
        false,
    )
    .unwrap()
    {
        TypeChange::NeedsParent { repo_type, reference } => {
            assert_eq!(repo_type, RepoType::Fork);
            assert_eq!(reference, "example.com/a/up");
        }
        TypeChange::Done => panic!("a fork needs a parent"),
    }
    let other = store.upsert_repo(&locator("example.com/c/mirror"), "/work/mirror", None);
    let parent = RelationshipParent {
        parent: store.repo_by_id(other).unwrap(),
        storage: store.repo_by_id(upstream).unwrap(),
    };
    finish_set_type(&mut store, &repo, &parent, RepoType::Fork).unwrap();
    let links = store.shared_git_dir_relationships();
    assert_eq!(links.len(), 1);
    assert_eq!(links[0].controlling_repo_id, other);
    assert!(matches!(
        begin_set_type(&mut store, &repo, RepoType::Canonical, &None, false).unwrap(),
        TypeChange::Done
    ));
    assert!(store.shared_git_dir_relationships().is_empty());
}

#[test]
fn parents_are_found_by_path_or_by_url() {
    let mut store = Registry::new();
    let up = record_parent(&mut store, &locator("example.com/a/up"), "/work/up");
    assert_eq!(up.path, "/work/up");
    let places = vec!["/work/up".to_string()];
    let repos = store.current_repos();
    assert_eq!(
        managed_repo_by_path_id(&repos, &places, "/work/up", "up").unwrap().id,
        up.id
    );
    assert!(managed_repo_by_path_id(&repos, &places, "/work/else", "else").is_err());
    match choose_parent(&store, None, None, "/work/clones", "https://example.com/x/y").unwrap() {
        ParentSource::Remote { path, .. } => {
            assert_eq!(path, "/work/clones/example.com/x/y");
        }
        other => panic!("found {other:?}"),
    }
    assert!(choose_parent(&store, None, None, "/work/clones", "::").is_err());
    assert_eq!(
        ensure_managed_canonical_is_bare("/work/up", false, true, false).unwrap(),
        BareNeed::Convert
    );
    assert_eq!(
        ensure_managed_canonical_is_bare("/work/up", false, true, true).unwrap(),
        BareNeed::Nothing
    );
}

#[test]
fn shares_are_recorded_with_both_repositories() {
    let mut store = Registry::new();
    let fork = locator("example.com/b/fork");
    let up = locator("example.com/a/up");
    record_share(
        &mut store,
        &Placed {
            locator: &fork,
            path: "/work/fork",
        },
        &Placed {
            locator: &up,
            path: "/work/up",
        },
        "fork",
        true,
    )
    .unwrap();
    let links = store.shared_git_dir_relationships();
    assert_eq!(links[0].relationship, "fork");
    assert_eq!(links[0].dependent_locator, fork);
    assert_eq!(links[0].controlling_locator, up);
}

#[test]
fn contexts_are_found_by_path_and_by_origin() {
    let mut store = Registry::new();
    let up = store.upsert_repo(&locator("example.com/a/up"), "/work/up", None);
    let facts = |dir: &str, origin: Option<Locator>, under: bool| ContextFacts {
        dir: dir.to_string(),
        view: None,
        under_clone_root: under,
        origin,
    };
    match repo_context(&store, facts("/work/up", None, false)).unwrap() {
        RepoContext::Managed(record) => assert_eq!(record.id, up),
        other => panic!("found {other:?}"),
    }
    assert!(repo_context(&store, facts("/work/none", None, false)).is_err());
}

#[test]
fn shared_histories_are_suggested_once() {
    let mut store = Registry::new();
    let roots = vec!["a".repeat(40)];
    let found = vec![FoundRepository {
        path: "/work/b".to_string(),
        place: "/work/b".to_string(),
        roots: vec!["a".repeat(40)],
        locator: Some(locator("example.com/b")),
    }];
    let first = locator("example.com/a");
    let count =
        detect_related_history(&mut store, &first, "/work/a", "/work/a", &roots, &found).unwrap();
    assert_eq!(count, 1);
    assert_eq!(store.pending_related_count(), 1);
    detect_related_history(&mut store, &first, "/work/a", "/work/a", &roots, &found).unwrap();
    assert_eq!(store.related_suggestions(false).len(), 1);
    assert!(related_notification(1, &first).contains("example.com/a"));
    assert!(pending_warning(0).is_none());
    assert!(pending_warning(1).is_some());
    let id = store.related_suggestions(true)[0].id;
    assert!(begin_related_resolve(&store, id, "nonsense").is_err());
    assert!(begin_related_resolve(&store, id, "fork").unwrap().is_some());
}

#[test]
fn evidence_is_the_same_from_both_sides() {
    let left = vec!["a".repeat(40), "b".repeat(40)];
    let right = vec!["b".repeat(40), "c".repeat(40)];
    assert_eq!(
        shared_root_evidence(&left, &right),
        shared_root_evidence(&right, &left)
    );
    assert!(!shared_root_evidence(&left, &right).is_empty());
    assert!(shared_root_evidence(&left, &vec!["d".repeat(40)]).is_empty());
    assert_eq!(short_hash(&"a".repeat(40)), "a".repeat(12));
    assert!(!summarize_shared_history_evidence(&shared_root_evidence(&left, &right)).is_empty());
    assert!(validate_relationship_kind("fork").is_ok());
    assert!(validate_relationship_kind("twin").is_err());
}

#[test]
fn quiet_repositories_are_fetched_less_often() {
    assert_eq!(learned_interval(60, None, true), 60);
    assert_eq!(learned_interval(60, Some(600), true), 60);
    let slower = learned_interval(60, Some(60), false);
    assert!(slower > 60);
    assert!(learned_interval(60, Some(slower), false) >= slower);
    assert!(background_fetch_wake_seconds(3_600) >= 1);
    assert!(background_fetch_args("origin").contains(&"origin".to_string()));
}

#[test]
fn fetches_are_due_again_after_their_interval() {
    let mut store = Registry::new();
    let id = store.upsert_repo(&locator("example.com/a"), "/work/a", None);
    assert_eq!(store.background_fetch_candidates(0, 60).len(), 1);
    assert!(record_fetch_turn(
        &mut store,
        id,
        1_000,
        60,
        FetchTurn::Fetched {
            before: "x".to_string(),
            after: "y".to_string(),
        },
    )
    .unwrap());
    assert!(store.background_fetch_candidates(1_059, 60).is_empty());
    assert_eq!(store.background_fetch_candidates(1_060, 60).len(), 1);
    let state = store.background_fetch_state(id).unwrap();
    assert_eq!(state.last_changed_at, Some(1_000));
    assert!(record_fetch_turn(&mut store, 99, 0, 60, FetchTurn::Missing).is_err());
}

#[test]
fn paths_are_named_below_the_root() {
    assert_eq!(repository_path_id("/work", "/work/clones/a"), "clones/a");
    assert_eq!(repository_path_id("/work", "/else/a"), "/else/a");
    for (root, path, id) in [
        ("/r", "/r/a//b", "a//b"),
        ("/r/", "//r/./a/./b/.", "a/./b"),
        ("/", "//a//b/", "a//b"),
        ("/r", "/r/.", ""),
        (".", "./a//", "a"),
        ("", "//a//", "//a"),
        ("", "//", "/"),
        ("", "./", "."),
        ("", "", ""),
    ] {
        assert_eq!(repository_path_id(root, path), id);
        let prefix = std::path::Path::new(path).strip_prefix(root).unwrap();
        assert_eq!(prefix.to_str().unwrap(), id);
        assert!(same_path(&join(root, id), path));
    }
    assert_eq!(expected_repo_path("/work", "clones/a"), "/work/clones/a");
    assert_eq!(expected_repo_path("/work", "/else/a"), "/else/a");
    assert!(is_git_worktree(true, "/a/.git/worktrees/b", "/a/.git"));
    assert!(!is_git_worktree(true, "/a/.git", "/a/.git"));
    assert!(!is_git_worktree(false, "/a/.git/worktrees/b", "/a/.git"));
}

fn plain() -> DirectoryMarks {
    DirectoryMarks {
        view_file: false,
        dot_git: false,
        head_file: false,
        objects_dir: false,
        refs_dir: false,
    }
}

fn entry(path: &str, name: &str) -> DirectoryEntry {
    DirectoryEntry {
        path: path.to_string(),
        name: Some(name.to_string()),
        directory: true,
        symlink: false,
    }
}

#[test]
fn scans_stop_at_repositories() {
    let mut scan = Scan::start("/work", true);
    let root = scan.next().unwrap();
    assert_eq!(root, "/work");
    scan.visit(
        root,
        &plain(),
        &vec![entry("/work/b", "b"), entry("/work/a", "a")],
    );
    while let Some(path) = scan.next() {
        let marks = DirectoryMarks {
            dot_git: true,
            ..plain()
        };
        scan.visit(path, &marks, &vec![entry("/work/a/inner", "inner")]);
    }
    assert_eq!(scan.finish(), vec!["/work/a", "/work/b"]);
    assert!(Scan::start("/none", false).next().is_none());
}

#[test]
fn small_choices_of_the_command_line() {
    assert_eq!(
        editor_command(&Some("code --wait".to_string()), &None),
        vec!["code", "--wait"]
    );
    assert_eq!(editor_command(&None, &Some("nano".to_string())), vec!["nano"]);
    assert!(reject_sudo_repod(true).is_err());
    assert!(reject_sudo_repod(false).is_ok());
    assert!(selection_text(1, 3).contains('1'));
}

#[test]
fn unknown_repositories_are_not_moved() {
    let mut store = Registry::new();
    let old = locator("example.com/old/tool");
    let new = locator("example.com/new/tool");
    let plan = plan_move("/work/clones", old.clone(), new.clone(), &[]);
    assert_eq!(
        store.apply_move_metadata(7, &plan).unwrap_err().message,
        "FOREIGN KEY constraint failed"
    );
    assert_eq!(
        store.record_locator(7, &old, "/work/old", true).unwrap_err().message,
        "FOREIGN KEY constraint failed"
    );
    assert!(store.locators.is_empty());
    assert!(store.aliases.is_empty());
    let id = store.upsert_repo(&old, "/work/old", None);
    store.record_locator(id, &new, "/work/new", false).unwrap();
    assert_eq!(store.find_locator(&new).unwrap().id, id);
    assert_eq!(store.find_locator(&new).unwrap().current, old);
}

#[test]
fn repositories_without_locators_do_not_answer() {
    let mut store = Registry::new();
    let name = locator("example.com/old/tool");
    store.upsert_repo(&name, "/work/old", None);
    assert!(store.find_locator(&name).is_some());
    store.locators.clear();
    assert!(store.find_locator(&name).is_none());
}

#[test]
fn rows_are_recorded_once_and_go_with_their_repository() {
    let mut store = Registry::new();
    let up = store.upsert_repo(&locator("example.com/a/up"), "/work/up", None);
    let fork = store.upsert_repo(&locator("example.com/b/fork"), "/work/fork", None);
    for _ in 0..2 {
        store.record_fork(fork, up).unwrap();
        store
            .record_worktree(fork, "/work/topic", Some("topic".to_string()), None)
            .unwrap();
        store.record_background_fetch(fork, 100, 60, true, None).unwrap();
        store.record_successor("example.com/old", &locator("example.com/a/up"));
    }
    assert_eq!(store.forks.len(), 1);
    assert_eq!(store.worktrees.len(), 1);
    assert_eq!(store.fetches.len(), 1);
    assert_eq!(store.successors.len(), 1);
    store.delete_repo(fork).unwrap();
    assert!(store.forks.is_empty());
    assert!(store.worktrees.is_empty());
    assert!(store.fetches.is_empty());
    assert_eq!(store.successors.len(), 1);
    assert!(store.record_fork(fork, up).is_err());
}

#[test]
fn forks_of_bare_repositories_have_their_own_origin() {
    let mut config = test_config("/work");
    let mut store = Registry::new();
    let id = store.upsert_repo(&locator("example.com/a/up"), "/work/up", None);
    let parent = RelationshipParent {
        parent: store.repo_by_id(id).unwrap(),
        storage: store.repo_by_id(id).unwrap(),
    };
    let fork = "https://example.com/b/fork.git";
    let up = "https://example.com/a/up.git";
    let beside = plan_fork(&config, fork, up, locator(fork), &parent).unwrap();
    assert_eq!(beside.fork_remote, "fork-example.com-b-fork");
    config.clone_as_bare = true;
    let view = plan_fork(&config, fork, up, locator(fork), &parent).unwrap();
    assert_eq!(view.fork_remote, "origin");
    assert_eq!(
        plan_fork(&config, up, up, locator(up), &parent).unwrap_err().message,
        "repository cannot be its own parent repository"
    );
}

#[test]
fn broken_chains_are_refused_for_every_parent() {
    let mut store = Registry::new();
    let a = store.upsert_repo(&locator("example.com/a/one"), "/work/one", None);
    let b = store.upsert_repo(&locator("example.com/a/two"), "/work/two", None);
    let apart = store.upsert_repo(&locator("example.com/a/apart"), "/work/apart", None);
    let lone = store.repo_by_id(apart).unwrap();
    let found = resolve_relationship_parent_storage(&mut store, lone, &None).unwrap();
    assert_eq!(found.storage.id, apart);
    store.record_fork(a, b).unwrap();
    store.record_fork(b, a).unwrap();
    let lone = store.repo_by_id(apart).unwrap();
    let error = resolve_relationship_parent_storage(&mut store, lone, &None).unwrap_err();
    assert_eq!(
        error.message,
        "fork/mirror relationship cycle involving example.com/a/one"
    );
}

#[test]
fn the_longest_interval_is_kept() {
    let mut store = Registry::new();
    let id = store.upsert_repo(&locator("example.com/a/up"), "/work/up", None);
    store.record_background_fetch(id, 1_000, u64::MAX, true, None).unwrap();
    assert_eq!(
        store.background_fetch_state(id).unwrap().learned_interval_seconds,
        i64::MAX
    );
    assert!(store.background_fetch_candidates(2_000_000_000, u64::MAX).is_empty());
}
