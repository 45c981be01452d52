use repo_manager::cli::{check_action, BranchArgs, CheckAction, CheckArgs, WorktreeAddArgs};
use repo_manager::config::{Config, ForgeBackend, RepoVisibility};
use repo_manager::git::{
    backup_path, branches_under, checkout_needed, default_branch_in, dependent_default_branch,
    ensure_remote_args, ensure_tracking_args, git_directory, is_bare_repository,
    linked_worktree_paths, parse_remotes, remote_url_in, GitRemote,
};
use repo_manager::help::{expand_help_group, to_kebab_case, Subcommand};
use repo_manager::locator::Locator;
use repo_manager::materialize::{
    check_share, checkout_controlling_default_branch, materialize_namespace_view,
    materialize_related_bare_repo, materialize_related_shared_git_dir, ShareFacts, ViewPlaceFacts,
};
use repo_manager::moves::{plan_move, validate_worktree_name};
use repo_manager::naming::{
    dependent_local_branch, related_remote_name, remote_url_for_locator, repo_view_refs_prefix,
    sanitize_remote_name, split_authority_port,
};
use repo_manager::output::{
    aliases_output, branch_output, clone_output, create_output, daemon_ping_text, fetch_output,
    manage_output, move_output, reconcile_output, setup_text, successor_output,
    type_change_output, worktree_output,
};
use repo_manager::paths::{join, path_starts_with, same_path};
use repo_manager::reconcile::{
    apply_filesystem_move, link_action, move_target, reconcile_repo, LinkAction, ReconcileAction,
    ReconcileFacts,
};
use repo_manager::registry::{ManagedRepoRecord, Registry};
use repo_manager::relation_check::{shared_git_dir_relationship_repair_reasons, LinkFacts};
use repo_manager::relations::{relationship_summaries, SharedGitDirRelationship};
use repo_manager::share::{
    conversion, convert_standalone_checkout_to_bare_repository, ensure_clean_checkout,
    resolve_worktree, seed_canonical_from_dependent_checkout, BareFacts, Placed, SeedFacts,
};
use repo_manager::steps::{Stage, Step};
use repo_manager::views::{
    branch_args, check_view_version, fetch_view_args, resolve_repo_view_start_ref,
    start_point_candidates, view_default_branch, view_worktree_refs, RepoViewMetadata,
    REPO_VIEW_METADATA_VERSION,
};
use repo_manager::worktrees::{
    plan_managed_worktree, plan_url_worktree, plan_view_worktree, record_new_worktree,
    start_in_context, worktree_context, worktree_head, worktree_head_file, ContextUse,
};

fn test_config(root: &str) -> Config {
    Config {
        config_path: format!("{root}/config.json"),
        state: format!("{root}/repos.sqlite"),
        cache_root: format!("{root}/cache"),
        root: format!("{root}/code"),
        clone_root: format!("{root}/code/clones"),
        dev_worktree_root: format!("{root}/code/dev-worktrees"),
        rpc_url: format!("unix://{root}/repo-manager.sock"),
        client_id: "00000000-0000-4000-8000-000000000099".to_string(),
        assume_origin_as_canonical: false,
        clone_as_bare: false,
        create_default_visibility: RepoVisibility::Private,
        forges: Vec::new(),
    }
}

fn locator(text: &str) -> Locator {
    Locator::parse(text).unwrap()
}

fn steps(stages: &[Stage]) -> Vec<&Step> {
    stages.iter().flat_map(|stage| stage.steps.iter()).collect()
}

fn moves(steps: &[Step]) -> Vec<(String, String)> {
    steps
        .iter()
        .filter_map(|step| match step {
            Step::Rename { from, to, .. } | Step::RenameBack { from, to } => {
                Some((from.clone(), to.clone()))
            }
            _ => None,
        })
        .collect()
}

#[test]
fn remotes_are_listed_in_order() {
    let listed = parse_remotes(
        "remote.upstream.url https://github.com/them/tool\n\
         remote.origin.url https://github.com/me/tool\n\
         remote..url https://github.com/no/name\n\
         core.bare false\n",
    );
    assert_eq!(
        listed,
        vec![
            GitRemote {
                name: "origin".to_string(),
                url: "https://github.com/me/tool".to_string()
            },
            GitRemote {
                name: "upstream".to_string(),
                url: "https://github.com/them/tool".to_string()
            },
        ]
    );
    assert!(parse_remotes("").is_empty());
}

#[test]
fn answers_of_git_are_read() {
    assert_eq!(
        remote_url_in(&Some("https://example.com/a\n".to_string())).as_deref(),
        Some("https://example.com/a")
    );
    assert_eq!(remote_url_in(&None), None);
    assert!(is_bare_repository(&Some("true\n".to_string())));
    assert!(!is_bare_repository(&Some("false\n".to_string())));
    assert!(!is_bare_repository(&None));
    assert_eq!(git_directory("/work/a", ".git\n"), "/work/a/.git");
    assert_eq!(git_directory("/work/a", "/work/b.git\n"), "/work/b.git");
    assert!(checkout_needed("main", "topic"));
    assert!(!checkout_needed("topic", "topic"));
    assert_eq!(
        linked_worktree_paths("worktree /work/a\nHEAD abc\n\nworktree /work/b\n"),
        vec!["/work/a", "/work/b"]
    );
    assert_eq!(
        branches_under("refs/x/heads/main\nrefs/y/heads/other\n", "refs/x/heads"),
        vec!["main"]
    );
    assert_eq!(
        default_branch_in("ref: refs/heads/trunk\tHEAD\nabc\tHEAD\n").as_deref(),
        Some("trunk")
    );
}

#[test]
fn remotes_and_branches_are_set_or_added() {
    assert_eq!(
        ensure_remote_args(false, "origin", "https://example.com/a"),
        vec!["remote", "add", "origin", "https://example.com/a"]
    );
    assert_eq!(
        ensure_remote_args(true, "origin", "https://example.com/a"),
        vec!["remote", "set-url", "origin", "https://example.com/a"]
    );
    assert!(ensure_tracking_args(false, "fork/main", "fork-me/main")
        .contains(&"fork/main".to_string()));
    assert_ne!(
        ensure_tracking_args(false, "fork/main", "fork-me/main"),
        ensure_tracking_args(true, "fork/main", "fork-me/main")
    );
}

#[test]
fn default_branches_need_a_head_or_a_checkout() {
    assert!(dependent_default_branch(&None, &None, "/work/a").is_err());
    assert_eq!(
        dependent_default_branch(&None, &Some("main".to_string()), "/work/a").unwrap(),
        "main"
    );
}

#[test]
fn backups_have_names_of_their_own() {
    assert_ne!(
        backup_path("/work", "tool", 1, 0),
        backup_path("/work", "tool", 1, 1)
    );
    assert_ne!(
        backup_path("/work", "tool", 1, 0),
        backup_path("/work", "tool", 2, 0)
    );
    assert!(backup_path("/work", "tool", 1, 0).starts_with("/work/"));
}

#[test]
fn names_are_made_plain() {
    assert_eq!(sanitize_remote_name("a/b c"), "a-b-c");
    assert!(related_remote_name("mirror", &locator("example.com/a/b")).starts_with("mirror-"));
    assert!(
        dependent_local_branch("fork", &locator("example.com/a/b"), "main").ends_with("main")
    );
    assert!(repo_view_refs_prefix("fork", &locator("example.com/a/b")).starts_with("refs/"));
    assert_eq!(
        split_authority_port("example.com:2222"),
        ("example.com".to_string(), Some(2222))
    );
    assert_eq!(
        split_authority_port("example.com"),
        ("example.com".to_string(), None)
    );
    assert_eq!(to_kebab_case("RepoSetType"), "repo-set-type");
    let group = expand_help_group(&vec![
        Subcommand {
            ident: "CloneRepo".to_string(),
            name: None,
            about: Some("Clone".to_string()),
            hidden: false,
        },
        Subcommand {
            ident: "Repair".to_string(),
            name: None,
            about: Some("Repair".to_string()),
            hidden: true,
        },
    ])
    .unwrap();
    assert_eq!(group, vec![("clone-repo".to_string(), "Clone".to_string())]);
}

#[test]
fn lib_relocated_origin_urls_preserve_existing_style_when_possible() {
    let locator = Locator::parse("github.com/new-owner/new-name").unwrap();
    assert_eq!(
        remote_url_for_locator(Some("https://github.com/old-owner/old-name.git"), &locator),
        "https://github.com/new-owner/new-name.git"
    );
    assert_eq!(
        remote_url_for_locator(Some("git@github.com:old-owner/old-name.git"), &locator),
        "git@github.com:new-owner/new-name.git"
    );
    assert_eq!(
        remote_url_for_locator(
            Some("ssh://git@github.com/old-owner/old-name.git"),
            &locator
        ),
        "ssh://git@github.com/new-owner/new-name.git"
    );
}

fn seed_facts() -> SeedFacts {
    SeedFacts {
        controlling_exists: false,
        dependent_exists: true,
        origin_head: None,
        current_branch: Some("main".to_string()),
    }
}

#[test]
fn seeding_moves_the_checkout_and_can_be_taken_back() {
    let fork = locator("github.com/me/tool");
    let up = locator("github.com/them/tool");
    let dependent = Placed {
        locator: &fork,
        path: "/work/fork",
    };
    let controlling = Placed {
        locator: &up,
        path: "/work/up",
    };
    let plan = seed_canonical_from_dependent_checkout(
        &dependent,
        &controlling,
        "https://github.com/me/tool",
        "https://github.com/them/tool",
        "fork",
        &seed_facts(),
    )
    .unwrap();
    assert_eq!(plan.resolution.dependent_path, "/work/fork");
    assert_eq!(plan.resolution.controlling_path, "/work/up");
    let mut forward = Vec::new();
    for stage in &plan.stages {
        forward.extend(moves(&stage.steps));
    }
    assert!(forward.contains(&("/work/fork".to_string(), "/work/up".to_string())));
    let taken = SeedFacts {
        controlling_exists: true,
        ..seed_facts()
    };
    assert!(seed_canonical_from_dependent_checkout(
        &dependent,
        &controlling,
        "https://github.com/me/tool",
        "https://github.com/them/tool",
        "fork",
        &taken,
    )
    .is_err());
}

#[test]
fn conversions_undo_their_moves() {
    let fork = locator("github.com/me/tool");
    let up = locator("github.com/them/tool");
    let resolution = resolve_worktree(
        &Placed {
            locator: &fork,
            path: "/work/fork",
        },
        &Placed {
            locator: &up,
            path: "/work/up",
        },
        "fork",
        "https://github.com/me/tool",
        "main",
        true,
    );
    assert!(resolution.converted_to_worktree);
    let stages = conversion(&resolution, "/work/backup");
    let forward: Vec<(String, String)> = stages
        .iter()
        .flat_map(|stage| moves(&stage.steps))
        .collect();
    assert_eq!(
        forward,
        vec![("/work/fork".to_string(), "/work/backup".to_string())]
    );
    assert!(stages.iter().any(|stage| moves(&stage.undo)
        .contains(&("/work/backup".to_string(), "/work/fork".to_string()))));
    assert!(ensure_clean_checkout("", "/work/fork").is_ok());
    assert!(ensure_clean_checkout(" M file\n", "/work/fork").is_err());
}

#[test]
fn bare_conversions_need_a_clean_checkout_of_its_own() {
    let facts = |status: &str, owns: bool| BareFacts {
        status: status.to_string(),
        owns_git_dir: owns,
        worktrees: Vec::new(),
    };
    let stages =
        convert_standalone_checkout_to_bare_repository("/work/a", "/work/b", &facts("", true))
            .unwrap();
    assert!(steps(&stages)
        .iter()
        .any(|step| matches!(step, Step::SetConfig { .. } | Step::MakeBare { .. })));
    assert!(
        convert_standalone_checkout_to_bare_repository("/work/a", "/work/b", &facts(" M x", true))
            .is_err()
    );
    assert!(
        convert_standalone_checkout_to_bare_repository("/work/a", "/work/b", &facts("", false))
            .is_err()
    );
}

#[test]
fn dependents_share_the_git_directory() {
    let fork = locator("github.com/me/tool");
    let up = locator("github.com/them/tool");
    let dependent = Placed {
        locator: &fork,
        path: "/work/fork",
    };
    let controlling = Placed {
        locator: &up,
        path: "/work/up",
    };
    assert!(check_share(&dependent, &controlling, "fork", true, true).is_ok());
    assert!(check_share(&dependent, &controlling, "fork", false, true).is_err());
    let facts = ShareFacts {
        origin: Some("https://github.com/me/tool".to_string()),
        already_shared: false,
        head: None,
        current: Ok("main".to_string()),
        status: String::new(),
        backup: "/work/backup".to_string(),
    };
    let plan =
        materialize_related_shared_git_dir(&dependent, &controlling, "fork", &facts).unwrap();
    assert!(plan.resolution.converted_to_worktree);
    assert_eq!(plan.resolution.dependent_url, "https://github.com/me/tool");
    let dirty = ShareFacts {
        status: " M x".to_string(),
        ..facts
    };
    assert!(
        materialize_related_shared_git_dir(&dependent, &controlling, "fork", &dirty).is_err()
    );
    assert!(!checkout_controlling_default_branch(&None, "main").is_empty());
}

fn view_facts() -> ViewPlaceFacts {
    ViewPlaceFacts {
        canonical_is_bare: true,
        default_branch: Some("main".to_string()),
        exists: false,
        has_view: false,
        backup: "/work/backup".to_string(),
    }
}

fn view() -> RepoViewMetadata {
    let fork = locator("github.com/me/tool");
    let up = locator("github.com/them/tool");
    materialize_namespace_view(
        &Placed {
            locator: &fork,
            path: "/work/fork",
        },
        &Placed {
            locator: &up,
            path: "/work/up",
        },
        "fork",
        "https://github.com/me/tool",
        &view_facts(),
    )
    .unwrap()
    .view
}

#[test]
fn views_live_in_a_namespace_of_the_canonical_repository() {
    let view = view();
    assert_eq!(view.version, REPO_VIEW_METADATA_VERSION);
    assert_eq!(view.canonical_path, "/work/up");
    assert_eq!(view.default_branch, "main");
    assert_eq!(
        view.refs_prefix,
        repo_view_refs_prefix("fork", &locator("github.com/me/tool"))
    );
    assert!(check_view_version(&view, "/work/fork/x").is_ok());
    let newer = RepoViewMetadata {
        version: REPO_VIEW_METADATA_VERSION + 1,
        ..self::view()
    };
    assert!(check_view_version(&newer, "/work/fork/x").is_err());
    let fork = locator("github.com/me/tool");
    let up = locator("github.com/them/tool");
    let unbare = ViewPlaceFacts {
        canonical_is_bare: false,
        ..view_facts()
    };
    assert!(materialize_namespace_view(
        &Placed {
            locator: &fork,
            path: "/work/fork",
        },
        &Placed {
            locator: &up,
            path: "/work/up",
        },
        "fork",
        "https://github.com/me/tool",
        &unbare,
    )
    .is_err());
    let plan = materialize_related_bare_repo(
        &Placed {
            locator: &fork,
            path: "/work/fork",
        },
        &Placed {
            locator: &up,
            path: "/work/up",
        },
        "fork",
        &Some("https://github.com/me/tool".to_string()),
        true,
        &view_facts(),
    )
    .unwrap();
    assert_eq!(plan.resolution.dependent_path, "/work/fork");
}

#[test]
fn views_fetch_and_start_in_their_namespace() {
    let view = view();
    assert!(fetch_view_args(&view, "origin").unwrap().iter().any(|arg| arg
        .contains(&view.refs_prefix)));
    assert!(fetch_view_args(&view, "upstream").is_err());
    let heads = format!("{}/heads/main", view.refs_prefix);
    assert_eq!(start_point_candidates(&view, &None)[0], heads);
    assert_eq!(
        resolve_repo_view_start_ref(&view, &None, &vec![true, true]).unwrap(),
        heads
    );
    assert!(resolve_repo_view_start_ref(&view, &None, &vec![false, false]).is_err());
    let refs = view_worktree_refs(&view, &Some("topic".to_string()), &None, &heads);
    assert_eq!(
        refs.branch_ref.unwrap(),
        format!("{}/heads/topic", view.refs_prefix)
    );
    assert!(view_default_branch(&view, true, false, "abc").is_some());
    assert!(view_default_branch(&view, true, true, "abc").is_none());
    assert!(branch_args(&BranchArgs {
        branch: None,
        start_point: None
    })
    .is_none());
    assert_eq!(
        branch_args(&BranchArgs {
            branch: Some("topic".to_string()),
            start_point: Some("main".to_string())
        })
        .unwrap(),
        vec!["branch", "topic", "main"]
    );
}

fn worktree_args(name: &str, start: Option<&str>) -> WorktreeAddArgs {
    WorktreeAddArgs {
        repo_or_name: name.to_string(),
        name_or_start_point: start.map(str::to_string),
        start_point: None,
        branch: None,
        detach: false,
        force: false,
        reset: false,
    }
}

#[test]
fn worktrees_are_planned_from_urls_repositories_and_views() {
    let config = test_config("/work");
    let planned = plan_url_worktree(
        &config,
        &worktree_args("https://github.com/me/tool", Some("topic")),
    )
    .unwrap();
    assert_eq!(planned.name, "topic");
    assert_eq!(
        planned.plan.canonical_path,
        "/work/code/clones/github.com/me/tool"
    );
    assert!(planned.plan.worktree_path.starts_with("/work/code/dev-worktrees/"));
    assert!(plan_url_worktree(&config, &worktree_args("https://github.com/me/tool", None)).is_err());

    let repo = ManagedRepoRecord {
        id: 1,
        current: locator("github.com/me/tool"),
        path: "/work/code/clones/github.com/me/tool".to_string(),
    };
    let here = worktree_args("topic", Some("main"));
    assert_eq!(start_in_context(&here).as_deref(), Some("main"));
    let planned = plan_managed_worktree(&config, &repo, &here).unwrap();
    assert_eq!(planned.name, "topic");
    let planned = plan_view_worktree(&config, &view(), &here, "refs/x/heads/main");
    assert_eq!(planned.name, "topic");
    assert_eq!(worktree_context(true, true), ContextUse::Required);
    assert_eq!(worktree_context(false, false), ContextUse::Preferred);
    assert!(validate_worktree_name("a/b").is_err() || validate_worktree_name("..").is_err());
}

#[test]
fn worktrees_are_recorded_with_their_repository() {
    let mut registry = Registry::new();
    record_new_worktree(
        &mut registry,
        &locator("github.com/me/tool"),
        "/work/tool",
        None,
        "/work/topic",
        "topic",
        None,
    )
    .unwrap();
    let listed = registry.managed_worktrees();
    assert_eq!(listed.len(), 1);
    assert_eq!(listed[0].path, "/work/topic");
    assert_eq!(listed[0].repo_locator, locator("github.com/me/tool"));
    assert_eq!(
        worktree_head_file("/work/topic", "gitdir: /work/tool/.git/worktrees/topic\n").unwrap(),
        "/work/tool/.git/worktrees/topic/HEAD"
    );
    assert!(worktree_head_file("/work/topic", "nothing").is_err());
    assert_eq!(worktree_head("refs/heads/main"), "ref: refs/heads/main\n");
}

#[test]
fn repositories_follow_their_locators() {
    let repo = ManagedRepoRecord {
        id: 1,
        current: locator("github.com/old/tool"),
        path: "/work/clones/github.com/old/tool".to_string(),
    };
    let facts = |origin: &str| ReconcileFacts {
        exists: true,
        origin_url: Some(origin.to_string()),
        forge: None,
        historical: Vec::new(),
    };
    assert!(matches!(
        reconcile_repo("/work/clones", &repo, &facts("https://github.com/old/tool")),
        ReconcileAction::Keep
    ));
    let plan = match reconcile_repo("/work/clones", &repo, &facts("https://github.com/new/tool")) {
        ReconcileAction::Move { plan, .. } => plan,
        other => panic!("did not move: {other:?}"),
    };
    assert_eq!(plan.new_path, "/work/clones/github.com/new/tool");
    let stages = apply_filesystem_move(&plan, true, false, "https://github.com/new/tool");
    assert!(steps(&stages).iter().any(
        |step| matches!(step, Step::Rename { from, to, .. } if *from == plan.old_path && *to == plan.new_path)
    ));
    let gone = ReconcileFacts {
        exists: false,
        ..facts("https://github.com/new/tool")
    };
    assert!(matches!(
        reconcile_repo("/work/clones", &repo, &gone),
        ReconcileAction::Skip { .. }
    ));
    assert_eq!(link_action(false, false, false), LinkAction::Make);
    assert_eq!(link_action(true, true, false), LinkAction::Replace);
    let mut registry = Registry::new();
    let target = move_target(&mut registry, "/work/clones", "github.com/old/tool").unwrap();
    assert_eq!(target.old_locator, locator("github.com/old/tool"));
}

fn link(dependent: i64, controlling: i64) -> SharedGitDirRelationship {
    SharedGitDirRelationship {
        relationship: "fork".to_string(),
        dependent_repo_id: dependent,
        dependent_locator: locator("example.com/dependent"),
        dependent_path: format!("/work/{dependent}"),
        controlling_repo_id: controlling,
        controlling_locator: locator("example.com/controlling"),
        controlling_path: format!("/work/{controlling}"),
    }
}

#[test]
fn chains_of_forks_lead_to_one_canonical_repository() {
    let summaries = relationship_summaries(&vec![link(2, 1), link(3, 2)]).unwrap();
    assert_eq!(summaries[1].canonical_repo_id, 1);
    assert_eq!(summaries[1].depth, 2);
    assert!(relationship_summaries(&vec![link(1, 2), link(2, 1)]).is_err());
    assert!(relationship_summaries(&vec![link(2, 1), link(2, 3)]).is_err());
}

#[test]
fn sound_shares_have_no_reasons_to_repair() {
    let facts = |remote: Option<&str>| LinkFacts {
        relationship: "fork".to_string(),
        dependent_locator: locator("github.com/me/tool"),
        dependent_path: "/work/fork".to_string(),
        controlling_path: "/work/up".to_string(),
        controlling_comparable: "/work/up".to_string(),
        controlling_origin: Ok(Some("https://github.com/them/tool".to_string())),
        view: Ok(None),
        dependent_bare: Ok(false),
        controlling_bare: Ok(false),
        remote: Ok(remote.map(str::to_string)),
        dependent_common_dir: Ok("/work/up/.git".to_string()),
        controlling_common_dir: Ok("/work/up/.git".to_string()),
        remote_head: Ok(None),
        default_source: Ok("main".to_string()),
        current_branch: Ok(dependent_local_branch(
            "fork",
            &locator("github.com/me/tool"),
            "main",
        )),
        upstream: Ok(None),
    };
    let missing = shared_git_dir_relationship_repair_reasons(&facts(None), false).unwrap();
    assert!(!missing.is_empty());
}

#[test]
fn reports_are_worded() {
    let tool = locator("github.com/me/tool");
    assert!(clone_output(&tool, "/work/tool").contains("/work/tool"));
    assert!(worktree_output(&tool, "/work/topic").contains("/work/topic"));
    assert!(create_output(
        RepoVisibility::Private,
        ForgeBackend::Github,
        &tool,
        "/work/tool"
    )
    .contains("private"));
    assert!(manage_output(&tool, "/work/tool", &Some("/old".to_string()), true).contains("/old"));
    assert!(setup_text("/work/config.json").contains("/work/config.json"));
    assert!(daemon_ping_text("unix:///run/x").contains("unix:///run/x"));
    assert!(fetch_output("origin", &tool, &None).contains("origin"));
    assert!(branch_output(&None, &vec!["main".to_string()]).contains("main"));
    assert!(reconcile_output(2, 1).contains('2'));
    assert!(successor_output("github.com/old/tool", &tool).contains("github.com/old/tool"));
    assert!(
        type_change_output("clones/a", "canonical", "fork", &None, &None, &None).contains("fork")
    );
    let plan = plan_move(
        "/work",
        locator("github.com/old/tool"),
        locator("github.com/me/tool"),
        &[],
    );
    assert!(move_output(&plan).contains("github.com/me/tool"));
    assert!(aliases_output(&plan.aliases).contains("/work/github.com/old/tool"));
}

#[test]
fn paths_are_compared_by_component() {
    assert_eq!(join("/work", "a"), "/work/a");
    assert_eq!(join("/work", "/a"), "/a");
    assert!(path_starts_with("/work/a", "/work"));
    assert!(!path_starts_with("/workshop", "/work"));
    assert!(same_path("/work//a/", "/work/a"));
}

#[test]
fn checks_choose_one_action() {
    let args = |repair: bool, dump: bool| CheckArgs { repair, dump };
    assert_eq!(
        check_action(&args(false, true), false).unwrap(),
        CheckAction::Dump
    );
    assert_eq!(
        check_action(&args(false, false), false).unwrap(),
        CheckAction::Report { check: true }
    );
    assert_eq!(
        check_action(&args(true, false), false).unwrap(),
        CheckAction::RepairInteractive
    );
}
