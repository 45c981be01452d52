use repo_manager::config::{Config, RepoVisibility};
use repo_manager::git::GitRemote;
use repo_manager::locator::Locator;
use repo_manager::manage::{
    advance, ask, begin_manage, ensure_deferred_dependent_remotes, explain, introduce,
    manage_route, may_prune, move_repo_into_managed_path, origin_of,
    parse_canonical_prompt_answer, parse_checkout_prompt_answer, parse_confirmation,
    parse_dependent_relationship_answer, record_canonical_checkout, remote_locators,
    CanonicalPromptAnswer, ManageRelationship, ManageRoute, ManageStage,
};
use repo_manager::registry::Registry;
use repo_manager::steps::Step;

fn remote(name: &str, url: &str) -> GitRemote {
    GitRemote {
        name: name.to_string(),
        url: url.to_string(),
    }
}

fn one_remote() -> Vec<GitRemote> {
    vec![remote(
        "origin",
        "https://github.com/johnrichardrinehart/neovim",
    )]
}

fn test_config(root: &str) -> Config {
    Config {
        config_path: format!("{root}/config.json"),
        state: format!("{root}/repos.sqlite"),
        cache_root: format!("{root}/cache"),
        root: format!("{root}/code"),
        clone_root: format!("{root}/code/clones"),
        dev_worktree_root: format!("{root}/code/dev-worktrees"),
        rpc_url: format!("unix://{root}/repo-manager.sock"),
        client_id: "00000000-0000-4000-8000-000000000099".to_string(),
        assume_origin_as_canonical: false,
        clone_as_bare: false,
        create_default_visibility: RepoVisibility::Private,
        forges: Vec::new(),
    }
}

#[test]
fn canonical_prompt_accepts_direct_url_or_number() {
    let remotes = one_remote();

    assert_eq!(
        parse_canonical_prompt_answer("1", &remotes),
        CanonicalPromptAnswer::Remote("https://github.com/johnrichardrinehart/neovim".to_string())
    );
    assert_eq!(
        parse_canonical_prompt_answer("https://github.com/neovim/neovim", &remotes),
        CanonicalPromptAnswer::Remote("https://github.com/neovim/neovim".to_string())
    );
    assert_eq!(
        parse_canonical_prompt_answer("git@github.com:neovim/neovim.git", &remotes),
        CanonicalPromptAnswer::Remote("git@github.com:neovim/neovim.git".to_string())
    );
}

#[test]
fn canonical_prompt_rejects_zero_and_unknown_text() {
    let remotes = one_remote();

    assert_eq!(
        parse_canonical_prompt_answer("0", &remotes),
        CanonicalPromptAnswer::Invalid
    );
    assert_eq!(
        parse_canonical_prompt_answer("origin", &remotes),
        CanonicalPromptAnswer::Invalid
    );
    assert_eq!(
        parse_canonical_prompt_answer("skip", &remotes),
        CanonicalPromptAnswer::NoCanonicalRemote
    );
    assert_eq!(
        parse_canonical_prompt_answer("none", &remotes),
        CanonicalPromptAnswer::NoCanonicalRemote
    );
}

#[test]
fn dependent_relationship_prompt_accepts_fork_and_mirror_aliases() {
    assert_eq!(
        parse_dependent_relationship_answer("fork"),
        Some(ManageRelationship::Fork)
    );
    assert_eq!(
        parse_dependent_relationship_answer("1"),
        Some(ManageRelationship::Fork)
    );
    assert_eq!(
        parse_dependent_relationship_answer("mirror"),
        Some(ManageRelationship::Mirror)
    );
    assert_eq!(
        parse_dependent_relationship_answer("2"),
        Some(ManageRelationship::Mirror)
    );
    assert_eq!(parse_dependent_relationship_answer("canonical"), None);
}

#[test]
fn checkout_prompt_accepts_a_number_or_a_url() {
    let remotes = one_remote();
    assert_eq!(
        parse_checkout_prompt_answer("1", &remotes).unwrap(),
        "https://github.com/johnrichardrinehart/neovim"
    );
    assert_eq!(
        parse_checkout_prompt_answer("https://example.com/tool", &remotes).unwrap(),
        "https://example.com/tool"
    );
    assert_eq!(parse_checkout_prompt_answer("2", &remotes), None);
    assert_eq!(parse_checkout_prompt_answer("tool", &remotes), None);
}

#[test]
fn confirmations_are_yes_or_no() {
    assert_eq!(parse_confirmation("y"), Some(true));
    assert_eq!(parse_confirmation("YES"), Some(true));
    assert_eq!(parse_confirmation("n"), Some(false));
    assert_eq!(parse_confirmation("maybe"), None);
}

#[test]
fn origin_can_be_taken_for_canonical() {
    let remotes = one_remote();
    let chosen = match begin_manage(&remotes, true) {
        ManageStage::Chosen(choice) => choice,
        stage => panic!("asks for {stage:?}"),
    };
    assert_eq!(chosen.checkout_url, chosen.canonical_url);
    assert_eq!(chosen.relationship, ManageRelationship::Canonical);
    assert_eq!(
        origin_of(&remotes).unwrap(),
        "https://github.com/johnrichardrinehart/neovim"
    );
}

#[test]
fn a_fork_is_told_from_its_canonical_repository() {
    let remotes = vec![
        remote("origin", "https://github.com/me/tool"),
        remote("upstream", "https://github.com/them/tool"),
    ];
    let start = begin_manage(&remotes, false);
    assert!(!ask(&start, &remotes).is_empty());
    let stage = match start {
        ManageStage::ConfirmOrigin => advance(&remotes, &start, "n").unwrap(),
        other => other,
    };
    assert!(matches!(stage, ManageStage::Canonical));
    assert!(introduce(&stage, &remotes).contains("https://github.com/them/tool"));
    assert!(advance(&remotes, &stage, "what").is_none());
    assert!(!explain(&stage, &remotes).is_empty());
    let stage = advance(&remotes, &stage, "2").unwrap();
    let stage = match stage {
        ManageStage::Checkout => advance(&remotes, &stage, "1").unwrap(),
        other => other,
    };
    let stage = match stage {
        ManageStage::Relationship { .. } => advance(&remotes, &stage, "fork").unwrap(),
        other => other,
    };
    match stage {
        ManageStage::Chosen(choice) => {
            assert_eq!(choice.checkout_url, "https://github.com/me/tool");
            assert_eq!(choice.canonical_url, "https://github.com/them/tool");
            assert_eq!(choice.relationship, ManageRelationship::Fork);
        }
        other => panic!("still asks {other:?}"),
    }
}

#[test]
fn repositories_move_to_the_place_of_their_locator() {
    let config = test_config("/work");
    let locator = Locator::parse("github.com/me/tool").unwrap();
    let moved =
        move_repo_into_managed_path(&config, "/home/me/tool", &locator, false, false).unwrap();
    assert_eq!(moved.path, "/work/code/clones/github.com/me/tool");
    assert_eq!(moved.moved_from.as_deref(), Some("/home/me/tool"));
    assert!(moved.stages.iter().any(|stage| stage.steps.iter().any(
        |step| matches!(step, Step::Rename { from, to, .. }
            if from == "/home/me/tool" && to == "/work/code/clones/github.com/me/tool")
    )));

    let kept = move_repo_into_managed_path(
        &config,
        "/work/code/clones/github.com/me/tool",
        &locator,
        true,
        true,
    )
    .unwrap();
    assert!(kept.moved_from.is_none());
    assert!(move_repo_into_managed_path(&config, "/home/me/tool", &locator, false, true).is_err());
}

#[test]
fn only_directories_inside_the_root_are_pruned() {
    assert!(may_prune("/work/code/old", "/work/code"));
    assert!(!may_prune("/work/code", "/work/code"));
    assert!(!may_prune("/work", "/work/code"));
}

#[test]
fn routes_follow_the_relationship() {
    assert_eq!(
        manage_route(ManageRelationship::Canonical, true, false),
        ManageRoute::Canonical
    );
    assert_eq!(
        manage_route(ManageRelationship::Fork, true, false),
        ManageRoute::Seed
    );
    assert_eq!(
        manage_route(ManageRelationship::Fork, true, true),
        ManageRoute::Share
    );
    assert_eq!(
        manage_route(ManageRelationship::Mirror, false, false),
        ManageRoute::Note
    );
    assert_eq!(ManageRelationship::Mirror.as_str(), "mirror");
}

#[test]
fn deferred_dependents_keep_both_remotes() {
    let locator = Locator::parse("github.com/me/tool").unwrap();
    let stages = ensure_deferred_dependent_remotes(
        "/work/tool",
        &locator,
        "https://github.com/me/tool",
        "https://github.com/them/tool",
        ManageRelationship::Fork,
        true,
    );
    let remotes: Vec<&str> = stages
        .iter()
        .flat_map(|stage| stage.steps.iter())
        .filter_map(|step| match step {
            Step::EnsureRemote { url, .. } => Some(url.as_str()),
            _ => None,
        })
        .collect();
    assert!(remotes.contains(&"https://github.com/me/tool"));
    assert!(remotes.contains(&"https://github.com/them/tool"));
}

#[test]
fn canonical_checkouts_note_their_remotes() {
    let locators = remote_locators(&vec![
        remote("origin", "https://github.com/me/tool"),
        remote("broken", "::"),
    ]);
    assert_eq!(locators, vec![Locator::parse("github.com/me/tool").unwrap()]);
    let mut registry = Registry::new();
    let canonical = Locator::parse("github.com/them/tool").unwrap();
    record_canonical_checkout(&mut registry, &canonical, "/work/tool", &locators).unwrap();
    let found = registry.find_locator(&canonical).unwrap();
    assert_eq!(found.path, "/work/tool");
    assert_eq!(found.current, canonical);
}
