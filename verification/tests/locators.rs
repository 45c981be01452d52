use repo_manager::locator::{locator_path, Locator};
use repo_manager::moves::{plan_move, plan_worktree_add, WorktreeAddOptions};
use repo_manager::naming::{fork_remote_name, remote_url_for_locator};

fn url_cases() -> Vec<(&'static str, &'static str, &'static str)> {
    vec![
        (
            "https://github.com/torvalds/linux.git",
            "github.com",
            "torvalds/linux",
        ),
        (
            "git@github.com:johnrichardrinehart/forgeproxy.git",
            "github.com",
            "johnrichardrinehart/forgeproxy",
        ),
        (
            "ssh://git@git.sr.ht/~sircmpwn/scdoc/",
            "git.sr.ht",
            "~sircmpwn/scdoc",
        ),
        (
            "ssh://git@example.com:2222/deep/path/repo.git",
            "example.com:2222",
            "deep/path/repo",
        ),
        (
            "git.kernel.org/pub/scm/linux/kernel/git/torvalds/linux.git",
            "git.kernel.org",
            "pub/scm/linux/kernel/git/torvalds/linux",
        ),
    ]
}

#[test]
fn normalizes_common_git_urls() {
    for (input, authority, remote_path) in url_cases() {
        let locator = Locator::parse(input).unwrap();
        assert_eq!(locator.authority, authority);
        assert_eq!(locator.remote_path, remote_path);
    }
}

#[test]
fn lib_normalizes_common_git_urls() {
    for (input, authority, remote_path) in url_cases() {
        let locator = Locator::parse(input).unwrap();
        assert_eq!(locator.key(), format!("{authority}/{remote_path}"));
    }
}

#[test]
fn rejects_unsafe_remote_paths() {
    assert!(Locator::parse("github.com/../repo").is_err());
    assert!(Locator::parse("github.com/org/./repo").is_err());
}

#[test]
fn derives_locator_paths_from_full_remote_path() {
    let locator =
        Locator::parse("git.kernel.org/pub/scm/linux/kernel/git/torvalds/linux.git").unwrap();
    assert_eq!(
        locator_path("/tmp/clones", &locator),
        "/tmp/clones/git.kernel.org/pub/scm/linux/kernel/git/torvalds/linux"
    );
}

#[test]
fn move_flags_identify_authority_prefix_and_leaf_changes() {
    let old = Locator::parse("github.com/org/repo").unwrap();
    let new = Locator::parse("codeberg.org/new-org/new-repo").unwrap();
    let plan = plan_move("/tmp/clones", old, new, &[]);
    assert!(plan.flags.authority_changed);
    assert!(plan.flags.remote_path_changed);
    assert!(plan.flags.path_prefix_changed);
    assert!(plan.flags.leaf_name_changed);
}

#[test]
fn aliases_for_repeated_churn_point_to_latest_path() {
    let first = Locator::parse("github.com/old/repo").unwrap();
    let second = Locator::parse("github.com/new/repo").unwrap();
    let third = Locator::parse("git.example.com/newer/project").unwrap();
    let plan = plan_move(
        "/tmp/clones",
        second.clone(),
        third.clone(),
        &[first.clone(), second],
    );
    let latest = locator_path("/tmp/clones", &third);
    assert_eq!(plan.aliases.len(), 2);
    assert!(plan.aliases.iter().all(|alias| alias.target_path == latest));
    assert!(plan
        .aliases
        .iter()
        .any(|alias| alias.alias_path == "/tmp/clones/github.com/old/repo"));
}

fn topic_args(worktree_root: &str) -> Vec<String> {
    plan_worktree_add(
        "/tmp/clones",
        worktree_root,
        Locator::parse("github.com/torvalds/linux").unwrap(),
        "topic",
        WorktreeAddOptions {
            start_point: Some("origin/master"),
            branch: Some("topic-branch"),
            detach: false,
            force: true,
        },
    )
    .unwrap()
    .git_args
}

#[test]
fn worktree_add_generates_git_like_start_point_args() {
    assert_eq!(
        topic_args("/tmp/dev-worktrees"),
        vec![
            "worktree",
            "add",
            "--force",
            "-b",
            "topic-branch",
            "/tmp/dev-worktrees/github.com/torvalds/linux/topic",
            "origin/master",
        ]
    );
}

#[test]
fn lib_worktree_add_generates_git_like_start_point_args() {
    assert_eq!(
        topic_args("/tmp/worktrees"),
        vec![
            "worktree",
            "add",
            "--force",
            "-b",
            "topic-branch",
            "/tmp/worktrees/github.com/torvalds/linux/topic",
            "origin/master",
        ]
    );
}

#[test]
fn fork_remote_names_are_stable_and_locator_based() {
    let locator = Locator::parse("git.sr.ht/~alice/project").unwrap();
    assert_eq!(fork_remote_name(&locator), "fork-git.sr.ht-alice-project");
}

#[test]
fn relocated_origin_urls_preserve_existing_style_when_possible() {
    let locator = Locator::parse("github.com/new-owner/new-name").unwrap();
    assert_eq!(
        remote_url_for_locator(Some("https://github.com/old-owner/old-name.git"), &locator),
        "https://github.com/new-owner/new-name.git"
    );
    assert_eq!(
        remote_url_for_locator(Some("git@github.com:old-owner/old-name.git"), &locator),
        "git@github.com:new-owner/new-name.git"
    );
    assert_eq!(
        remote_url_for_locator(
            Some("ssh://git@github.com/old-owner/old-name.git"),
            &locator
        ),
        "ssh://git@github.com/new-owner/new-name.git"
    );
}

#[test]
fn lib_rejects_unsafe_remote_paths() {
    assert!(Locator::parse("github.com/../repo").is_err());
    assert!(Locator::parse("github.com/org/./repo").is_err());
}

#[test]
fn lib_derives_locator_paths_from_full_remote_path() {
    let locator =
        Locator::parse("git.kernel.org/pub/scm/linux/kernel/git/torvalds/linux.git").unwrap();
    assert_eq!(
        locator_path("/tmp/clones", &locator),
        "/tmp/clones/git.kernel.org/pub/scm/linux/kernel/git/torvalds/linux"
    );
}

#[test]
fn lib_move_flags_identify_authority_prefix_and_leaf_changes() {
    let old = Locator::parse("github.com/org/repo").unwrap();
    let new = Locator::parse("codeberg.org/new-org/new-repo").unwrap();
    let plan = plan_move("/tmp/clones", old, new, &[]);
    assert!(plan.flags.authority_changed);
    assert!(plan.flags.remote_path_changed);
    assert!(plan.flags.path_prefix_changed);
    assert!(plan.flags.leaf_name_changed);
}

#[test]
fn lib_aliases_for_repeated_churn_point_to_latest_path() {
    let first = Locator::parse("github.com/old/repo").unwrap();
    let second = Locator::parse("github.com/new/repo").unwrap();
    let third = Locator::parse("git.example.com/newer/project").unwrap();
    let plan = plan_move(
        "/tmp/clones",
        second.clone(),
        third.clone(),
        &[first.clone(), second],
    );
    let latest = locator_path("/tmp/clones", &third);
    assert_eq!(plan.aliases.len(), 2);
    assert!(plan.aliases.iter().all(|alias| alias.target_path == latest));
    assert!(plan
        .aliases
        .iter()
        .any(|alias| alias.alias_path == "/tmp/clones/github.com/old/repo"));
}

#[test]
fn lib_fork_remote_names_are_stable_and_locator_based() {
    let locator = Locator::parse("git.sr.ht/~alice/project").unwrap();
    assert_eq!(fork_remote_name(&locator), "fork-git.sr.ht-alice-project");
}

#[test]
fn every_spelling_names_one_locator() {
    for text in [
        "github.com/torvalds/linux",
        "  github.com/torvalds/linux.git \n",
        "GitHub.com//torvalds/linux/",
        "git@github.com:torvalds/linux.git",
        "github.com:/torvalds/linux",
        "https://github.com/torvalds/linux.git",
        "https://GITHUB.com:443/torvalds/linux/",
        "ssh://git@github.com/torvalds/linux.git",
    ] {
        let locator = Locator::parse(text).unwrap();
        assert_eq!(locator.authority, "github.com", "{text}");
        assert_eq!(locator.remote_path, "torvalds/linux", "{text}");
    }
}

#[test]
fn keys_are_read_again_unless_they_are_cut() {
    for text in ["example.com/a/b", "git@example.com:a:b/c", "file:///srv/git/tool"] {
        let locator = Locator::parse(text).unwrap();
        assert_eq!(Locator::parse(&locator.key()).unwrap(), locator);
    }
    let twice = Locator::parse("example.com/a/b.git.git").unwrap();
    assert_eq!(twice.remote_path, "a/b.git");
    assert_ne!(Locator::parse(&twice.key()).unwrap(), twice);
}
