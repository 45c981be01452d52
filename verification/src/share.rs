//! Forks and mirrors that share the Git directory of their canonical repository:
//! how they come to, and what is recorded of it.
use crate::error::{outcome, Error};
use crate::git::{checkout_branch, dependent_default_branch};
use crate::locator::{Locator, LocatorView};
use crate::naming::{dependent_local_branch, local_branch, related_remote_name, remote_name};
use crate::paths::{join, join_path};
use crate::registry::{
    known, located, repo_id_for, top_related_id, top_repo_id, upserted, with_id, with_identity,
    Registry, RegistryView, RepoView,
};
use crate::registry_relations::{forked, pair_resolved};
use crate::repair::{ResolutionView, SharedGitDirResolution};
use crate::steps::{
    ensure_remote, ensure_tracking, git, moves_before, moves_of, moving, moving_text, one_stage,
    one_step, plain_stage, plainly, rename, rename_back, reversed, stage_views, step_views,
    taken_back, try_git, Stage, StageView, Step, StepView,
};
use crate::text::{opt_view, trim, trim_text};
use crate::views::{dependent_fetch, dependent_fetch_args};
use vstd::prelude::*;

verus! {

broadcast use {
    crate::text::lemma_views_push,
    crate::steps::lemma_step_views_push,
    crate::steps::lemma_stage_views_push,
};

/// The registry once a repository is recorded at a path.
pub open spec fn with_repo(
    view: RegistryView,
    locator: LocatorView,
    path: Seq<char>,
    canonical_identity: Option<Seq<char>>,
) -> RegistryView {
    RegistryView {
        repos: upserted(view.repos, locator, path, canonical_identity),
        locators: located(
            view.locators,
            repo_id_for(view.repos, locator.key()),
            locator,
            path,
            true,
        ),
        ..view
    }
}

proof fn lemma_with_id_found(repos: Seq<RepoView>, id: i64, i: int, k: int)
    requires
        0 <= i <= k < repos.len(),
        repos[k].id == id,
    ensures
        0 <= with_id(repos, id, i) < repos.len(),
    decreases repos.len() - i,
{
    if repos[i].id != id {
        lemma_with_id_found(repos, id, i + 1, k);
    }
}

proof fn lemma_with_id(repos: Seq<RepoView>, id: i64, i: int)
    requires
        0 <= i,
        with_id(repos, id, i) >= 0,
    ensures
        0 <= with_id(repos, id, i) < repos.len(),
        repos[with_id(repos, id, i)].id == id,
    decreases repos.len() - i,
{
    if i < repos.len() && repos[i].id != id {
        lemma_with_id(repos, id, i + 1);
    }
}

proof fn lemma_with_identity(repos: Seq<RepoView>, identity: Seq<char>, i: int)
    requires
        0 <= i,
    ensures
        with_identity(repos, identity, i) == -1 || (i <= with_identity(repos, identity, i)
            < repos.len() && repos[with_identity(repos, identity, i)].identity == identity),
    decreases repos.len() - i,
{
    if i < repos.len() && repos[i].identity != identity {
        lemma_with_identity(repos, identity, i + 1);
    }
}

proof fn lemma_top_update(repos: Seq<RepoView>, i: int, row: RepoView)
    requires
        0 <= i < repos.len(),
        row.id == repos[i].id,
    ensures
        top_repo_id(repos.update(i, row)) == top_repo_id(repos),
    decreases repos.len(),
{
    let after = repos.update(i, row);
    if i == repos.len() - 1 {
        assert(after.drop_last() =~= repos.drop_last());
    } else {
        assert(after.drop_last() =~= repos.drop_last().update(i, row));
        lemma_top_update(repos.drop_last(), i, row);
    }
}

/// A recorded repository is known by its number, no repository is forgotten, and
/// at most one new number is given out.
pub proof fn lemma_upserted(
    repos: Seq<RepoView>,
    locator: LocatorView,
    path: Seq<char>,
    canonical_identity: Option<Seq<char>>,
)
    requires
        top_repo_id(repos) < i64::MAX,
    ensures
        known(
            upserted(repos, locator, path, canonical_identity),
            repo_id_for(repos, locator.key()),
        ),
        forall|id: i64|
            known(repos, id) ==> #[trigger] known(
                upserted(repos, locator, path, canonical_identity),
                id,
            ),
        top_repo_id(upserted(repos, locator, path, canonical_identity)) <= top_repo_id(repos) + 1,
{
    let after = upserted(repos, locator, path, canonical_identity);
    let i = with_identity(repos, locator.key(), 0);
    lemma_with_identity(repos, locator.key(), 0);
    lemma_top_positive(repos);
    if 0 <= i < repos.len() {
        lemma_with_id_found(after, repos[i].id, 0, i);
        lemma_top_update(repos, i, after[i]);
        assert(after =~= repos.update(i, after[i]));
    } else {
        assert(after.drop_last() =~= repos);
        lemma_with_id_found(after, after.last().id, 0, repos.len() as int);
    }
    assert forall|id: i64| known(repos, id) implies #[trigger] known(after, id) by {
        lemma_with_id(repos, id, 0);
        let k = with_id(repos, id, 0);
        assert(after[k].id == id);
        lemma_with_id_found(after, id, 0, k);
    }
}

proof fn lemma_top_positive(repos: Seq<RepoView>)
    ensures
        top_repo_id(repos) >= 0,
    decreases repos.len(),
{
    if repos.len() > 0 {
        lemma_top_positive(repos.drop_last());
    }
}

/// The registry once a fork or mirror and its canonical repository are recorded.
/// A mirror is noted as resolved history only where `notes_mirrors` says so.
pub open spec fn with_share(
    view: RegistryView,
    dependent: (LocatorView, Seq<char>),
    controlling: (LocatorView, Seq<char>),
    relationship: Seq<char>,
    notes_mirrors: bool,
) -> RegistryView {
    let first = with_repo(view, controlling.0, controlling.1, None);
    let second = with_repo(first, dependent.0, dependent.1, Some(controlling.0.key()));
    let controlling_id = repo_id_for(view.repos, controlling.0.key());
    let dependent_id = repo_id_for(first.repos, dependent.0.key());
    if relationship == "fork"@ {
        RegistryView { forks: forked(second.forks, dependent_id, controlling_id), ..second }
    } else if notes_mirrors {
        RegistryView {
            related: pair_resolved(second.related, dependent_id, controlling_id, relationship),
            ..second
        }
    } else {
        second
    }
}

/// A repository and where it is.
#[derive(Debug)]
pub struct Placed<'a> {
    pub locator: &'a Locator,
    pub path: &'a str,
}

impl<'a> Placed<'a> {
    pub open spec fn place(self) -> (LocatorView, Seq<char>) {
        (self.locator@, self.path@)
    }
}

/// Records that a fork or mirror shares the Git directory of its canonical
/// repository.
pub fn record_share(
    registry: &mut Registry,
    dependent: &Placed,
    controlling: &Placed,
    relationship: &str,
    notes_mirrors: bool,
) -> (r: Result<(), Error>)
    requires
        top_repo_id(old(registry)@.repos) < i64::MAX - 1,
        top_related_id(old(registry)@.related) < i64::MAX,
    ensures
        r is Ok,
        final(registry)@ == with_share(
            old(registry)@,
            dependent.place(),
            controlling.place(),
            relationship@,
            notes_mirrors,
        ),
{
    let ghost before = registry@;
    proof {
        lemma_upserted(before.repos, controlling.locator@, controlling.path@, None);
    }
    let controlling_id = registry.upsert_repo(controlling.locator, controlling.path, None);
    let ghost first = registry@;
    proof {
        lemma_upserted(
            first.repos,
            dependent.locator@,
            dependent.path@,
            Some(controlling.locator@.key()),
        );
    }
    let dependent_id = registry.upsert_repo(
        dependent.locator,
        dependent.path,
        Some(controlling.locator.key()),
    );
    if relationship.eq("fork") {
        registry.record_fork(dependent_id, controlling_id)
    } else if notes_mirrors {
        registry.record_resolved_related(dependent_id, controlling_id, relationship)
    } else {
        Ok(())
    }
}

/// What comes of sharing a Git directory through a linked worktree.
pub open spec fn worktree_resolution(
    dependent: (LocatorView, Seq<char>),
    controlling: (LocatorView, Seq<char>),
    relationship: Seq<char>,
    dependent_url: Seq<char>,
    branch: Seq<char>,
    converted: bool,
) -> ResolutionView {
    let remote = remote_name(relationship, dependent.0);
    ResolutionView {
        dependent_locator: dependent.0,
        controlling_locator: controlling.0,
        dependent_path: dependent.1,
        controlling_path: controlling.1,
        dependent_remote: remote,
        dependent_url,
        local_branch: local_branch(relationship, dependent.0, branch),
        remote_branch: remote + "/"@ + branch,
        converted_to_worktree: converted,
    }
}

pub fn resolve_worktree(
    dependent: &Placed,
    controlling: &Placed,
    relationship: &str,
    dependent_url: &str,
    branch: &str,
    converted: bool,
) -> (r: SharedGitDirResolution)
    ensures
        r@ == worktree_resolution(
            dependent.place(),
            controlling.place(),
            relationship@,
            dependent_url@,
            branch@,
            converted,
        ),
{
    let dependent_remote = related_remote_name(relationship, dependent.locator);
    let mut remote_branch = dependent_remote.clone();
    remote_branch.append("/");
    remote_branch.append(branch);
    SharedGitDirResolution {
        dependent_locator: dependent.locator.clone(),
        controlling_locator: controlling.locator.clone(),
        dependent_path: dependent.path.to_owned(),
        controlling_path: controlling.path.to_owned(),
        dependent_remote,
        dependent_url: dependent_url.to_owned(),
        local_branch: dependent_local_branch(relationship, dependent.locator, branch),
        remote_branch,
        converted_to_worktree: converted,
    }
}

/// A plan, and what comes of it.
#[derive(Debug)]
pub struct SharePlan {
    pub stages: Vec<Stage>,
    pub resolution: SharedGitDirResolution,
}

impl View for SharePlan {
    type V = (Seq<StageView>, ResolutionView);

    open spec fn view(&self) -> (Seq<StageView>, ResolutionView) {
        (stage_views(self.stages@), self.resolution@)
    }
}

/// Makes a canonical checkout of the only checkout there is, that of a fork or
/// mirror: the checkout moves to the canonical place, gets the canonical origin,
/// and hands its files to a linked worktree at its old place. When that fails, the
/// checkout moves back.
pub open spec fn seed_stages(
    resolution: ResolutionView,
    controlling_url: Seq<char>,
    branch: Seq<char>,
) -> Seq<StageView> {
    let r = resolution;
    let dir = r.controlling_path;
    seq![
        plain_stage(
            seq![
                StepView::MakeParent { path: dir },
                StepView::Rename {
                    from: r.dependent_path,
                    to: dir,
                    purpose: "moving seed checkout "@ + r.dependent_path + " to canonical path "@
                        + dir,
                },
            ],
        ),
        StageView {
            steps: seq![
                StepView::NameOrigin { dir, name: r.dependent_remote },
                StepView::EnsureRemote { dir, name: r.dependent_remote, url: r.dependent_url },
                StepView::EnsureRemote { dir, name: "origin"@, url: controlling_url },
                StepView::Git { dir, args: seq!["fetch"@, "origin"@] },
                StepView::TryGit { dir, args: seq!["remote"@, "set-head"@, "origin"@, "-a"@] },
                StepView::TryGit { dir, args: seq!["fetch"@, r.dependent_remote] },
                StepView::TryGit {
                    dir,
                    args: seq!["remote"@, "set-head"@, r.dependent_remote, "-a"@],
                },
                StepView::EnsureTracking { dir, local: r.local_branch, remote: r.remote_branch },
                StepView::Git {
                    dir,
                    args: seq!["worktree"@, "add"@, r.dependent_path, r.local_branch],
                },
                StepView::CopyState { from: dir, to: r.dependent_path },
                StepView::CheckoutDefault { dir, fallback: branch },
            ],
            undo: seq![StepView::RenameBack { from: dir, to: r.dependent_path }],
            context: None,
        },
    ]
}

/// What is found of the two places before the checkout is moved.
#[derive(Debug)]
pub struct SeedFacts {
    pub controlling_exists: bool,
    pub dependent_exists: bool,
    /// Where `origin/HEAD` of the checkout points, as Git printed it.
    pub origin_head: Option<String>,
    /// The branch that the checkout is on, as Git printed it.
    pub current_branch: Option<String>,
}

/// Seeding needs a free canonical place and a checkout to move.
pub open spec fn seed_plan(
    dependent: (LocatorView, Seq<char>),
    controlling: (LocatorView, Seq<char>),
    urls: (Seq<char>, Seq<char>),
    relationship: Seq<char>,
    facts: SeedFacts,
) -> Result<(Seq<StageView>, ResolutionView), Seq<char>> {
    if facts.controlling_exists {
        Err("canonical checkout already exists: "@ + controlling.1)
    } else if !facts.dependent_exists {
        Err(relationship + " checkout does not exist: "@ + dependent.1)
    } else {
        match checkout_branch(
            opt_view(facts.origin_head),
            opt_view(facts.current_branch),
            dependent.1,
        ) {
            Err(message) => Err(message),
            Ok(branch) => {
                let resolution = worktree_resolution(
                    dependent,
                    controlling,
                    relationship,
                    urls.0,
                    branch,
                    true,
                );
                Ok((seed_stages(resolution, urls.1, branch), resolution))
            },
        }
    }
}

fn seed_steps(resolution: &SharedGitDirResolution, controlling_url: &str, branch: &str) -> (r: Vec<
    Stage,
>)
    ensures
        stage_views(r@) == seed_stages(resolution@, controlling_url@, branch@),
{
    let dir = resolution.controlling_path.as_str();
    let dependent = resolution.dependent_path.as_str();
    let remote = resolution.dependent_remote.as_str();
    let mut purpose = "moving seed checkout ".to_owned();
    purpose.append(dependent);
    purpose.append(" to canonical path ");
    purpose.append(dir);
    let mut first = one_step(Step::MakeParent { path: dir.to_owned() });
    first.push(rename(dependent, dir, purpose));
    let mut steps = one_step(Step::NameOrigin { dir: dir.to_owned(), name: remote.to_owned() });
    steps.push(ensure_remote(dir, remote, resolution.dependent_url.as_str()));
    steps.push(ensure_remote(dir, "origin", controlling_url));
    steps.push(git(dir, &["fetch", "origin"]));
    steps.push(try_git(dir, &["remote", "set-head", "origin", "-a"]));
    steps.push(try_git(dir, &["fetch", remote]));
    steps.push(try_git(dir, &["remote", "set-head", remote, "-a"]));
    steps.push(
        ensure_tracking(
            dir,
            resolution.local_branch.as_str(),
            resolution.remote_branch.as_str(),
        ),
    );
    steps.push(git(dir, &["worktree", "add", dependent, resolution.local_branch.as_str()]));
    steps.push(Step::CopyState { from: dir.to_owned(), to: dependent.to_owned() });
    steps.push(Step::CheckoutDefault { dir: dir.to_owned(), fallback: branch.to_owned() });
    let mut stages = one_stage(plainly(first));
    stages.push(
        Stage { steps, undo: one_step(rename_back(dir, dependent)), context: None },
    );
    proof {
        assert(stage_views(stages@) =~~= seed_stages(resolution@, controlling_url@, branch@));
    }
    stages
}

pub fn seed_canonical_from_dependent_checkout(
    dependent: &Placed,
    controlling: &Placed,
    dependent_url: &str,
    controlling_url: &str,
    relationship: &str,
    facts: &SeedFacts,
) -> (r: Result<SharePlan, Error>)
    ensures
        outcome(r) == seed_plan(
            dependent.place(),
            controlling.place(),
            (dependent_url@, controlling_url@),
            relationship@,
            *facts,
        ),
{
    if facts.controlling_exists {
        return Err(Error::about("canonical checkout already exists: ", controlling.path));
    }
    if !facts.dependent_exists {
        let mut text = relationship.to_owned();
        text.append(" checkout does not exist: ");
        text.append(dependent.path);
        return Err(Error::new(text));
    }
    let branch = match dependent_default_branch(
        &facts.origin_head,
        &facts.current_branch,
        dependent.path,
    ) {
        Ok(branch) => branch,
        Err(error) => {
            return Err(error);
        },
    };
    let resolution = resolve_worktree(
        dependent,
        controlling,
        relationship,
        dependent_url,
        branch.as_str(),
        true,
    );
    let stages = seed_steps(&resolution, controlling_url, branch.as_str());
    Ok(SharePlan { stages, resolution })
}

/// The checkout that seeds a canonical one is never lost: once it has moved, a
/// failure moves it back.
pub proof fn seeding_can_be_taken_back(
    resolution: ResolutionView,
    controlling_url: Seq<char>,
    branch: Seq<char>,
)
    ensures
        ({
            let plan = seed_stages(resolution, controlling_url, branch);
            &&& moves_before(plan, 1) == seq![
                (resolution.dependent_path, resolution.controlling_path),
            ]
            &&& taken_back(plan, 0, 2)
        }),
{
    let plan = seed_stages(resolution, controlling_url, branch);
    reveal_with_fuel(moves_of, 13);
    reveal_with_fuel(moves_before, 3);
    let steps = plan[0].steps;
    assert(steps.drop_last().drop_last() =~= Seq::empty());
    assert(moves_of(steps) =~= seq![(resolution.dependent_path, resolution.controlling_path)]);
    assert(moves_before(plan, 1) =~= seq![
        (resolution.dependent_path, resolution.controlling_path),
    ]);
    assert(plan[1].undo.drop_last() =~= Seq::empty());
    assert(moves_of(plan[1].undo) =~= reversed(moves_before(plan, 1)));
    assert(moves_of(plan[0].undo) =~= reversed(moves_before(plan, 0)));
}

/// A checkout with changes that are not committed is not converted.
pub open spec fn clean_checkout(status: Seq<char>, path: Seq<char>) -> Result<(), Seq<char>> {
    if trim_text(status).len() > 0 {
        Err(
            "checkout has uncommitted or untracked changes and cannot be converted safely: "@
                + path,
        )
    } else {
        Ok(())
    }
}

/// `status` is what `git status --porcelain` printed.
pub fn ensure_clean_checkout(status: &str, path: &str) -> (r: Result<(), Error>)
    ensures
        outcome(r) == clean_checkout(status@, path@),
{
    if trim(status).as_str().is_empty() {
        Ok(())
    } else {
        Err(
            Error::about(
                "checkout has uncommitted or untracked changes and cannot be converted safely: ",
                path,
            ),
        )
    }
}

/// Turns a checkout into a linked worktree of its canonical checkout: its refs are
/// fetched there, it is moved aside, the worktree is made in its place, and only
/// when that has worked is the old checkout removed.
pub open spec fn conversion_stages(resolution: ResolutionView, backup: Seq<char>) -> Seq<
    StageView,
> {
    let r = resolution;
    let dir = r.controlling_path;
    seq![
        plain_stage(
            seq![
                StepView::GitOr {
                    dir,
                    args: dependent_fetch(r.dependent_path, r.dependent_remote),
                    failure: "git fetch from local managed checkout failed"@,
                },
                StepView::EnsureTracking { dir, local: r.local_branch, remote: r.remote_branch },
                StepView::Rename {
                    from: r.dependent_path,
                    to: backup,
                    purpose: moving("moving existing managed checkout "@, r.dependent_path, backup),
                },
            ],
        ),
        StageView {
            steps: seq![
                StepView::Git {
                    dir,
                    args: seq!["worktree"@, "add"@, r.dependent_path, r.local_branch],
                },
            ],
            undo: seq![StepView::RenameBack { from: backup, to: r.dependent_path }],
            context: Some(
                "creating managed worktree "@ + r.dependent_path + " from canonical checkout "@
                    + dir,
            ),
        },
        plain_stage(seq![StepView::RemoveTree { path: backup }]),
    ]
}

pub fn conversion(resolution: &SharedGitDirResolution, backup: &str) -> (r: Vec<Stage>)
    ensures
        stage_views(r@) == conversion_stages(resolution@, backup@),
{
    let dir = resolution.controlling_path.as_str();
    let dependent = resolution.dependent_path.as_str();
    let mut first = one_step(
        Step::GitOr {
            dir: dir.to_owned(),
            args: dependent_fetch_args(dependent, resolution.dependent_remote.as_str()),
            failure: "git fetch from local managed checkout failed".to_owned(),
        },
    );
    first.push(
        ensure_tracking(
            dir,
            resolution.local_branch.as_str(),
            resolution.remote_branch.as_str(),
        ),
    );
    first.push(
        rename(
            dependent,
            backup,
            moving_text("moving existing managed checkout ", dependent, backup),
        ),
    );
    let mut context = "creating managed worktree ".to_owned();
    context.append(dependent);
    context.append(" from canonical checkout ");
    context.append(dir);
    let mut stages = one_stage(plainly(first));
    stages.push(
        Stage {
            steps: one_step(
                git(dir, &["worktree", "add", dependent, resolution.local_branch.as_str()]),
            ),
            undo: one_step(rename_back(backup, dependent)),
            context: Some(context),
        },
    );
    stages.push(plainly(one_step(Step::RemoveTree { path: backup.to_owned() })));
    proof {
        assert(stage_views(stages@) =~~= conversion_stages(resolution@, backup@));
    }
    stages
}

/// The checkout that a linked worktree replaces is removed only after the worktree
/// stands, and moves back when it does not.
pub proof fn conversion_can_be_taken_back(resolution: ResolutionView, backup: Seq<char>)
    ensures
        ({
            let plan = conversion_stages(resolution, backup);
            &&& plan.len() == 3
            &&& moves_before(plan, 1) == seq![(resolution.dependent_path, backup)]
            &&& taken_back(plan, 0, 2)
            &&& plan[2].steps == seq![StepView::RemoveTree { path: backup }]
            &&& forall|k: int, i: int|
                0 <= k < 2 && 0 <= i < plan[k].steps.len() ==> !(#[trigger] plan[k].steps[i]
                    is RemoveTree)
        }),
{
    let plan = conversion_stages(resolution, backup);
    reveal_with_fuel(moves_of, 4);
    reveal_with_fuel(moves_before, 3);
    let steps = plan[0].steps;
    assert(steps.drop_last().drop_last().drop_last() =~= Seq::empty());
    assert(moves_of(steps) =~= seq![(resolution.dependent_path, backup)]);
    assert(moves_before(plan, 1) =~= seq![(resolution.dependent_path, backup)]);
    assert(plan[1].undo.drop_last() =~= Seq::empty());
    assert(moves_of(plan[1].undo) =~= reversed(moves_before(plan, 1)));
    assert(moves_of(plan[0].undo) =~= reversed(moves_before(plan, 0)));
}

/// What is found of a checkout that is to become a bare repository.
#[derive(Debug)]
pub struct BareFacts {
    /// What `git status --porcelain` printed.
    pub status: String,
    /// Whether its Git directory is the directory `.git` in it.
    pub owns_git_dir: bool,
    /// The worktrees that Git lists, and whether each is the checkout itself.
    pub worktrees: Vec<(String, bool)>,
}

/// The Git calls that tell each linked worktree where the repository is now.
pub open spec fn repairs(path: Seq<char>, worktrees: Seq<(String, bool)>) -> Seq<StepView>
    decreases worktrees.len(),
{
    if worktrees.len() == 0 {
        Seq::empty()
    } else {
        let before = repairs(path, worktrees.drop_last());
        if worktrees.last().1 {
            before
        } else {
            before.push(
                StepView::Git {
                    dir: path,
                    args: seq!["worktree"@, "repair"@, worktrees.last().0@],
                },
            )
        }
    }
}

/// Turns a checkout into a bare repository at the same place: it is moved aside,
/// its Git directory moves to where it was, and only when that is in order is the
/// rest removed. A failure moves both back.
pub open spec fn bare_stages(
    path: Seq<char>,
    backup: Seq<char>,
    worktrees: Seq<(String, bool)>,
) -> Seq<StageView> {
    let git_dir = join_path(backup, ".git"@);
    let config = join_path(path, "config"@);
    seq![
        plain_stage(
            seq![
                StepView::Rename {
                    from: path,
                    to: backup,
                    purpose: moving("moving existing checkout "@, path, backup),
                },
            ],
        ),
        StageView {
            steps: seq![
                StepView::Rename {
                    from: git_dir,
                    to: path,
                    purpose: "moving Git directory "@ + git_dir + " to bare repository "@ + path,
                },
            ],
            undo: seq![StepView::RenameBack { from: backup, to: path }],
            context: None,
        },
        StageView {
            steps: seq![
                StepView::SetConfig { file: config, key: "core.bare"@, value: "true"@ },
                StepView::UnsetConfig { file: config, key: "core.worktree"@ },
            ] + repairs(path, worktrees),
            undo: seq![
                StepView::RenameBack { from: path, to: git_dir },
                StepView::RenameBack { from: backup, to: path },
            ],
            context: None,
        },
        plain_stage(seq![StepView::RemoveTree { path: backup }]),
    ]
}

pub open spec fn bare_plan(path: Seq<char>, backup: Seq<char>, facts: BareFacts) -> Result<
    Seq<StageView>,
    Seq<char>,
> {
    match clean_checkout(facts.status@, path) {
        Err(message) => Err(message),
        Ok(_) => if facts.owns_git_dir {
            Ok(bare_stages(path, backup, facts.worktrees@))
        } else {
            Err(
                "checkout uses a shared Git directory and cannot be converted as a standalone repository: "@
                    + path,
            )
        },
    }
}

pub open spec fn plan_outcome(r: Result<Vec<Stage>, Error>) -> Result<Seq<StageView>, Seq<char>> {
    match r {
        Ok(stages) => Ok(stage_views(stages@)),
        Err(error) => Err(error@),
    }
}

pub fn convert_standalone_checkout_to_bare_repository(
    path: &str,
    backup: &str,
    facts: &BareFacts,
) -> (r: Result<Vec<Stage>, Error>)
    ensures
        plan_outcome(r) == bare_plan(path@, backup@, *facts),
{
    match ensure_clean_checkout(facts.status.as_str(), path) {
        Ok(()) => {},
        Err(error) => {
            return Err(error);
        },
    }
    if !facts.owns_git_dir {
        return Err(
            Error::about(
                "checkout uses a shared Git directory and cannot be converted as a standalone repository: ",
                path,
            ),
        );
    }
    let git_dir = join(backup, ".git");
    let config = join(path, "config");
    let mut purpose = "moving Git directory ".to_owned();
    purpose.append(git_dir.as_str());
    purpose.append(" to bare repository ");
    purpose.append(path);
    let mut steps = one_step(
        Step::SetConfig {
            file: config.clone(),
            key: "core.bare".to_owned(),
            value: "true".to_owned(),
        },
    );
    steps.push(Step::UnsetConfig { file: config, key: "core.worktree".to_owned() });
    let ghost start = step_views(steps@);
    let ghost all = facts.worktrees@;
    proof {
        assert(start =~= start + repairs(path@, all.take(0)));
    }
    let mut i: usize = 0;
    while i < facts.worktrees.len()
        invariant
            i <= facts.worktrees@.len(),
            all == facts.worktrees@,
            step_views(steps@) == start + repairs(path@, all.take(i as int)),
        decreases facts.worktrees@.len() - i,
    {
        proof {
            assert(all.take(i + 1).drop_last() =~= all.take(i as int));
            assert(all.take(i + 1).last() == all[i as int]);
        }
        if !facts.worktrees[i].1 {
            let step = git(path, &["worktree", "repair", facts.worktrees[i].0.as_str()]);
            proof {
                assert(step@->Git_args =~= seq!["worktree"@, "repair"@, all[i as int].0@]);
                assert((start + repairs(path@, all.take(i as int))).push(step@) =~= start
                    + repairs(path@, all.take(i + 1)));
            }
            steps.push(step);
        }
        i += 1;
    }
    proof {
        assert(all.take(i as int) =~= all);
    }
    let mut undo = one_step(rename_back(path, git_dir.as_str()));
    undo.push(rename_back(backup, path));
    let mut stages = one_stage(
        plainly(
            one_step(
                rename(path, backup, moving_text("moving existing checkout ", path, backup)),
            ),
        ),
    );
    stages.push(
        Stage {
            steps: one_step(rename(git_dir.as_str(), path, purpose)),
            undo: one_step(rename_back(backup, path)),
            context: None,
        },
    );
    stages.push(Stage { steps, undo, context: None });
    stages.push(plainly(one_step(Step::RemoveTree { path: backup.to_owned() })));
    proof {
        assert(stage_views(stages@) =~~= bare_stages(path@, backup@, facts.worktrees@));
    }
    Ok(stages)
}

proof fn lemma_repairs_move_nothing(
    start: Seq<StepView>,
    path: Seq<char>,
    worktrees: Seq<(String, bool)>,
)
    requires
        moves_of(start) == Seq::<(Seq<char>, Seq<char>)>::empty(),
    ensures
        moves_of(start + repairs(path, worktrees)) == Seq::<(Seq<char>, Seq<char>)>::empty(),
    decreases worktrees.len(),
{
    if worktrees.len() == 0 {
        assert(start + repairs(path, worktrees) =~= start);
    } else {
        lemma_repairs_move_nothing(start, path, worktrees.drop_last());
        let before = repairs(path, worktrees.drop_last());
        if !worktrees.last().1 {
            let all = start + repairs(path, worktrees);
            assert(all.drop_last() =~= start + before);
        }
    }
}

/// The checkout that a bare repository replaces is removed only when the
/// repository is in order; until then a failure puts everything back where it was.
pub proof fn bare_conversion_can_be_taken_back(
    path: Seq<char>,
    backup: Seq<char>,
    worktrees: Seq<(String, bool)>,
)
    ensures
        ({
            let plan = bare_stages(path, backup, worktrees);
            &&& plan.len() == 4
            &&& moves_before(plan, 3) == seq![
                (path, backup),
                (join_path(backup, ".git"@), path),
            ]
            &&& taken_back(plan, 0, 3)
            &&& plan[3].steps == seq![StepView::RemoveTree { path: backup }]
        }),
{
    let plan = bare_stages(path, backup, worktrees);
    let git_dir = join_path(backup, ".git"@);
    reveal_with_fuel(moves_of, 4);
    reveal_with_fuel(moves_before, 4);
    assert(plan[0].steps.drop_last() =~= Seq::empty());
    assert(plan[1].steps.drop_last() =~= Seq::empty());
    assert(moves_of(plan[0].steps) =~= seq![(path, backup)]);
    assert(moves_of(plan[1].steps) =~= seq![(git_dir, path)]);
    assert(moves_before(plan, 1) =~= seq![(path, backup)]);
    assert(moves_before(plan, 2) =~= seq![(path, backup), (git_dir, path)]);
    let config = join_path(path, "config"@);
    let start = seq![
        StepView::SetConfig { file: config, key: "core.bare"@, value: "true"@ },
        StepView::UnsetConfig { file: config, key: "core.worktree"@ },
    ];
    assert(start.drop_last().drop_last() =~= Seq::empty());
    assert(moves_of(start) =~= Seq::empty());
    lemma_repairs_move_nothing(start, path, worktrees);
    assert(moves_before(plan, 3) =~= moves_before(plan, 2));
    assert(moves_of(plan[0].undo) =~= reversed(moves_before(plan, 0)));
    assert(plan[1].undo.drop_last() =~= Seq::empty());
    assert(moves_of(plan[1].undo) =~= reversed(moves_before(plan, 1)));
    assert(plan[2].undo.drop_last().drop_last() =~= Seq::empty());
    assert(moves_of(plan[2].undo) =~= reversed(moves_before(plan, 2)));
}

} // verus!
