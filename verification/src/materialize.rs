//! How a fork or mirror is brought into being next to its canonical repository:
//! as a linked worktree of a checkout, or as a view of a bare repository.
use crate::error::{outcome, Error};
use crate::git::{checkout_branch, dependent_default_branch};
use crate::locator::LocatorView;
use crate::naming::{
    related_remote_name, remote_name, remote_url, remote_url_for_locator, repo_view_refs_prefix,
    str_view, view_refs,
};
use crate::relation_check::{
    default_branch, head_branch, remote_default_branch, shared_dependent_default_branch, text_result,
};
use crate::repair::{ResolutionView, SharedGitDirResolution};
use crate::share::{
    clean_checkout, conversion, conversion_stages, ensure_clean_checkout, resolve_worktree,
    worktree_resolution, Placed, SharePlan,
};
use crate::steps::{
    add_stages, ensure_remote, ensure_tracking, git, moving, moving_text, no_steps, one_stage,
    one_step, plain_stage, plainly, rename, stage_views, step_views, try_git, Stage, StageView,
    Step, StepView,
};
use crate::text::{opt_view, owned, views};
use crate::views::{
    fetch_view_args, namespace_fetch, namespace_fetch_args, view_fetch, RepoViewMetadata,
    RepoViewView, REPO_VIEW_METADATA_VERSION,
};
use vstd::prelude::*;

verus! {

broadcast use {
    crate::text::lemma_views_push,
    crate::steps::lemma_step_views_push,
    crate::steps::lemma_stage_views_push,
};

fn borrowed(o: &Option<String>) -> (r: Option<&str>)
    ensures
        str_view(r) == opt_view(*o),
{
    match o {
        Some(text) => Some(text.as_str()),
        None => None,
    }
}

/// Both places have to be there before they can share a Git directory.
pub open spec fn share_refusal(
    dependent: Seq<char>,
    controlling: Seq<char>,
    relationship: Seq<char>,
    dependent_exists: bool,
    controlling_exists: bool,
) -> Option<Seq<char>> {
    if !dependent_exists {
        Some(relationship + " checkout does not exist: "@ + dependent)
    } else if !controlling_exists {
        Some("canonical checkout does not exist: "@ + controlling)
    } else {
        None
    }
}

pub fn check_share(
    dependent: &Placed,
    controlling: &Placed,
    relationship: &str,
    dependent_exists: bool,
    controlling_exists: bool,
) -> (r: Result<(), Error>)
    ensures
        outcome(r) == match share_refusal(
            dependent.path@,
            controlling.path@,
            relationship@,
            dependent_exists,
            controlling_exists,
        ) {
            Some(message) => Err::<(), Seq<char>>(message),
            None => Ok(()),
        },
{
    if !dependent_exists {
        let mut text = relationship.to_owned();
        text.append(" checkout does not exist: ");
        text.append(dependent.path);
        return Err(Error::new(text));
    }
    if !controlling_exists {
        return Err(Error::about("canonical checkout does not exist: ", controlling.path));
    }
    Ok(())
}

/// What is done before the default branch of the dependent can be told: both
/// remotes get their URLs, and where the Git directory is shared already, the
/// dependent's refs are fetched.
pub open spec fn preparation(
    dependent: (LocatorView, Seq<char>),
    controlling: (LocatorView, Seq<char>),
    relationship: Seq<char>,
    origin: Option<Seq<char>>,
    already_shared: bool,
) -> Seq<StageView> {
    let dir = controlling.1;
    let remote = remote_name(relationship, dependent.0);
    let remotes = seq![
        StepView::EnsureRemote { dir, name: "origin"@, url: remote_url(origin, controlling.0) },
        StepView::EnsureRemote { dir, name: remote, url: remote_url(origin, dependent.0) },
    ];
    seq![
        plain_stage(
            if already_shared {
                remotes + seq![
                    StepView::Git { dir, args: seq!["fetch"@, "--no-tags"@, remote] },
                    StepView::TryGit { dir, args: seq!["remote"@, "set-head"@, remote, "-a"@] },
                ]
            } else {
                remotes
            },
        ),
    ]
}

/// `origin` is the URL of the canonical checkout's origin, and `already_shared`
/// says whether the two checkouts have the same common Git directory.
pub fn prepare_share(
    dependent: &Placed,
    controlling: &Placed,
    relationship: &str,
    origin: &Option<String>,
    already_shared: bool,
) -> (r: Vec<Stage>)
    ensures
        stage_views(r@) == preparation(
            dependent.place(),
            controlling.place(),
            relationship@,
            opt_view(*origin),
            already_shared,
        ),
{
    let dir = controlling.path;
    let remote = related_remote_name(relationship, dependent.locator);
    let controlling_url = remote_url_for_locator(borrowed(origin), controlling.locator);
    let dependent_url = remote_url_for_locator(borrowed(origin), dependent.locator);
    let mut steps = one_step(ensure_remote(dir, "origin", controlling_url.as_str()));
    steps.push(ensure_remote(dir, remote.as_str(), dependent_url.as_str()));
    if already_shared {
        steps.push(git(dir, &["fetch", "--no-tags", remote.as_str()]));
        steps.push(try_git(dir, &["remote", "set-head", remote.as_str(), "-a"]));
    }
    let stages = one_stage(plainly(steps));
    proof {
        assert(stage_views(stages@) =~~= preparation(
            dependent.place(),
            controlling.place(),
            relationship@,
            opt_view(*origin),
            already_shared,
        ));
    }
    stages
}

/// What is found once the preparation is done.
#[derive(Debug)]
pub struct ShareFacts {
    pub origin: Option<String>,
    pub already_shared: bool,
    /// Where the dependent's default branch is told: by the canonical checkout
    /// for a shared Git directory, and by the dependent itself otherwise.
    pub head: Option<String>,
    /// The branch that the dependent is on, as Git printed it, or why Git did not.
    pub current: Result<String, String>,
    /// What `git status --porcelain` printed of the dependent.
    pub status: String,
    /// Where the dependent is kept while it is replaced.
    pub backup: String,
}

/// The default branch of the dependent.
pub open spec fn share_branch(
    dependent: (LocatorView, Seq<char>),
    relationship: Seq<char>,
    facts: ShareFacts,
) -> Result<Seq<char>, Seq<char>> {
    if facts.already_shared {
        default_branch(
            opt_view(facts.head),
            remote_name(relationship, dependent.0),
            text_result(facts.current),
            dependent.1,
        )
    } else {
        checkout_branch(opt_view(facts.head), text_result(facts.current).ok(), dependent.1)
    }
}

/// A dependent that shares the Git directory is put on its branch; another one is
/// turned into a linked worktree.
pub open spec fn share_plan(
    dependent: (LocatorView, Seq<char>),
    controlling: (LocatorView, Seq<char>),
    relationship: Seq<char>,
    facts: ShareFacts,
) -> Result<(Seq<StageView>, ResolutionView), Seq<char>> {
    match share_branch(dependent, relationship, facts) {
        Err(message) => Err(message),
        Ok(branch) => {
            let resolution = worktree_resolution(
                dependent,
                controlling,
                relationship,
                remote_url(opt_view(facts.origin), dependent.0),
                branch,
                !facts.already_shared,
            );
            if facts.already_shared {
                Ok(
                    (
                        seq![
                            plain_stage(
                                seq![
                                    StepView::EnsureTracking {
                                        dir: controlling.1,
                                        local: resolution.local_branch,
                                        remote: resolution.remote_branch,
                                    },
                                    StepView::Checkout {
                                        dir: dependent.1,
                                        branch: resolution.local_branch,
                                    },
                                ],
                            ),
                        ],
                        resolution,
                    ),
                )
            } else {
                match clean_checkout(facts.status@, dependent.1) {
                    Err(message) => Err(message),
                    Ok(_) => Ok((conversion_stages(resolution, facts.backup@), resolution)),
                }
            }
        },
    }
}

pub fn materialize_related_shared_git_dir(
    dependent: &Placed,
    controlling: &Placed,
    relationship: &str,
    facts: &ShareFacts,
) -> (r: Result<SharePlan, Error>)
    ensures
        outcome(r) == share_plan(dependent.place(), controlling.place(), relationship@, *facts),
{
    let branch = if facts.already_shared {
        let remote = related_remote_name(relationship, dependent.locator);
        match shared_dependent_default_branch(
            &facts.head,
            remote.as_str(),
            &facts.current,
            dependent.path,
        ) {
            Ok(branch) => branch,
            Err(message) => {
                return Err(Error::new(message));
            },
        }
    } else {
        let current = match &facts.current {
            Ok(text) => Some(text.clone()),
            Err(_) => None,
        };
        match dependent_default_branch(&facts.head, &current, dependent.path) {
            Ok(branch) => branch,
            Err(error) => {
                return Err(error);
            },
        }
    };
    let url = remote_url_for_locator(borrowed(&facts.origin), dependent.locator);
    let resolution = resolve_worktree(
        dependent,
        controlling,
        relationship,
        url.as_str(),
        branch.as_str(),
        !facts.already_shared,
    );
    if facts.already_shared {
        let mut steps = one_step(
            ensure_tracking(
                controlling.path,
                resolution.local_branch.as_str(),
                resolution.remote_branch.as_str(),
            ),
        );
        steps.push(
            Step::Checkout {
                dir: dependent.path.to_owned(),
                branch: resolution.local_branch.clone(),
            },
        );
        let stages = one_stage(plainly(steps));
        proof {
            assert(stage_views(stages@) =~~= seq![
                plain_stage(
                    seq![
                        StepView::EnsureTracking {
                            dir: controlling.path@,
                            local: resolution.local_branch@,
                            remote: resolution.remote_branch@,
                        },
                        StepView::Checkout {
                            dir: dependent.path@,
                            branch: resolution.local_branch@,
                        },
                    ],
                ),
            ]);
        }
        return Ok(SharePlan { stages, resolution });
    }
    match ensure_clean_checkout(facts.status.as_str(), dependent.path) {
        Ok(()) => {},
        Err(error) => {
            return Err(error);
        },
    }
    let stages = conversion(&resolution, facts.backup.as_str());
    Ok(SharePlan { stages, resolution })
}

/// What is found of the place of a view and of its canonical repository.
#[derive(Debug)]
pub struct ViewPlaceFacts {
    pub canonical_is_bare: bool,
    /// The default branch that the view's origin tells.
    pub default_branch: Option<String>,
    pub exists: bool,
    pub has_view: bool,
    /// Where a checkout that is in the way is kept.
    pub backup: String,
}

pub open spec fn not_bare(path: Seq<char>) -> Seq<char> {
    "repository is not bare: "@ + path
}

/// Refuses a repository that is not bare where only a bare one will do.
pub fn ensure_bare_repository(path: &str, is_bare: bool) -> (r: Result<(), Error>)
    ensures
        r is Ok <==> is_bare,
        r matches Err(e) ==> e@ == not_bare(path@),
{
    if is_bare {
        Ok(())
    } else {
        Err(Error::about("repository is not bare: ", path))
    }
}

/// The description of a view.
pub open spec fn new_view(
    place: (LocatorView, Seq<char>),
    canonical: (LocatorView, Seq<char>),
    relationship: Seq<char>,
    origin_url: Seq<char>,
    branch: Option<Seq<char>>,
) -> RepoViewView {
    RepoViewView {
        version: REPO_VIEW_METADATA_VERSION,
        relationship,
        locator: place.0,
        path: place.1,
        canonical_locator: canonical.0,
        canonical_path: canonical.1,
        refs_prefix: view_refs(relationship, place.0),
        origin_url,
        default_branch: match branch {
            Some(branch) => branch,
            None => "main"@,
        },
    }
}

/// A view is set up at its place, from which a checkout is moved away first; then
/// it is described, fetched, and given its default branch.
pub open spec fn view_steps(view: RepoViewView, facts: ViewPlaceFacts) -> Seq<StepView> {
    (if facts.exists && !facts.has_view {
        seq![
            StepView::Rename {
                from: view.path,
                to: facts.backup@,
                purpose: moving("moving existing dependent checkout "@, view.path, facts.backup@),
            },
        ]
    } else {
        Seq::empty()
    }) + seq![
        StepView::MakeDir { path: view.path },
        StepView::WriteView { view },
        StepView::GitDir {
            dir: view.canonical_path,
            args: view_fetch(view),
            failure: "git fetch failed"@,
        },
        StepView::EnsureViewBranch { view },
    ]
}

/// A view that is set up, and the plan that does it.
#[derive(Debug)]
pub struct ViewPlan {
    pub view: RepoViewMetadata,
    pub stages: Vec<Stage>,
}

impl View for ViewPlan {
    type V = (RepoViewView, Seq<StageView>);

    open spec fn view(&self) -> (RepoViewView, Seq<StageView>) {
        (self.view@, stage_views(self.stages@))
    }
}

pub open spec fn view_plan(
    place: (LocatorView, Seq<char>),
    canonical: (LocatorView, Seq<char>),
    relationship: Seq<char>,
    origin_url: Seq<char>,
    facts: ViewPlaceFacts,
) -> Result<(RepoViewView, Seq<StageView>), Seq<char>> {
    if facts.canonical_is_bare {
        let view = new_view(
            place,
            canonical,
            relationship,
            origin_url,
            opt_view(facts.default_branch),
        );
        Ok((view, seq![plain_stage(view_steps(view, facts))]))
    } else {
        Err(not_bare(canonical.1))
    }
}

pub fn materialize_namespace_view(
    place: &Placed,
    canonical: &Placed,
    relationship: &str,
    origin_url: &str,
    facts: &ViewPlaceFacts,
) -> (r: Result<ViewPlan, Error>)
    ensures
        outcome(r) == view_plan(
            place.place(),
            canonical.place(),
            relationship@,
            origin_url@,
            *facts,
        ),
{
    if let Err(error) = ensure_bare_repository(canonical.path, facts.canonical_is_bare) {
        return Err(error);
    }
    let view = RepoViewMetadata {
        version: REPO_VIEW_METADATA_VERSION,
        relationship: relationship.to_owned(),
        locator: place.locator.clone(),
        path: place.path.to_owned(),
        canonical_locator: canonical.locator.clone(),
        canonical_path: canonical.path.to_owned(),
        refs_prefix: repo_view_refs_prefix(relationship, place.locator),
        origin_url: origin_url.to_owned(),
        default_branch: match &facts.default_branch {
            Some(branch) => branch.clone(),
            None => "main".to_owned(),
        },
    };
    let args = match fetch_view_args(&view, "origin") {
        Ok(args) => args,
        Err(error) => {
            return Err(error);
        },
    };
    let mut steps = no_steps();
    if facts.exists && !facts.has_view {
        steps.push(
            rename(
                place.path,
                facts.backup.as_str(),
                moving_text(
                    "moving existing dependent checkout ",
                    place.path,
                    facts.backup.as_str(),
                ),
            ),
        );
    }
    steps.push(Step::MakeDir { path: place.path.to_owned() });
    steps.push(Step::WriteView { view: view.clone() });
    steps.push(
        Step::GitDir {
            dir: canonical.path.to_owned(),
            args,
            failure: "git fetch failed".to_owned(),
        },
    );
    steps.push(Step::EnsureViewBranch { view: view.clone() });
    proof {
        assert(step_views(steps@) =~~= view_steps(view@, *facts));
    }
    let stages = one_stage(plainly(steps));
    Ok(ViewPlan { view, stages })
}

/// What comes of sharing a bare repository through a view.
pub open spec fn view_resolution(
    dependent: (LocatorView, Seq<char>),
    controlling: (LocatorView, Seq<char>),
    view: RepoViewView,
) -> ResolutionView {
    ResolutionView {
        dependent_locator: dependent.0,
        controlling_locator: controlling.0,
        dependent_path: dependent.1,
        controlling_path: controlling.1,
        dependent_remote: "origin"@,
        dependent_url: view.origin_url,
        local_branch: view.branch_ref(view.default_branch),
        remote_branch: view.remote_ref(view.default_branch),
        converted_to_worktree: false,
    }
}

/// The refs of a checkout that is in the place of the view go into its namespace
/// before the checkout is moved away.
pub open spec fn bare_share_plan(
    dependent: (LocatorView, Seq<char>),
    controlling: (LocatorView, Seq<char>),
    relationship: Seq<char>,
    origin: Option<Seq<char>>,
    controlling_exists: bool,
    facts: ViewPlaceFacts,
) -> Result<(Seq<StageView>, ResolutionView), Seq<char>> {
    if !controlling_exists {
        Err("canonical bare repository does not exist: "@ + controlling.1)
    } else {
        match view_plan(
            dependent,
            controlling,
            relationship,
            remote_url(origin, dependent.0),
            facts,
        ) {
            Err(message) => Err(message),
            Ok((view, stages)) => {
                let remote = StepView::EnsureRemote {
                    dir: controlling.1,
                    name: "origin"@,
                    url: remote_url(origin, controlling.0),
                };
                let first = if facts.exists && !facts.has_view {
                    seq![
                        remote,
                        StepView::GitDir {
                            dir: controlling.1,
                            args: namespace_fetch(dependent.1, view_refs(relationship, dependent.0)),
                            failure: "git fetch from existing dependent failed"@,
                        },
                    ]
                } else {
                    seq![remote]
                };
                Ok(
                    (
                        seq![plain_stage(first)] + stages,
                        view_resolution(dependent, controlling, view),
                    ),
                )
            },
        }
    }
}

pub fn materialize_related_bare_repo(
    dependent: &Placed,
    controlling: &Placed,
    relationship: &str,
    origin: &Option<String>,
    controlling_exists: bool,
    facts: &ViewPlaceFacts,
) -> (r: Result<SharePlan, Error>)
    ensures
        outcome(r) == bare_share_plan(
            dependent.place(),
            controlling.place(),
            relationship@,
            opt_view(*origin),
            controlling_exists,
            *facts,
        ),
{
    if !controlling_exists {
        return Err(
            Error::about("canonical bare repository does not exist: ", controlling.path),
        );
    }
    let controlling_url = remote_url_for_locator(borrowed(origin), controlling.locator);
    let dependent_url = remote_url_for_locator(borrowed(origin), dependent.locator);
    let plan = match materialize_namespace_view(
        dependent,
        controlling,
        relationship,
        dependent_url.as_str(),
        facts,
    ) {
        Ok(plan) => plan,
        Err(error) => {
            return Err(error);
        },
    };
    let mut first = one_step(ensure_remote(controlling.path, "origin", controlling_url.as_str()));
    if facts.exists && !facts.has_view {
        let refs_prefix = repo_view_refs_prefix(relationship, dependent.locator);
        first.push(
            Step::GitDir {
                dir: controlling.path.to_owned(),
                args: namespace_fetch_args(dependent.path, refs_prefix.as_str()),
                failure: "git fetch from existing dependent failed".to_owned(),
            },
        );
    }
    let ghost first_steps = step_views(first@);
    proof {
        let remote = StepView::EnsureRemote {
            dir: controlling.path@,
            name: "origin"@,
            url: controlling_url@,
        };
        assert(first_steps =~~= if facts.exists && !facts.has_view {
            seq![
                remote,
                StepView::GitDir {
                    dir: controlling.path@,
                    args: namespace_fetch(
                        dependent.path@,
                        view_refs(relationship@, dependent.locator@),
                    ),
                    failure: "git fetch from existing dependent failed"@,
                },
            ]
        } else {
            seq![remote]
        });
    }
    let view = plan.view;
    let mut stages = one_stage(plainly(first));
    add_stages(&mut stages, plan.stages);
    let resolution = SharedGitDirResolution {
        dependent_locator: dependent.locator.clone(),
        controlling_locator: controlling.locator.clone(),
        dependent_path: dependent.path.to_owned(),
        controlling_path: controlling.path.to_owned(),
        dependent_remote: "origin".to_owned(),
        dependent_url,
        local_branch: view.branch_ref(view.default_branch.as_str()),
        remote_branch: view.remote_ref(view.default_branch.as_str()),
        converted_to_worktree: false,
    };
    Ok(SharePlan { stages, resolution })
}

/// How a canonical checkout is put on a branch of its origin, as it is there.
pub open spec fn default_checkout(branch: Seq<char>) -> Seq<Seq<Seq<char>>> {
    let remote = "origin/"@ + branch;
    seq![
        seq!["checkout"@, "-B"@, branch, remote],
        seq!["branch"@, "--set-upstream-to"@, remote, branch],
        seq!["reset"@, "--hard"@],
        seq!["clean"@, "-fdx"@],
    ]
}

pub open spec fn commands(v: Seq<Vec<String>>) -> Seq<Seq<Seq<char>>> {
    v.map_values(|args: Vec<String>| views(args@))
}

/// The Git calls that do it; `head` is where `origin/HEAD` points, as Git printed
/// it, and `fallback` the branch where that is unknown.
pub fn checkout_controlling_default_branch(head: &Option<String>, fallback: &str) -> (r: Vec<
    Vec<String>,
>)
    ensures
        commands(r@) == default_checkout(
            match head_branch(opt_view(*head), "origin"@) {
                Some(branch) => branch,
                None => fallback@,
            },
        ),
{
    let branch = match remote_default_branch(head, "origin") {
        Some(branch) => branch,
        None => fallback.to_owned(),
    };
    let mut remote = "origin/".to_owned();
    remote.append(branch.as_str());
    let mut calls: Vec<Vec<String>> = Vec::new();
    calls.push(owned(&["checkout", "-B", branch.as_str(), remote.as_str()]));
    calls.push(
        owned(&["branch", "--set-upstream-to", remote.as_str(), branch.as_str()]),
    );
    calls.push(owned(&["reset", "--hard"]));
    calls.push(owned(&["clean", "-fdx"]));
    proof {
        assert(commands(calls@) =~~= default_checkout(branch@));
    }
    calls
}

} // verus!
