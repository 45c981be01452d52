//! What every plan does that brings a fork or mirror into being next to its
//! canonical repository.
use crate::git::checkout_branch;
use crate::locator::LocatorView;
use crate::materialize::{
    bare_share_plan, preparation, share_branch, share_plan, view_plan, ShareFacts, ViewPlaceFacts,
};
use crate::naming::{local_branch, remote_name, remote_url, view_refs};
use crate::paths::join_path;
use crate::repair::ResolutionView;
use crate::share::{bare_plan, repairs, seed_plan, BareFacts, SeedFacts};
use crate::steps::{StageView, StepView};
use crate::text::{opt_view, trim_text};
use crate::views::RepoViewView;
use vstd::prelude::*;

verus! {

/// A step of the plan is this one.
pub open spec fn does(plan: Seq<StageView>, step: StepView) -> bool {
    exists|k: int, i: int|
        0 <= k < plan.len() && 0 <= i < plan[k].steps.len() && #[trigger] plan[k].steps[i] == step
}

/// One step of the plan comes before another.
pub open spec fn does_before(plan: Seq<StageView>, first: StepView, second: StepView) -> bool {
    exists|k: int, i: int, l: int, j: int|
        #![trigger plan[k].steps[i], plan[l].steps[j]]
        0 <= k < plan.len() && 0 <= i < plan[k].steps.len() && 0 <= l < plan.len() && 0 <= j
            < plan[l].steps.len() && (k < l || (k == l && i < j)) && plan[k].steps[i] == first
            && plan[l].steps[j] == second
}

/// A step moves what is at one place to another.
pub open spec fn renames(step: StepView, from: Seq<char>, to: Seq<char>) -> bool {
    match step {
        StepView::Rename { from: f, to: t, .. } => f == from && t == to,
        _ => false,
    }
}

/// All steps of the plan are of a kind.
pub open spec fn every_step(plan: Seq<StageView>, p: spec_fn(StepView) -> bool) -> bool {
    forall|k: int, i: int|
        0 <= k < plan.len() && 0 <= i < plan[k].steps.len() ==> p(#[trigger] plan[k].steps[i])
}

/// The only remotes that a plan gives a URL are those of one checkout: its origin, and
/// one of another name.
pub open spec fn only_remotes(
    plan: Seq<StageView>,
    dir: Seq<char>,
    origin_url: Seq<char>,
    name: Seq<char>,
    url: Seq<char>,
) -> bool {
    every_step(
        plan,
        |step: StepView|
            step matches StepView::EnsureRemote { dir: d, name: n, url: u } ==> d == dir && ((n
                == "origin"@ && u == origin_url) || (n == name && u == url)),
    )
}

/// The remote of a fork or mirror is never called `origin`.
pub proof fn related_remotes_are_not_origin(relationship: Seq<char>, locator: LocatorView)
    ensures
        remote_name(relationship, locator) != "origin"@,
{
    reveal_strlit("-");
    reveal_strlit("origin");
    let name = remote_name(relationship, locator);
    assert(name[relationship.len() as int] == '-');
    if name == "origin"@ {
        let i = relationship.len() as int;
        let o = "origin"@;
        assert(o[0] != '-' && o[1] != '-' && o[2] != '-' && o[3] != '-' && o[4] != '-' && o[5]
            != '-');
        assert(i < name.len());
        assert(i == 0 || i == 1 || i == 2 || i == 3 || i == 4 || i == 5);
    }
}

/// What is told of a fork or mirror that became a worktree is what was asked for: the
/// two repositories at their two places, the URL that the fork or mirror has, and the
/// remote and the branches that go by its locator and its default branch.
pub open spec fn tells(
    resolution: ResolutionView,
    dependent: (LocatorView, Seq<char>),
    controlling: (LocatorView, Seq<char>),
    relationship: Seq<char>,
    dependent_url: Seq<char>,
    branch: Seq<char>,
) -> bool {
    &&& resolution.dependent_locator == dependent.0
    &&& resolution.dependent_path == dependent.1
    &&& resolution.controlling_locator == controlling.0
    &&& resolution.controlling_path == controlling.1
    &&& resolution.dependent_url == dependent_url
    &&& resolution.dependent_remote == remote_name(relationship, dependent.0)
    &&& resolution.remote_branch == remote_name(relationship, dependent.0) + "/"@ + branch
    &&& resolution.local_branch == local_branch(relationship, dependent.0, branch)
}

/// A canonical checkout is seeded exactly when its place is free, there is a checkout
/// to move, and its default branch can be told.
pub proof fn seeding_needs_a_free_place(
    dependent: (LocatorView, Seq<char>),
    controlling: (LocatorView, Seq<char>),
    urls: (Seq<char>, Seq<char>),
    relationship: Seq<char>,
    facts: SeedFacts,
)
    ensures
        ({
            let plan = seed_plan(dependent, controlling, urls, relationship, facts);
            let branch = checkout_branch(
                opt_view(facts.origin_head),
                opt_view(facts.current_branch),
                dependent.1,
            );
            &&& plan is Ok <==> !facts.controlling_exists && facts.dependent_exists
                && branch is Ok
            &&& facts.controlling_exists ==> plan->Err_0 == "canonical checkout already exists: "@
                + controlling.1
            &&& !facts.controlling_exists && !facts.dependent_exists ==> plan->Err_0
                == relationship + " checkout does not exist: "@ + dependent.1
        }),
{
}

/// The seeded canonical checkout follows the canonical repository: its `origin` is the
/// canonical URL, and its remote for the fork or mirror has the URL of that one. No
/// other remote is touched, nowhere else.
pub proof fn seeded_checkouts_follow_the_canonical_repository(
    dependent: (LocatorView, Seq<char>),
    controlling: (LocatorView, Seq<char>),
    urls: (Seq<char>, Seq<char>),
    relationship: Seq<char>,
    facts: SeedFacts,
)
    requires
        seed_plan(dependent, controlling, urls, relationship, facts) is Ok,
    ensures
        ({
            let (plan, resolution) = seed_plan(
                dependent,
                controlling,
                urls,
                relationship,
                facts,
            )->Ok_0;
            let dir = controlling.1;
            let remote = remote_name(relationship, dependent.0);
            let branch = checkout_branch(
                opt_view(facts.origin_head),
                opt_view(facts.current_branch),
                dependent.1,
            )->Ok_0;
            let own = local_branch(relationship, dependent.0, branch);
            &&& remote != "origin"@
            &&& does(plan, StepView::EnsureRemote { dir, name: "origin"@, url: urls.1 })
            &&& does(plan, StepView::EnsureRemote { dir, name: remote, url: urls.0 })
            &&& only_remotes(plan, dir, urls.1, remote, urls.0)
            &&& tells(resolution, dependent, controlling, relationship, urls.0, branch)
            &&& resolution.converted_to_worktree
            &&& does(
                plan,
                StepView::EnsureTracking { dir, local: own, remote: remote + "/"@ + branch },
            )
            &&& does(
                plan,
                StepView::Git { dir, args: seq!["worktree"@, "add"@, dependent.1, own] },
            )
        }),
{
    related_remotes_are_not_origin(relationship, dependent.0);
    let (plan, resolution) = seed_plan(dependent, controlling, urls, relationship, facts)->Ok_0;
    assert(plan[1].steps[1] is EnsureRemote);
    assert(plan[1].steps[2] is EnsureRemote);
    assert(plan[1].steps[7] is EnsureTracking);
    assert(plan[1].steps[8] is Git);
}

/// Seeding moves the one checkout to the canonical place first, makes a worktree where
/// it was, and gives that worktree its files before the canonical checkout gets its
/// own. Nothing is removed, nothing else is moved, and a failure moves the checkout
/// back.
pub proof fn seeding_keeps_the_files(
    dependent: (LocatorView, Seq<char>),
    controlling: (LocatorView, Seq<char>),
    urls: (Seq<char>, Seq<char>),
    relationship: Seq<char>,
    facts: SeedFacts,
)
    requires
        seed_plan(dependent, controlling, urls, relationship, facts) is Ok,
    ensures
        ({
            let (plan, resolution) = seed_plan(
                dependent,
                controlling,
                urls,
                relationship,
                facts,
            )->Ok_0;
            let dir = controlling.1;
            let added = StepView::Git {
                dir,
                args: seq!["worktree"@, "add"@, dependent.1, resolution.local_branch],
            };
            let copied = StepView::CopyState { from: dir, to: dependent.1 };
            &&& plan.len() == 2
            &&& renames(plan[0].steps.last(), dependent.1, dir)
            &&& plan[1].undo == seq![StepView::RenameBack { from: dir, to: dependent.1 }]
            &&& does_before(plan, added, copied)
            &&& does_before(
                plan,
                copied,
                StepView::CheckoutDefault {
                    dir,
                    fallback: checkout_branch(
                        opt_view(facts.origin_head),
                        opt_view(facts.current_branch),
                        dependent.1,
                    )->Ok_0,
                },
            )
            &&& every_step(
                plan,
                |step: StepView|
                    {
                        &&& !(step is RemoveTree)
                        &&& step is Rename ==> renames(step, dependent.1, dir)
                    },
            )
        }),
{
    let (plan, resolution) = seed_plan(dependent, controlling, urls, relationship, facts)->Ok_0;
    assert(plan[1].steps[8] is Git);
    assert(plan[1].steps[9] is CopyState);
    assert(plan[1].steps[10] is CheckoutDefault);
}

/// Before a Git directory is shared, the canonical checkout gets its own URL as
/// `origin` and that of the fork or mirror under its remote; nothing else is done but
/// to fetch the fork or mirror where the directory is shared already.
pub proof fn sharing_prepares_both_remotes(
    dependent: (LocatorView, Seq<char>),
    controlling: (LocatorView, Seq<char>),
    relationship: Seq<char>,
    origin: Option<Seq<char>>,
    already_shared: bool,
)
    ensures
        ({
            let plan = preparation(dependent, controlling, relationship, origin, already_shared);
            let dir = controlling.1;
            let remote = remote_name(relationship, dependent.0);
            let own = remote_url(origin, controlling.0);
            let url = remote_url(origin, dependent.0);
            let fetch = StepView::Git { dir, args: seq!["fetch"@, "--no-tags"@, remote] };
            &&& does(plan, StepView::EnsureRemote { dir, name: "origin"@, url: own })
            &&& does(plan, StepView::EnsureRemote { dir, name: remote, url })
            &&& only_remotes(plan, dir, own, remote, url)
            &&& already_shared <==> does(plan, fetch)
            &&& every_step(
                plan,
                |step: StepView|
                    step is EnsureRemote || step == fetch || (step matches StepView::TryGit {
                        dir: d,
                        args,
                    } && d == dir && args == seq!["remote"@, "set-head"@, remote, "-a"@]),
            )
        }),
{
    let plan = preparation(dependent, controlling, relationship, origin, already_shared);
    assert(plan[0].steps[0] is EnsureRemote);
    assert(plan[0].steps[1] is EnsureRemote);
    if already_shared {
        assert(plan[0].steps[2] is Git);
    }
}

/// A fork or mirror that shares the Git directory already is only put on its branch,
/// which follows its remote.
pub proof fn shared_checkouts_are_put_on_their_branch(
    dependent: (LocatorView, Seq<char>),
    controlling: (LocatorView, Seq<char>),
    relationship: Seq<char>,
    facts: ShareFacts,
    branch: Seq<char>,
)
    requires
        facts.already_shared,
        share_branch(dependent, relationship, facts) == Ok::<Seq<char>, Seq<char>>(branch),
    ensures
        share_plan(dependent, controlling, relationship, facts) matches Ok((plan, resolution)) && {
            let own = local_branch(relationship, dependent.0, branch);
            let remote = remote_name(relationship, dependent.0) + "/"@ + branch;
            let follow = StepView::EnsureTracking {
                dir: controlling.1,
                local: own,
                remote,
            };
            let checkout = StepView::Checkout { dir: dependent.1, branch: own };
            &&& does_before(plan, follow, checkout)
            &&& every_step(plan, |step: StepView| step == follow || step == checkout)
            &&& tells(
                resolution,
                dependent,
                controlling,
                relationship,
                remote_url(opt_view(facts.origin), dependent.0),
                branch,
            )
            &&& !resolution.converted_to_worktree
        },
{
    let (plan, resolution) = share_plan(dependent, controlling, relationship, facts)->Ok_0;
    assert(plan[0].steps[0] is EnsureTracking);
    assert(plan[0].steps[1] is Checkout);
}

/// A checkout of its own becomes a worktree only when it is clean. Its refs are
/// fetched into the canonical checkout before it moves aside, the worktree on its
/// branch is made where it was, it is moved back if that fails, and it is removed
/// last.
pub proof fn clean_checkouts_become_worktrees(
    dependent: (LocatorView, Seq<char>),
    controlling: (LocatorView, Seq<char>),
    relationship: Seq<char>,
    facts: ShareFacts,
    branch: Seq<char>,
)
    requires
        !facts.already_shared,
        share_branch(dependent, relationship, facts) == Ok::<Seq<char>, Seq<char>>(branch),
    ensures
        ({
            let told = share_plan(dependent, controlling, relationship, facts);
            &&& told is Ok <==> trim_text(facts.status@).len() == 0
            &&& told matches Ok((plan, resolution)) ==> {
                let own = local_branch(relationship, dependent.0, branch);
                let remote = remote_name(relationship, dependent.0);
                let backup = facts.backup@;
                &&& tells(
                    resolution,
                    dependent,
                    controlling,
                    relationship,
                    remote_url(opt_view(facts.origin), dependent.0),
                    branch,
                )
                &&& resolution.converted_to_worktree
                &&& plan.len() == 3
                &&& plan[0].steps[0] == (StepView::GitOr {
                    dir: controlling.1,
                    args: seq![
                        "fetch"@,
                        "--no-tags"@,
                        dependent.1,
                        "+refs/heads/*:refs/remotes/"@ + remote + "/*"@,
                        "+HEAD:refs/remotes/"@ + remote + "/HEAD"@,
                        "+refs/tags/*:refs/repo-manager/dependents/"@ + remote + "/tags/*"@,
                    ],
                    failure: "git fetch from local managed checkout failed"@,
                })
                &&& plan[0].steps[1] == (StepView::EnsureTracking {
                    dir: controlling.1,
                    local: own,
                    remote: remote + "/"@ + branch,
                })
                &&& renames(plan[0].steps[2], dependent.1, backup)
                &&& plan[0].steps.len() == 3
                &&& plan[1].steps == seq![
                    StepView::Git {
                        dir: controlling.1,
                        args: seq!["worktree"@, "add"@, dependent.1, own],
                    },
                ]
                &&& plan[1].undo == seq![StepView::RenameBack { from: backup, to: dependent.1 }]
                &&& plan[2].steps == seq![StepView::RemoveTree { path: backup }]
            }
        }),
{
}

/// A step tells one of the other worktrees where the repository is now.
pub open spec fn tells_a_worktree(
    step: StepView,
    path: Seq<char>,
    worktrees: Seq<(String, bool)>,
) -> bool {
    exists|i: int|
        0 <= i < worktrees.len() && !(#[trigger] worktrees[i]).1 && step == (StepView::Git {
            dir: path,
            args: seq!["worktree"@, "repair"@, worktrees[i].0@],
        })
}

/// A checkout becomes a bare repository exactly when it is clean and has its Git
/// directory to itself. The checkout moves aside, its `.git` moves to its place and is
/// made bare there, every other worktree is told so, and what is left is removed last.
pub proof fn clean_checkouts_become_bare(path: Seq<char>, backup: Seq<char>, facts: BareFacts)
    ensures
        ({
            let told = bare_plan(path, backup, facts);
            &&& told is Ok <==> trim_text(facts.status@).len() == 0 && facts.owns_git_dir
            &&& told matches Ok(plan) ==> {
                let config = join_path(path, "config"@);
                &&& plan.len() == 4
                &&& plan[0].steps.len() == 1 && renames(plan[0].steps[0], path, backup)
                &&& plan[1].steps.len() == 1 && renames(
                    plan[1].steps[0],
                    join_path(backup, ".git"@),
                    path,
                )
                &&& plan[2].steps[0] == (StepView::SetConfig {
                    file: config,
                    key: "core.bare"@,
                    value: "true"@,
                })
                &&& plan[2].steps[1] == (StepView::UnsetConfig {
                    file: config,
                    key: "core.worktree"@,
                })
                &&& forall|i: int|
                    0 <= i < facts.worktrees@.len() && !(#[trigger] facts.worktrees@[i]).1
                        ==> plan[2].steps.contains(
                        StepView::Git {
                            dir: path,
                            args: seq!["worktree"@, "repair"@, facts.worktrees@[i].0@],
                        },
                    )
                &&& forall|j: int|
                    2 <= j < plan[2].steps.len() ==> tells_a_worktree(
                        #[trigger] plan[2].steps[j],
                        path,
                        facts.worktrees@,
                    )
                &&& plan[3].steps == seq![StepView::RemoveTree { path: backup }]
            }
        }),
{
    lemma_repairs(path, facts.worktrees@);
    if let Ok(plan) = bare_plan(path, backup, facts) {
        let fixes = repairs(path, facts.worktrees@);
        assert(plan.len() == 4);
        assert(renames(plan[0].steps[0], path, backup));
        assert(renames(plan[1].steps[0], join_path(backup, ".git"@), path));
        assert(plan[2].steps[0] is SetConfig);
        assert(plan[2].steps[1] is UnsetConfig);
        assert(plan[3].steps =~= seq![StepView::RemoveTree { path: backup }]);
        assert forall|j: int| 2 <= j < plan[2].steps.len() implies tells_a_worktree(
            #[trigger] plan[2].steps[j],
            path,
            facts.worktrees@,
        ) by {
            assert(plan[2].steps[j] == fixes[j - 2]);
        }
        assert forall|i: int|
            0 <= i < facts.worktrees@.len() && !(#[trigger] facts.worktrees@[i]).1 implies plan[2].steps.contains(
            StepView::Git {
                dir: path,
                args: seq!["worktree"@, "repair"@, facts.worktrees@[i].0@],
            },
        ) by {
            let fix = StepView::Git {
                dir: path,
                args: seq!["worktree"@, "repair"@, facts.worktrees@[i].0@],
            };
            assert(fixes.contains(fix));
            let j = choose|j: int| 0 <= j < fixes.len() && fixes[j] == fix;
            assert(plan[2].steps[j + 2] == fix);
        }
    }
}

proof fn lemma_repairs(path: Seq<char>, worktrees: Seq<(String, bool)>)
    ensures
        forall|i: int|
            0 <= i < worktrees.len() && !(#[trigger] worktrees[i]).1 ==> repairs(
                path,
                worktrees,
            ).contains(
                StepView::Git {
                    dir: path,
                    args: seq!["worktree"@, "repair"@, worktrees[i].0@],
                },
            ),
        forall|j: int|
            0 <= j < repairs(path, worktrees).len() ==> tells_a_worktree(
                #[trigger] repairs(path, worktrees)[j],
                path,
                worktrees,
            ),
    decreases worktrees.len(),
{
    if worktrees.len() > 0 {
        let rest = worktrees.drop_last();
        let before = repairs(path, rest);
        let after = repairs(path, worktrees);
        let n = worktrees.len() - 1;
        lemma_repairs(path, rest);
        assert forall|i: int| 0 <= i < rest.len() implies #[trigger] rest[i] == worktrees[i] by {}
        assert forall|i: int|
            0 <= i < worktrees.len() && !(#[trigger] worktrees[i]).1 implies after.contains(
            StepView::Git { dir: path, args: seq!["worktree"@, "repair"@, worktrees[i].0@] },
        ) by {
            let fix = StepView::Git {
                dir: path,
                args: seq!["worktree"@, "repair"@, worktrees[i].0@],
            };
            if i < n {
                assert(rest[i] == worktrees[i]);
                assert(before.contains(fix));
                let j = choose|j: int| 0 <= j < before.len() && before[j] == fix;
                assert(after[j] == fix);
            } else {
                assert(after.last() == fix);
            }
        }
        assert forall|j: int| 0 <= j < after.len() implies tells_a_worktree(
            #[trigger] after[j],
            path,
            worktrees,
        ) by {
            if j < before.len() {
                assert(tells_a_worktree(before[j], path, rest));
                assert(after[j] == before[j]);
                let i = choose|i: int|
                    0 <= i < rest.len() && !(#[trigger] rest[i]).1 && before[j] == (StepView::Git {
                        dir: path,
                        args: seq!["worktree"@, "repair"@, rest[i].0@],
                    });
                assert(worktrees[i] == rest[i]);
            } else {
                assert(!worktrees[n].1);
            }
        }
    }
}

/// A view describes the fork or mirror that it was made for: its own locator, place
/// and URL, the canonical repository that holds its refs, and a namespace of its own
/// there.
pub open spec fn describes(
    view: RepoViewView,
    place: (LocatorView, Seq<char>),
    canonical: (LocatorView, Seq<char>),
    relationship: Seq<char>,
    origin_url: Seq<char>,
) -> bool {
    &&& view.version == 1
    &&& view.relationship == relationship
    &&& view.locator == place.0
    &&& view.path == place.1
    &&& view.canonical_locator == canonical.0
    &&& view.canonical_path == canonical.1
    &&& view.origin_url == origin_url
    &&& view.refs_prefix == view_refs(relationship, place.0)
}

/// A view is made exactly of a bare repository. What is in its place and is no view
/// moves aside first; then the view is described in its place, its origin's branches
/// and tags are fetched into its namespace of the canonical repository and nowhere
/// else, and it gets its default branch: the origin's, or `main`.
pub proof fn views_are_fetched_into_their_namespace(
    place: (LocatorView, Seq<char>),
    canonical: (LocatorView, Seq<char>),
    relationship: Seq<char>,
    origin_url: Seq<char>,
    facts: ViewPlaceFacts,
)
    ensures
        ({
            let told = view_plan(place, canonical, relationship, origin_url, facts);
            let aside = facts.exists && !facts.has_view;
            let prefix = view_refs(relationship, place.0);
            &&& told is Ok <==> facts.canonical_is_bare
            &&& told matches Err(message) ==> message == "repository is not bare: "@ + canonical.1
            &&& told matches Ok((view, plan)) ==> {
                let fetch = StepView::GitDir {
                    dir: canonical.1,
                    args: seq![
                        "fetch"@,
                        "--prune"@,
                        "--no-tags"@,
                        origin_url,
                        "+refs/heads/*:"@ + prefix + "/remotes/origin/*"@,
                        "+refs/tags/*:"@ + prefix + "/tags/*"@,
                    ],
                    failure: "git fetch failed"@,
                };
                &&& describes(view, place, canonical, relationship, origin_url)
                &&& view.default_branch == (match facts.default_branch {
                    Some(branch) => branch@,
                    None => "main"@,
                })
                &&& aside <==> plan[0].steps[0] is Rename
                &&& aside ==> renames(plan[0].steps[0], place.1, facts.backup@)
                &&& does_before(
                    plan,
                    StepView::MakeDir { path: place.1 },
                    StepView::WriteView { view },
                )
                &&& does_before(plan, StepView::WriteView { view }, fetch)
                &&& does_before(plan, fetch, StepView::EnsureViewBranch { view })
                &&& plan.len() == 1
                &&& every_step(
                    plan,
                    |step: StepView|
                        step is Rename || step is MakeDir || step == (StepView::WriteView { view })
                            || step == fetch || step == (StepView::EnsureViewBranch { view }),
                )
            }
        }),
{
    if let Ok((view, plan)) = view_plan(place, canonical, relationship, origin_url, facts) {
        let n = plan[0].steps.len() as int;
        assert(plan[0].steps[n - 4] is MakeDir);
        assert(plan[0].steps[n - 3] is WriteView);
        assert(plan[0].steps[n - 2] is GitDir);
        assert(plan[0].steps[n - 1] is EnsureViewBranch);
    }
}

/// A fork or mirror shares a bare repository through a view of its own URL. The
/// canonical repository keeps its own URL as `origin`, and the refs of a checkout that
/// the view replaces go into its namespace before the checkout moves aside.
pub proof fn bare_repositories_are_shared_through_views(
    dependent: (LocatorView, Seq<char>),
    controlling: (LocatorView, Seq<char>),
    relationship: Seq<char>,
    origin: Option<Seq<char>>,
    controlling_exists: bool,
    facts: ViewPlaceFacts,
)
    ensures
        ({
            let told = bare_share_plan(
                dependent,
                controlling,
                relationship,
                origin,
                controlling_exists,
                facts,
            );
            let url = remote_url(origin, dependent.0);
            let prefix = view_refs(relationship, dependent.0);
            &&& told is Ok <==> controlling_exists && facts.canonical_is_bare
            &&& told matches Ok((plan, resolution)) ==> {
                let own = StepView::EnsureRemote {
                    dir: controlling.1,
                    name: "origin"@,
                    url: remote_url(origin, controlling.0),
                };
                &&& plan[0].steps[0] == own
                &&& every_step(plan, |step: StepView| step is EnsureRemote ==> step == own)
                &&& facts.exists && !facts.has_view ==> plan[0].steps.len() == 2
                    && plan[0].steps[1] == (StepView::GitDir {
                    dir: controlling.1,
                    args: seq![
                        "fetch"@,
                        "--no-tags"@,
                        dependent.1,
                        "+refs/heads/*:"@ + prefix + "/heads/*"@,
                        "+refs/remotes/origin/*:"@ + prefix + "/remotes/origin/*"@,
                        "+refs/tags/*:"@ + prefix + "/tags/*"@,
                    ],
                    failure: "git fetch from existing dependent failed"@,
                })
                &&& !(facts.exists && !facts.has_view) ==> plan[0].steps.len() == 1
                &&& view_plan(dependent, controlling, relationship, url, facts) matches Ok(
                    (view, rest),
                ) && plan.skip(1) == rest && resolution.local_branch == view.refs_prefix
                    + "/heads/"@ + view.default_branch && resolution.remote_branch
                    == view.refs_prefix + "/remotes/origin/"@ + view.default_branch
                &&& resolution.dependent_locator == dependent.0
                &&& resolution.dependent_path == dependent.1
                &&& resolution.controlling_locator == controlling.0
                &&& resolution.controlling_path == controlling.1
                &&& resolution.dependent_remote == "origin"@
                &&& resolution.dependent_url == url
                &&& !resolution.converted_to_worktree
            }
        }),
{
    let url = remote_url(origin, dependent.0);
    if let Ok((plan, resolution)) = bare_share_plan(
        dependent,
        controlling,
        relationship,
        origin,
        controlling_exists,
        facts,
    ) {
        let (view, rest) = view_plan(dependent, controlling, relationship, url, facts)->Ok_0;
        assert(plan.skip(1) =~= rest);
        assert(plan[0].steps[0] is EnsureRemote);
        assert(plan[1] == rest[0]);
    }
}

} // verus!
