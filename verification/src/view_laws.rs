//! What holds of every view of a fork or mirror, and of everything that is checked
//! before Git directories are shared.
use crate::materialize::{default_checkout, share_refusal};
use crate::share::clean_checkout;
use crate::text::{starts_with, trim_text};
use crate::views::{
    branch_command, dependent_fetch, namespace_fetch, view_fetch, worktree_branch, RepoViewView,
};
use vstd::prelude::*;

verus! {

/// A view is brought up to date from its own origin. What its origin has goes into the
/// namespace of the view, what is gone there is pruned, and no tag lands elsewhere.
pub proof fn views_are_fetched_from_their_origin(view: RepoViewView)
    ensures
        ({
            let args = view_fetch(view);
            &&& args.len() == 6
            &&& args[0] == "fetch"@ && args[1] == "--prune"@ && args[2] == "--no-tags"@
            &&& args[3] == view.origin_url
            &&& args[4] == "+refs/heads/*:"@ + (view.refs_prefix + "/remotes/origin/*"@)
            &&& args[5] == "+refs/tags/*:"@ + (view.refs_prefix + "/tags/*"@)
        }),
{
    let args = view_fetch(view);
    assert(args[4] =~= "+refs/heads/*:"@ + (view.refs_prefix + "/remotes/origin/*"@));
    assert(args[5] =~= "+refs/tags/*:"@ + (view.refs_prefix + "/tags/*"@));
}

/// The refs of a checkout that becomes a view go into its namespace: branches as
/// branches, what it had of its origin as that, and tags as tags.
pub proof fn checkouts_become_namespaces(path: Seq<char>, prefix: Seq<char>)
    ensures
        ({
            let args = namespace_fetch(path, prefix);
            &&& args.len() == 6
            &&& args[0] == "fetch"@ && args[1] == "--no-tags"@ && args[2] == path
            &&& args[3] == "+refs/heads/*:"@ + (prefix + "/heads/*"@)
            &&& args[4] == "+refs/remotes/origin/*:"@ + (prefix + "/remotes/origin/*"@)
            &&& args[5] == "+refs/tags/*:"@ + (prefix + "/tags/*"@)
        }),
{
    let args = namespace_fetch(path, prefix);
    assert(args[3] =~= "+refs/heads/*:"@ + (prefix + "/heads/*"@));
    assert(args[4] =~= "+refs/remotes/origin/*:"@ + (prefix + "/remotes/origin/*"@));
    assert(args[5] =~= "+refs/tags/*:"@ + (prefix + "/tags/*"@));
}

/// The refs of a checkout that becomes a worktree go below the remote that stands for
/// it, and its tags below that name too, so that none of the canonical repository's own
/// is touched.
pub proof fn dependents_are_fetched_as_remotes(path: Seq<char>, remote: Seq<char>)
    ensures
        ({
            let args = dependent_fetch(path, remote);
            let below = "refs/remotes/"@ + remote;
            &&& args.len() == 6
            &&& args[0] == "fetch"@ && args[1] == "--no-tags"@ && args[2] == path
            &&& starts_with(args[3], "+refs/heads/*:refs/remotes/"@ + remote)
            &&& starts_with(args[4], "+HEAD:refs/remotes/"@ + remote)
            &&& starts_with(args[5], "+refs/tags/*:refs/repo-manager/dependents/"@ + remote)
        }),
{
    let args = dependent_fetch(path, remote);
    let a = "+refs/heads/*:refs/remotes/"@ + remote;
    let b = "+HEAD:refs/remotes/"@ + remote;
    let c = "+refs/tags/*:refs/repo-manager/dependents/"@ + remote;
    assert(args[3].subrange(0, a.len() as int) =~= a);
    assert(args[4].subrange(0, b.len() as int) =~= b);
    assert(args[5].subrange(0, c.len() as int) =~= c);
}

/// A worktree of a view stands on the new branch where one is asked for, on the default
/// one where no start point is given, on the start point where that is a branch of the
/// view, and on none otherwise. All these are branches of the view.
pub proof fn view_branches_stay_in_the_view(
    view: RepoViewView,
    branch: Option<Seq<char>>,
    start: Option<Seq<char>>,
    start_ref: Seq<char>,
)
    ensures
        ({
            let on = worktree_branch(view, branch, start, start_ref);
            let heads = view.refs_prefix + "/heads/"@;
            &&& branch is Some ==> on == Some(heads + branch->0)
            &&& branch is None && start is None ==> on == Some(heads + view.default_branch)
            &&& branch is None && start is Some && starts_with(start_ref, heads) ==> on == Some(
                start_ref,
            )
            &&& branch is None && start is Some && !starts_with(start_ref, heads) ==> on is None
            &&& on is Some ==> starts_with(on->0, heads)
        }),
{
    let heads = view.refs_prefix + "/heads/"@;
    let on = worktree_branch(view, branch, start, start_ref);
    if branch is Some || start is None {
        assert(on->0.subrange(0, heads.len() as int) =~= heads);
    }
}

/// A branch is made at its start point where there is one.
pub proof fn branches_are_made_at_their_start(branch: Seq<char>, start: Seq<char>)
    ensures
        branch_command(branch, Some(start)) == seq!["branch"@, branch, start],
        branch_command(branch, None) == seq!["branch"@, branch],
{
}

/// Both checkouts have to be there before they share a Git directory, and a checkout
/// that is converted must have no changes of its own.
pub proof fn only_clean_checkouts_that_exist_are_shared(
    dependent: Seq<char>,
    controlling: Seq<char>,
    relationship: Seq<char>,
    dependent_exists: bool,
    controlling_exists: bool,
    status: Seq<char>,
)
    ensures
        share_refusal(
            dependent,
            controlling,
            relationship,
            dependent_exists,
            controlling_exists,
        ) is None <==> dependent_exists && controlling_exists,
        clean_checkout(status, dependent) is Ok <==> trim_text(status).len() == 0,
{
}

/// The canonical checkout is put on the branch as its origin has it, follows it from
/// there, and keeps nothing of its own.
pub proof fn canonical_checkouts_follow_their_origin(branch: Seq<char>)
    ensures
        ({
            let calls = default_checkout(branch);
            &&& calls.len() == 4
            &&& calls[0] == seq!["checkout"@, "-B"@, branch, "origin/"@ + branch]
            &&& calls[1] == seq!["branch"@, "--set-upstream-to"@, "origin/"@ + branch, branch]
            &&& calls[2] == seq!["reset"@, "--hard"@]
            &&& calls[3] == seq!["clean"@, "-fdx"@]
        }),
{
}

} // verus!
