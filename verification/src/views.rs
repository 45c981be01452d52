//! Views: directories that stand for a fork or mirror whose branches are kept in
//! a namespace of the canonical repository.
use crate::cli::BranchArgs;
use crate::error::{outcome, Error};
use crate::locator::{Locator, LocatorView};
use crate::text::{
    after_prefix, decimal, decimal_text, opt_view, owned, starts_with, starts_with_str,
    strip_prefix, trim, trim_text, views,
};
use vstd::prelude::*;

verus! {

broadcast use crate::text::lemma_views_push;

/// The file in a view's directory that describes it.
pub const REPO_VIEW_METADATA_FILE: &'static str = ".repo-manager-view.json";

/// The version of that description that is written, and the only one that is
/// read.
pub const REPO_VIEW_METADATA_VERSION: u32 = 1;

/// The description of a view.
#[derive(Debug)]
pub struct RepoViewMetadata {
    pub version: u32,
    pub relationship: String,
    pub locator: Locator,
    pub path: String,
    pub canonical_locator: Locator,
    pub canonical_path: String,
    pub refs_prefix: String,
    pub origin_url: String,
    pub default_branch: String,
}

#[verifier::ext_equal]
pub struct RepoViewView {
    pub version: u32,
    pub relationship: Seq<char>,
    pub locator: LocatorView,
    pub path: Seq<char>,
    pub canonical_locator: LocatorView,
    pub canonical_path: Seq<char>,
    pub refs_prefix: Seq<char>,
    pub origin_url: Seq<char>,
    pub default_branch: Seq<char>,
}

impl View for RepoViewMetadata {
    type V = RepoViewView;

    open spec fn view(&self) -> RepoViewView {
        RepoViewView {
            version: self.version,
            relationship: self.relationship@,
            locator: self.locator@,
            path: self.path@,
            canonical_locator: self.canonical_locator@,
            canonical_path: self.canonical_path@,
            refs_prefix: self.refs_prefix@,
            origin_url: self.origin_url@,
            default_branch: self.default_branch@,
        }
    }
}

impl Clone for RepoViewMetadata {
    fn clone(&self) -> (r: RepoViewMetadata)
        ensures
            r@ == self@,
    {
        RepoViewMetadata {
            version: self.version,
            relationship: self.relationship.clone(),
            locator: self.locator.clone(),
            path: self.path.clone(),
            canonical_locator: self.canonical_locator.clone(),
            canonical_path: self.canonical_path.clone(),
            refs_prefix: self.refs_prefix.clone(),
            origin_url: self.origin_url.clone(),
            default_branch: self.default_branch.clone(),
        }
    }
}

/// A description in another version is refused.
pub fn check_view_version(view: &RepoViewMetadata, metadata_path: &str) -> (r: Result<(), Error>)
    ensures
        outcome(r) == if view.version == REPO_VIEW_METADATA_VERSION {
            Ok::<(), Seq<char>>(())
        } else {
            Err(
                "unsupported repo-manager view version "@ + decimal(view.version as nat) + " in "@
                    + metadata_path@,
            )
        },
{
    if view.version == REPO_VIEW_METADATA_VERSION {
        return Ok(());
    }
    let mut text = "unsupported repo-manager view version ".to_owned();
    text.append(decimal_text(view.version as u128).as_str());
    text.append(" in ");
    text.append(metadata_path);
    Err(Error::new(text))
}

impl RepoViewView {
    /// The ref of a branch of the view.
    pub open spec fn branch_ref(self, branch: Seq<char>) -> Seq<char> {
        self.refs_prefix + "/heads/"@ + branch
    }

    /// The ref of what the view has of a branch of its origin.
    pub open spec fn remote_ref(self, branch: Seq<char>) -> Seq<char> {
        self.refs_prefix + "/remotes/origin/"@ + branch
    }
}

impl RepoViewMetadata {
    pub fn branch_ref(&self, branch: &str) -> (r: String)
        ensures
            r@ == self@.branch_ref(branch@),
    {
        let mut text = self.refs_prefix.clone();
        text.append("/heads/");
        text.append(branch);
        text
    }

    pub fn remote_ref(&self, branch: &str) -> (r: String)
        ensures
            r@ == self@.remote_ref(branch@),
    {
        let mut text = self.refs_prefix.clone();
        text.append("/remotes/origin/");
        text.append(branch);
        text
    }
}

/// How a view is brought up to date: its origin's branches and tags go into its
/// namespace, and those that are gone leave it.
pub open spec fn view_fetch(view: RepoViewView) -> Seq<Seq<char>> {
    seq![
        "fetch"@,
        "--prune"@,
        "--no-tags"@,
        view.origin_url,
        "+refs/heads/*:"@ + view.refs_prefix + "/remotes/origin/*"@,
        "+refs/tags/*:"@ + view.refs_prefix + "/tags/*"@,
    ]
}

fn refspec(from: &str, prefix: &str, to: &str) -> (r: String)
    ensures
        r@ == from@ + prefix@ + to@,
{
    let mut text = from.to_owned();
    text.append(prefix);
    text.append(to);
    text
}

/// A view is fetched from its origin, and from nowhere else.
pub fn fetch_view_args(view: &RepoViewMetadata, remote: &str) -> (r: Result<Vec<String>, Error>)
    ensures
        match r {
            Ok(args) => remote@ == "origin"@ && views(args@) == view_fetch(view@),
            Err(error) => remote@ != "origin"@ && error@
                == "repo-manager namespace views currently support only `origin`, got `"@ + remote@
                + "`"@,
        },
{
    if !remote.eq("origin") {
        let mut text =
            "repo-manager namespace views currently support only `origin`, got `".to_owned();
        text.append(remote);
        text.append("`");
        return Err(Error::new(text));
    }
    let heads = refspec("+refs/heads/*:", view.refs_prefix.as_str(), "/remotes/origin/*");
    let tags = refspec("+refs/tags/*:", view.refs_prefix.as_str(), "/tags/*");
    let args = owned(
        &[
            "fetch",
            "--prune",
            "--no-tags",
            view.origin_url.as_str(),
            heads.as_str(),
            tags.as_str(),
        ],
    );
    proof {
        assert(views(args@) =~= view_fetch(view@));
    }
    Ok(args)
}

/// How the refs of a checkout go into the namespace that replaces it.
pub open spec fn namespace_fetch(dependent_path: Seq<char>, refs_prefix: Seq<char>) -> Seq<
    Seq<char>,
> {
    seq![
        "fetch"@,
        "--no-tags"@,
        dependent_path,
        "+refs/heads/*:"@ + refs_prefix + "/heads/*"@,
        "+refs/remotes/origin/*:"@ + refs_prefix + "/remotes/origin/*"@,
        "+refs/tags/*:"@ + refs_prefix + "/tags/*"@,
    ]
}

pub fn namespace_fetch_args(dependent_path: &str, refs_prefix: &str) -> (r: Vec<String>)
    ensures
        views(r@) == namespace_fetch(dependent_path@, refs_prefix@),
{
    let heads = refspec("+refs/heads/*:", refs_prefix, "/heads/*");
    let remotes = refspec("+refs/remotes/origin/*:", refs_prefix, "/remotes/origin/*");
    let tags = refspec("+refs/tags/*:", refs_prefix, "/tags/*");
    let args = owned(
        &[
            "fetch",
            "--no-tags",
            dependent_path,
            heads.as_str(),
            remotes.as_str(),
            tags.as_str(),
        ],
    );
    proof {
        assert(views(args@) =~= namespace_fetch(dependent_path@, refs_prefix@));
    }
    args
}

/// How the refs of a checkout go to the checkout that it becomes a worktree of.
pub open spec fn dependent_fetch(dependent_path: Seq<char>, remote: Seq<char>) -> Seq<Seq<char>> {
    seq![
        "fetch"@,
        "--no-tags"@,
        dependent_path,
        "+refs/heads/*:refs/remotes/"@ + remote + "/*"@,
        "+HEAD:refs/remotes/"@ + remote + "/HEAD"@,
        "+refs/tags/*:refs/repo-manager/dependents/"@ + remote + "/tags/*"@,
    ]
}

pub fn dependent_fetch_args(dependent_path: &str, remote: &str) -> (r: Vec<String>)
    ensures
        views(r@) == dependent_fetch(dependent_path@, remote@),
{
    let heads = refspec("+refs/heads/*:refs/remotes/", remote, "/*");
    let head = refspec("+HEAD:refs/remotes/", remote, "/HEAD");
    let tags = refspec("+refs/tags/*:refs/repo-manager/dependents/", remote, "/tags/*");
    let args = owned(
        &[
            "fetch",
            "--no-tags",
            dependent_path,
            heads.as_str(),
            head.as_str(),
            tags.as_str(),
        ],
    );
    proof {
        assert(views(args@) =~= dependent_fetch(dependent_path@, remote@));
    }
    args
}

/// A branch of a view that is to be made, and what it is to point at.
#[derive(Debug)]
pub struct NewRef {
    pub refname: String,
    pub target: String,
}

/// The ref that a view's default branch is made as, and what it is made at.
pub open spec fn default_ref(
    view: RepoViewView,
    remote_exists: bool,
    local_exists: bool,
    target: Seq<char>,
) -> Option<(Seq<char>, Seq<char>)> {
    if remote_exists && !local_exists {
        Some((view.branch_ref(view.default_branch), trim_text(target)))
    } else {
        None
    }
}

/// The default branch of a view is made once its origin has it. `target` is what
/// `git rev-parse` printed of the remote ref.
pub fn view_default_branch(
    view: &RepoViewMetadata,
    remote_exists: bool,
    local_exists: bool,
    target: &str,
) -> (r: Option<NewRef>)
    ensures
        default_ref(view@, remote_exists, local_exists, target@) == match r {
            Some(new_ref) => Some((new_ref.refname@, new_ref.target@)),
            None => None,
        },
{
    if remote_exists && !local_exists {
        Some(
            NewRef {
                refname: view.branch_ref(view.default_branch.as_str()),
                target: trim(target),
            },
        )
    } else {
        None
    }
}

/// What a start point may mean in a view, in the order in which it is tried.
pub open spec fn start_candidates(view: RepoViewView, start: Option<Seq<char>>) -> Seq<Seq<char>> {
    match start {
        Some(start) => seq![
            view.branch_ref(start),
            view.remote_ref(
                match after_prefix(start, "origin/"@) {
                    Some(branch) => branch,
                    None => start,
                },
            ),
            start,
        ],
        None => seq![view.branch_ref(view.default_branch), view.remote_ref(view.default_branch)],
    }
}

pub fn start_point_candidates(view: &RepoViewMetadata, start_point: &Option<String>) -> (r: Vec<
    String,
>)
    ensures
        views(r@) == start_candidates(view@, opt_view(*start_point)),
{
    let mut candidates: Vec<String> = Vec::new();
    match start_point {
        Some(start) => {
            let remote_branch = match strip_prefix(start.as_str(), "origin/") {
                Some(branch) => branch,
                None => start.clone(),
            };
            candidates.push(view.branch_ref(start.as_str()));
            candidates.push(view.remote_ref(remote_branch.as_str()));
            candidates.push(start.clone());
        },
        None => {
            candidates.push(view.branch_ref(view.default_branch.as_str()));
            candidates.push(view.remote_ref(view.default_branch.as_str()));
        },
    }
    proof {
        assert(views(candidates@) =~= start_candidates(view@, opt_view(*start_point)));
    }
    candidates
}

/// The first candidate that Git knows, for whether it knows each.
pub open spec fn first_known(candidates: Seq<Seq<char>>, known: Seq<bool>, i: int) -> Option<
    Seq<char>,
>
    decreases candidates.len() - i,
{
    if i < 0 || i >= candidates.len() || i >= known.len() {
        None
    } else if known[i] {
        Some(candidates[i])
    } else {
        first_known(candidates, known, i + 1)
    }
}

pub open spec fn start_ref(
    view: RepoViewView,
    start: Option<Seq<char>>,
    known: Seq<bool>,
) -> Result<Seq<char>, Seq<char>> {
    match first_known(start_candidates(view, start), known, 0) {
        Some(refname) => Ok(refname),
        None => Err("could not resolve repo view start point"@),
    }
}

/// The ref that a start point means; `known` says of each candidate whether Git
/// knows it.
pub fn resolve_repo_view_start_ref(
    view: &RepoViewMetadata,
    start_point: &Option<String>,
    known: &Vec<bool>,
) -> (r: Result<String, Error>)
    ensures
        outcome(r) == start_ref(view@, opt_view(*start_point), known@),
{
    let candidates = start_point_candidates(view, start_point);
    let ghost all = start_candidates(view@, opt_view(*start_point));
    let mut i: usize = 0;
    while i < candidates.len() && i < known.len()
        invariant
            all == start_candidates(view@, opt_view(*start_point)),
            views(candidates@) == all,
            i <= candidates@.len(),
            first_known(all, known@, i as int) == first_known(all, known@, 0),
        decreases candidates@.len() - i,
    {
        proof {
            assert(all[i as int] == candidates@[i as int]@);
        }
        if known[i] {
            return Ok(candidates[i].clone());
        }
        i += 1;
    }
    Err(Error::fixed("could not resolve repo view start point"))
}

/// What a worktree of a view is made of.
#[derive(Debug)]
pub struct ViewWorktreeRefs {
    /// The branch that the worktree stands on, if it stands on one.
    pub branch_ref: Option<String>,
    /// What is checked out.
    pub checkout_ref: String,
}

/// The branch that a worktree of a view stands on: the new one, the default one
/// where no start point is given, or the start point where that is a branch of
/// the view.
pub open spec fn worktree_branch(
    view: RepoViewView,
    branch: Option<Seq<char>>,
    start: Option<Seq<char>>,
    start_ref: Seq<char>,
) -> Option<Seq<char>> {
    match branch {
        Some(branch) => Some(view.branch_ref(branch)),
        None => if start is None {
            Some(view.branch_ref(view.default_branch))
        } else if starts_with(start_ref, view.refs_prefix + "/heads/"@) {
            Some(start_ref)
        } else {
            None
        },
    }
}

pub fn view_worktree_refs(
    view: &RepoViewMetadata,
    branch: &Option<String>,
    start_point: &Option<String>,
    start_ref: &str,
) -> (r: ViewWorktreeRefs)
    ensures
        opt_view(r.branch_ref) == worktree_branch(
            view@,
            opt_view(*branch),
            opt_view(*start_point),
            start_ref@,
        ),
        r.checkout_ref@ == match opt_view(r.branch_ref) {
            Some(branch_ref) => branch_ref,
            None => start_ref@,
        },
{
    let branch_ref = match branch {
        Some(branch) => Some(view.branch_ref(branch.as_str())),
        None => if start_point.is_none() {
            Some(view.branch_ref(view.default_branch.as_str()))
        } else {
            let mut heads = view.refs_prefix.clone();
            heads.append("/heads/");
            if starts_with_str(start_ref, heads.as_str()) {
                Some(start_ref.to_owned())
            } else {
                None
            }
        },
    };
    let checkout_ref = match &branch_ref {
        Some(branch_ref) => branch_ref.clone(),
        None => start_ref.to_owned(),
    };
    ViewWorktreeRefs { branch_ref, checkout_ref }
}

/// How a branch is made in a checkout that is no view.
pub open spec fn branch_command(branch: Seq<char>, start: Option<Seq<char>>) -> Seq<Seq<char>> {
    match start {
        Some(start) => seq!["branch"@, branch, start],
        None => seq!["branch"@, branch],
    }
}

/// The Git call that makes the branch that was asked for, if one was.
pub fn branch_args(args: &BranchArgs) -> (r: Option<Vec<String>>)
    ensures
        match (r, args.branch) {
            (Some(command), Some(branch)) => views(command@) == branch_command(
                branch@,
                opt_view(args.start_point),
            ),
            (None, None) => true,
            _ => false,
        },
{
    match &args.branch {
        Some(branch) => {
            let command = match &args.start_point {
                Some(start) => owned(&["branch", branch.as_str(), start.as_str()]),
                None => owned(&["branch", branch.as_str()]),
            };
            proof {
                assert(views(command@) =~= branch_command(branch@, opt_view(args.start_point)));
            }
            Some(command)
        },
        None => None,
    }
}

} // verus!
