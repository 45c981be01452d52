//! What is wrong with a fork or mirror relationship on disk.
use crate::locator::Locator;
use crate::naming::{
    dependent_local_branch, local_branch, related_remote_name, remote_name, remote_url,
    remote_url_for_locator,
};
use crate::paths::{path_eq, same_path};
use crate::text::{
    after_prefix, opt_view, rsplit_once, split_last, strip_prefix, trim, trim_text, views,
};
use vstd::prelude::*;

verus! {

/// The metadata of a fork or mirror view, as far as a check goes by it.
#[derive(Debug)]
pub struct ViewFacts {
    pub canonical_path: String,
    /// The canonical path with its links resolved.
    pub canonical_comparable: String,
    pub origin_url: String,
}

/// A recorded relationship, and what Git tells of its two sides. A fact that
/// could not be read is the text that says why.
#[derive(Debug)]
pub struct LinkFacts {
    pub relationship: String,
    pub dependent_locator: Locator,
    pub dependent_path: String,
    pub controlling_path: String,
    /// The canonical path with its links resolved.
    pub controlling_comparable: String,
    /// The URL of the canonical repository's origin.
    pub controlling_origin: Result<Option<String>, String>,
    /// The view metadata of the fork or mirror.
    pub view: Result<Option<ViewFacts>, String>,
    pub dependent_bare: Result<bool, String>,
    pub controlling_bare: Result<bool, String>,
    /// The URL that the canonical repository has for the fork or mirror.
    pub remote: Result<Option<String>, String>,
    pub dependent_common_dir: Result<String, String>,
    pub controlling_common_dir: Result<String, String>,
    /// What `refs/remotes/<remote>/HEAD` of the canonical repository points at.
    pub remote_head: Result<Option<String>, String>,
    /// The current branch of the fork or mirror, read for its default branch.
    pub default_source: Result<String, String>,
    /// The current branch of the fork or mirror.
    pub current_branch: Result<String, String>,
    /// The upstream of that branch.
    pub upstream: Result<Option<String>, String>,
}

/// The branch that a remote's HEAD names.
pub open spec fn head_branch(head: Option<Seq<char>>, remote: Seq<char>) -> Option<Seq<char>> {
    match head {
        None => None,
        Some(text) => match after_prefix(trim_text(text), remote + "/"@) {
            Some(branch) => if branch.len() > 0 {
                Some(branch)
            } else {
                None
            },
            None => None,
        },
    }
}

pub fn remote_default_branch(head: &Option<String>, remote: &str) -> (r: Option<String>)
    ensures
        opt_view(r) == head_branch(opt_view(*head), remote@),
{
    match head {
        None => None,
        Some(text) => {
            let mut prefix = remote.to_owned();
            prefix.append("/");
            match strip_prefix(&trim(text), &prefix) {
                Some(branch) => if !branch.as_str().is_empty() {
                    Some(branch)
                } else {
                    None
                },
                None => None,
            }
        },
    }
}

/// What stands behind the last slash of a branch.
pub open spec fn branch_leaf(branch: Seq<char>) -> Seq<char> {
    match split_last(branch, '/') {
        Some((_, leaf)) => leaf,
        None => branch,
    }
}

/// The default branch of a fork or mirror: the one that the HEAD of its remote
/// names, or the leaf of its current branch.
pub open spec fn default_branch(
    head: Option<Seq<char>>,
    remote: Seq<char>,
    current: Result<Seq<char>, Seq<char>>,
    dependent_path: Seq<char>,
) -> Result<Seq<char>, Seq<char>> {
    match head_branch(head, remote) {
        Some(branch) => Ok(branch),
        None => match current {
            Err(text) => Err(text),
            Ok(current) => if branch_leaf(trim_text(current)).len() > 0 {
                Ok(branch_leaf(trim_text(current)))
            } else {
                Err("could not determine managed default branch for "@ + dependent_path)
            },
        },
    }
}

pub open spec fn text_result(r: Result<String, String>) -> Result<Seq<char>, Seq<char>> {
    match r {
        Ok(x) => Ok(x@),
        Err(x) => Err(x@),
    }
}

pub fn shared_dependent_default_branch(
    head: &Option<String>,
    remote: &str,
    current: &Result<String, String>,
    dependent_path: &str,
) -> (r: Result<String, String>)
    ensures
        text_result(r) == default_branch(
            opt_view(*head),
            remote@,
            text_result(*current),
            dependent_path@,
        ),
{
    if let Some(branch) = remote_default_branch(head, remote) {
        return Ok(branch);
    }
    match current {
        Err(text) => Err(text.clone()),
        Ok(current) => {
            let t = trim(current);
            let leaf = match rsplit_once(&t, '/') {
                Some((_, leaf)) => leaf,
                None => t,
            };
            if leaf.as_str().is_empty() {
                let mut text = "could not determine managed default branch for ".to_owned();
                text.append(dependent_path);
                Err(text)
            } else {
                Ok(leaf)
            }
        },
    }
}

/// What is wrong with a namespace view.
pub open spec fn view_reasons(facts: LinkFacts, view: ViewFacts, url: Seq<char>) -> Seq<Seq<char>> {
    let a = if path_eq(view.canonical_comparable@, facts.controlling_comparable@) {
        seq![]
    } else {
        seq![
            facts.relationship@ + " view points at canonical "@ + view.canonical_path@
                + ", expected "@ + facts.controlling_path@,
        ]
    };
    if view.origin_url@ == url {
        a
    } else {
        a.push(
            facts.relationship@ + " view origin is "@ + view.origin_url@ + ", expected "@ + url,
        )
    }
}

/// What is wrong where repositories are to be bare.
pub open spec fn bare_reasons(facts: LinkFacts, url: Seq<char>) -> Result<
    Seq<Seq<char>>,
    Seq<char>,
> {
    match facts.view {
        Err(text) => Err(text@),
        Ok(Some(view)) => Ok(view_reasons(facts, view, url)),
        Ok(None) => match (facts.dependent_bare, facts.controlling_bare) {
            (Err(text), _) => Err(text@),
            (Ok(_), Err(text)) => Err(text@),
            (Ok(dependent), Ok(controlling)) => {
                let a = seq![
                    facts.relationship@ + " checkout is not a repo-manager namespace view: "@
                        + facts.dependent_path@,
                ];
                let b = if controlling {
                    a
                } else {
                    a.push(
                        "canonical checkout is non-bare but clone-as-bare is enabled: "@
                            + facts.controlling_path@,
                    )
                };
                Ok(
                    if dependent {
                        b
                    } else {
                        b.push(
                            facts.relationship@
                                + " checkout is non-bare but clone-as-bare is enabled: "@
                                + facts.dependent_path@,
                        )
                    },
                )
            },
        },
    }
}

/// What is wrong with the remote that the canonical repository has.
pub open spec fn remote_reasons(
    relationship: Seq<char>,
    remote: Seq<char>,
    current: Option<Seq<char>>,
    url: Seq<char>,
) -> Seq<Seq<char>> {
    match current {
        Some(text) => if text == url {
            seq![]
        } else {
            seq![
                "canonical checkout remote for "@ + relationship + " `"@ + remote + "` points at "@
                    + text + ", expected "@ + url,
            ]
        },
        None => seq![
            "canonical checkout is missing "@ + relationship + " remote `"@ + remote + "` -> "@
                + url,
        ],
    }
}

pub open spec fn common_dir_reasons(
    relationship: Seq<char>,
    dependent: Seq<char>,
    controlling: Seq<char>,
) -> Seq<Seq<char>> {
    if path_eq(dependent, controlling) {
        seq![]
    } else {
        seq![
            relationship + " does not use canonical Git directory; "@ + relationship + " uses "@
                + dependent + ", canonical uses "@ + controlling,
        ]
    }
}

pub open spec fn branch_reasons(
    relationship: Seq<char>,
    current: Seq<char>,
    expected: Seq<char>,
) -> Seq<Seq<char>> {
    if current == expected {
        seq![]
    } else {
        seq![
            relationship + " checkout is on branch `"@ + current + "`, expected `"@ + expected
                + "`"@,
        ]
    }
}

pub open spec fn upstream_reasons(
    relationship: Seq<char>,
    upstream: Option<Seq<char>>,
    expected: Seq<char>,
) -> Seq<Seq<char>> {
    match upstream {
        Some(text) => if trim_text(text) == expected {
            seq![]
        } else {
            seq![
                relationship + " branch upstream is `"@ + trim_text(text) + "`, expected `"@
                    + expected + "`"@,
            ]
        },
        None => seq![relationship + " branch has no upstream, expected `"@ + expected + "`"@],
    }
}

/// What is wrong where the fork or mirror is a worktree of its canonical
/// repository.
pub open spec fn worktree_reasons(facts: LinkFacts, url: Seq<char>) -> Result<
    Seq<Seq<char>>,
    Seq<char>,
> {
    let relationship = facts.relationship@;
    let remote = remote_name(relationship, facts.dependent_locator@);
    match (facts.remote, facts.dependent_common_dir, facts.controlling_common_dir, facts.remote_head)
    {
        (Err(text), _, _, _) => Err(text@),
        (Ok(_), Err(text), _, _) => Err(text@),
        (Ok(_), Ok(_), Err(text), _) => Err(text@),
        (Ok(_), Ok(_), Ok(_), Err(text)) => Err(text@),
        (Ok(current), Ok(dependent), Ok(controlling), Ok(head)) => {
            match default_branch(
                opt_view(head),
                remote,
                text_result(facts.default_source),
                facts.dependent_path@,
            ) {
                Err(text) => Err(text),
                Ok(branch) => match (facts.current_branch, facts.upstream) {
                    (Err(text), _) => Err(text@),
                    (Ok(_), Err(text)) => Err(text@),
                    (Ok(on), Ok(upstream)) => Ok(
                        remote_reasons(relationship, remote, opt_view(current), url)
                            + common_dir_reasons(relationship, dependent@, controlling@)
                            + branch_reasons(
                            relationship,
                            trim_text(on@),
                            local_branch(relationship, facts.dependent_locator@, branch),
                        ) + upstream_reasons(
                            relationship,
                            opt_view(upstream),
                            remote + "/"@ + branch,
                        ),
                    ),
                },
            }
        },
    }
}

/// All that is wrong with a relationship, or why that cannot be told.
pub open spec fn link_reasons(facts: LinkFacts, clone_as_bare: bool) -> Result<
    Seq<Seq<char>>,
    Seq<char>,
> {
    match facts.controlling_origin {
        Err(text) => Err(text@),
        Ok(origin) => {
            let url = remote_url(opt_view(origin), facts.dependent_locator@);
            if clone_as_bare {
                bare_reasons(facts, url)
            } else {
                worktree_reasons(facts, url)
            }
        },
    }
}

pub open spec fn texts_result(r: Result<Vec<String>, String>) -> Result<Seq<Seq<char>>, Seq<char>> {
    match r {
        Ok(x) => Ok(views(x@)),
        Err(x) => Err(x@),
    }
}

fn check_view(facts: &LinkFacts, view: &ViewFacts, url: &str) -> (r: Vec<String>)
    ensures
        views(r@) == view_reasons(*facts, *view, url@),
{
    broadcast use crate::text::lemma_views_push;

    let mut r: Vec<String> = Vec::new();
    proof {
        assert(views(r@) =~= seq![]);
    }
    if !same_path(&view.canonical_comparable, &facts.controlling_comparable) {
        let mut text = facts.relationship.clone();
        text.append(" view points at canonical ");
        text.append(&view.canonical_path);
        text.append(", expected ");
        text.append(&facts.controlling_path);
        r.push(text);
        proof {
            assert(views(r@) =~= seq![text@]);
        }
    }
    if !view.origin_url.as_str().eq(url) {
        let mut text = facts.relationship.clone();
        text.append(" view origin is ");
        text.append(&view.origin_url);
        text.append(", expected ");
        text.append(url);
        r.push(text);
    }
    r
}

/// What is wrong where repositories are to be bare and the fork or mirror is to
/// have the URL `url`.
pub fn bare_repair_reasons(facts: &LinkFacts, url: &str) -> (r: Result<Vec<String>, String>)
    ensures
        texts_result(r) == bare_reasons(*facts, url@),
{
    broadcast use crate::text::lemma_views_push;

    match &facts.view {
        Err(text) => return Err(text.clone()),
        Ok(Some(view)) => return Ok(check_view(facts, view, url)),
        Ok(None) => {},
    }
    let dependent = match &facts.dependent_bare {
        Err(text) => return Err(text.clone()),
        Ok(bare) => *bare,
    };
    let controlling = match &facts.controlling_bare {
        Err(text) => return Err(text.clone()),
        Ok(bare) => *bare,
    };
    let mut text = facts.relationship.clone();
    text.append(" checkout is not a repo-manager namespace view: ");
    text.append(&facts.dependent_path);
    let mut r = crate::text::one_text(text);
    if !controlling {
        let mut text = "canonical checkout is non-bare but clone-as-bare is enabled: ".to_owned();
        text.append(&facts.controlling_path);
        r.push(text);
    }
    if !dependent {
        let mut text = facts.relationship.clone();
        text.append(" checkout is non-bare but clone-as-bare is enabled: ");
        text.append(&facts.dependent_path);
        r.push(text);
    }
    Ok(r)
}

fn no_texts() -> (r: Vec<String>)
    ensures
        views(r@) == Seq::<Seq<char>>::empty(),
{
    let r: Vec<String> = Vec::new();
    proof {
        assert(views(r@) =~= seq![]);
    }
    r
}

fn check_remote(relationship: &str, remote: &str, current: &Option<String>, url: &str) -> (r: Vec<
    String,
>)
    ensures
        views(r@) == remote_reasons(relationship@, remote@, opt_view(*current), url@),
{
    match current {
        Some(current) => {
            if current.as_str().eq(url) {
                return no_texts();
            }
            let mut text = "canonical checkout remote for ".to_owned();
            text.append(relationship);
            text.append(" `");
            text.append(remote);
            text.append("` points at ");
            text.append(current);
            text.append(", expected ");
            text.append(url);
            crate::text::one_text(text)
        },
        None => {
            let mut text = "canonical checkout is missing ".to_owned();
            text.append(relationship);
            text.append(" remote `");
            text.append(remote);
            text.append("` -> ");
            text.append(url);
            crate::text::one_text(text)
        },
    }
}

fn check_common_dir(relationship: &str, dependent: &str, controlling: &str) -> (r: Vec<String>)
    ensures
        views(r@) == common_dir_reasons(relationship@, dependent@, controlling@),
{
    if same_path(dependent, controlling) {
        return no_texts();
    }
    let mut text = relationship.to_owned();
    text.append(" does not use canonical Git directory; ");
    text.append(relationship);
    text.append(" uses ");
    text.append(dependent);
    text.append(", canonical uses ");
    text.append(controlling);
    crate::text::one_text(text)
}

fn check_branch(relationship: &str, current: &str, expected: &str) -> (r: Vec<String>)
    ensures
        views(r@) == branch_reasons(relationship@, current@, expected@),
{
    if current.eq(expected) {
        return no_texts();
    }
    let mut text = relationship.to_owned();
    text.append(" checkout is on branch `");
    text.append(current);
    text.append("`, expected `");
    text.append(expected);
    text.append("`");
    crate::text::one_text(text)
}

fn check_upstream(relationship: &str, upstream: &Option<String>, expected: &str) -> (r: Vec<String>)
    ensures
        views(r@) == upstream_reasons(relationship@, opt_view(*upstream), expected@),
{
    match upstream {
        Some(upstream) => {
            let t = trim(upstream);
            if t.as_str().eq(expected) {
                return no_texts();
            }
            let mut text = relationship.to_owned();
            text.append(" branch upstream is `");
            text.append(&t);
            text.append("`, expected `");
            text.append(expected);
            text.append("`");
            crate::text::one_text(text)
        },
        None => {
            let mut text = relationship.to_owned();
            text.append(" branch has no upstream, expected `");
            text.append(expected);
            text.append("`");
            crate::text::one_text(text)
        },
    }
}

/// `a` with the items of `b` behind its own.
fn concat_texts(a: Vec<String>, b: Vec<String>) -> (r: Vec<String>)
    ensures
        views(r@) == views(a@) + views(b@),
{
    let mut r = a;
    let mut b = b;
    let ghost all = views(r@) + views(b@);
    r.append(&mut b);
    proof {
        assert(views(r@) =~= all);
    }
    r
}

/// What is wrong where the fork or mirror is to be a worktree of its canonical
/// repository and to have the URL `url`.
pub fn worktree_repair_reasons(facts: &LinkFacts, url: &str) -> (r: Result<Vec<String>, String>)
    ensures
        texts_result(r) == worktree_reasons(*facts, url@),
{
    let relationship = facts.relationship.as_str();
    let remote = related_remote_name(relationship, &facts.dependent_locator);
    let current = match &facts.remote {
        Err(text) => return Err(text.clone()),
        Ok(current) => current,
    };
    let dependent = match &facts.dependent_common_dir {
        Err(text) => return Err(text.clone()),
        Ok(dir) => dir,
    };
    let controlling = match &facts.controlling_common_dir {
        Err(text) => return Err(text.clone()),
        Ok(dir) => dir,
    };
    let head = match &facts.remote_head {
        Err(text) => return Err(text.clone()),
        Ok(head) => head,
    };
    let branch = match shared_dependent_default_branch(
        head,
        &remote,
        &facts.default_source,
        &facts.dependent_path,
    ) {
        Err(text) => return Err(text),
        Ok(branch) => branch,
    };
    let on = match &facts.current_branch {
        Err(text) => return Err(text.clone()),
        Ok(on) => on,
    };
    let upstream = match &facts.upstream {
        Err(text) => return Err(text.clone()),
        Ok(upstream) => upstream,
    };
    let local = dependent_local_branch(relationship, &facts.dependent_locator, &branch);
    let mut remote_branch = remote.clone();
    remote_branch.append("/");
    remote_branch.append(&branch);
    let a = check_remote(relationship, &remote, current, url);
    let b = check_common_dir(relationship, dependent, controlling);
    let c = check_branch(relationship, &trim(on), &local);
    let d = check_upstream(relationship, upstream, &remote_branch);
    Ok(concat_texts(concat_texts(concat_texts(a, b), c), d))
}

pub fn shared_git_dir_relationship_repair_reasons(facts: &LinkFacts, clone_as_bare: bool) -> (r:
    Result<Vec<String>, String>)
    ensures
        texts_result(r) == link_reasons(*facts, clone_as_bare),
{
    let origin = match &facts.controlling_origin {
        Err(text) => return Err(text.clone()),
        Ok(origin) => origin,
    };
    let existing = match origin {
        Some(url) => Some(url.as_str()),
        None => None,
    };
    let url = remote_url_for_locator(existing, &facts.dependent_locator);
    if clone_as_bare {
        bare_repair_reasons(facts, &url)
    } else {
        worktree_repair_reasons(facts, &url)
    }
}

} // verus!
