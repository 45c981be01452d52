//! What holds of every check of a fork or mirror relationship.
use crate::naming::{local_branch, remote_name, remote_url};
use crate::paths::components;
use crate::relation_check::{default_branch, head_branch, link_reasons, LinkFacts};
use crate::text::{find_back, lemma_find_back, opt_view, trim_text};
use vstd::prelude::*;

verus! {

/// A fork or mirror whose facts can all be read, and whose default branch is
/// `branch`.
pub open spec fn readable(facts: LinkFacts, branch: Seq<char>) -> bool {
    &&& facts.controlling_origin is Ok
    &&& facts.remote is Ok
    &&& facts.dependent_common_dir is Ok
    &&& facts.controlling_common_dir is Ok
    &&& facts.remote_head is Ok
    &&& facts.current_branch is Ok
    &&& facts.upstream is Ok
    &&& default_branch(
        opt_view(facts.remote_head->Ok_0),
        remote_name(facts.relationship@, facts.dependent_locator@),
        match facts.default_source {
            Ok(text) => Ok(text@),
            Err(text) => Err(text@),
        },
        facts.dependent_path@,
    ) == Ok::<Seq<char>, Seq<char>>(branch)
}

pub open spec fn one_if(b: bool) -> int {
    if b {
        1
    } else {
        0
    }
}

/// A worktree of a canonical repository is sound exactly when the canonical
/// repository has the right URL for it, both use one Git directory, it is on its own
/// branch, and that branch follows the branch of its remote. Each of these that fails
/// gives one reason, in that order, and nothing else gives one.
pub proof fn unsound_worktrees_are_found(facts: LinkFacts, branch: Seq<char>)
    requires
        readable(facts, branch),
    ensures
        link_reasons(facts, false) matches Ok(reasons) && {
            let relationship = facts.relationship@;
            let locator = facts.dependent_locator@;
            let remote = remote_name(relationship, locator);
            let url = remote_url(opt_view(facts.controlling_origin->Ok_0), locator);
            let wrong_url = opt_view(facts.remote->Ok_0) != Some(url);
            let apart = components(facts.dependent_common_dir->Ok_0@) != components(
                facts.controlling_common_dir->Ok_0@,
            );
            let elsewhere = trim_text(facts.current_branch->Ok_0@) != local_branch(
                relationship,
                locator,
                branch,
            );
            let astray = match facts.upstream->Ok_0 {
                Some(upstream) => trim_text(upstream@) != remote + "/"@ + branch,
                None => true,
            };
            &&& reasons.len() == one_if(wrong_url) + one_if(apart) + one_if(elsewhere) + one_if(
                astray,
            )
            &&& reasons.len() == 0 <==> !wrong_url && !apart && !elsewhere && !astray
            &&& wrong_url ==> reasons[0] == (match facts.remote->Ok_0 {
                Some(text) => "canonical checkout remote for "@ + relationship + " `"@ + remote
                    + "` points at "@ + text@ + ", expected "@ + url,
                None => "canonical checkout is missing "@ + relationship + " remote `"@ + remote
                    + "` -> "@ + url,
            })
            &&& apart ==> reasons[one_if(wrong_url)] == relationship
                + " does not use canonical Git directory; "@ + relationship + " uses "@
                + facts.dependent_common_dir->Ok_0@ + ", canonical uses "@
                + facts.controlling_common_dir->Ok_0@
            &&& elsewhere ==> reasons[one_if(wrong_url) + one_if(apart)] == relationship
                + " checkout is on branch `"@ + trim_text(facts.current_branch->Ok_0@)
                + "`, expected `"@ + local_branch(relationship, locator, branch) + "`"@
            &&& astray ==> reasons.last() == (match facts.upstream->Ok_0 {
                Some(upstream) => relationship + " branch upstream is `"@ + trim_text(upstream@)
                    + "`, expected `"@ + remote + "/"@ + branch + "`"@,
                None => relationship + " branch has no upstream, expected `"@ + remote + "/"@
                    + branch + "`"@,
            })
        },
{
    let relationship = facts.relationship@;
    let remote = remote_name(relationship, facts.dependent_locator@);
    assert(facts.upstream->Ok_0 matches Some(upstream) ==> relationship + " branch upstream is `"@
        + trim_text(upstream@) + "`, expected `"@ + (remote + "/"@ + branch) + "`"@ =~= relationship
        + " branch upstream is `"@ + trim_text(upstream@) + "`, expected `"@ + remote + "/"@ + branch
        + "`"@);
    assert(relationship + " branch has no upstream, expected `"@ + (remote + "/"@ + branch) + "`"@
        =~= relationship + " branch has no upstream, expected `"@ + remote + "/"@ + branch + "`"@);
}

/// A check of a worktree fails exactly when a fact that it needs cannot be read, with
/// the text of the first such fact, or when no default branch can be told.
pub proof fn unreadable_worktrees_are_not_judged(facts: LinkFacts)
    ensures
        ({
            let told = link_reasons(facts, false);
            let source = match facts.default_source {
                Ok(text) => Ok::<Seq<char>, Seq<char>>(text@),
                Err(text) => Err(text@),
            };
            let remote = remote_name(facts.relationship@, facts.dependent_locator@);
            &&& told is Ok <==> exists|branch: Seq<char>| readable(facts, branch)
            &&& facts.controlling_origin matches Err(text) ==> told == Err::<
                Seq<Seq<char>>,
                Seq<char>,
            >(text@)
            &&& facts.controlling_origin is Ok && facts.remote is Err ==> told == Err::<
                Seq<Seq<char>>,
                Seq<char>,
            >(facts.remote->Err_0@)
            &&& facts.controlling_origin is Ok && facts.remote is Ok
                && facts.dependent_common_dir is Err ==> told == Err::<Seq<Seq<char>>, Seq<char>>(
                facts.dependent_common_dir->Err_0@,
            )
            &&& facts.controlling_origin is Ok && facts.remote is Ok
                && facts.dependent_common_dir is Ok && facts.controlling_common_dir is Err ==> told
                == Err::<Seq<Seq<char>>, Seq<char>>(facts.controlling_common_dir->Err_0@)
        }),
{
    if let Ok(head) = facts.remote_head {
        let source = match facts.default_source {
            Ok(text) => Ok::<Seq<char>, Seq<char>>(text@),
            Err(text) => Err(text@),
        };
        let remote = remote_name(facts.relationship@, facts.dependent_locator@);
        let told = default_branch(opt_view(head), remote, source, facts.dependent_path@);
        if link_reasons(facts, false) is Ok {
            assert(readable(facts, told->Ok_0));
        }
    }
}

/// Where repositories are to be bare, a fork or mirror is sound exactly when it is a
/// view that stands for the canonical repository and for its own URL. One that is no
/// view is never sound.
pub proof fn unsound_views_are_found(facts: LinkFacts)
    requires
        facts.controlling_origin is Ok,
        facts.view is Ok,
        facts.view->Ok_0 is None ==> facts.dependent_bare is Ok && facts.controlling_bare is Ok,
    ensures
        link_reasons(facts, true) matches Ok(reasons) && {
            let relationship = facts.relationship@;
            let url = remote_url(
                opt_view(facts.controlling_origin->Ok_0),
                facts.dependent_locator@,
            );
            match facts.view->Ok_0 {
                Some(view) => {
                    let elsewhere = components(view.canonical_comparable@) != components(
                        facts.controlling_comparable@,
                    );
                    let wrong_url = view.origin_url@ != url;
                    &&& reasons.len() == one_if(elsewhere) + one_if(wrong_url)
                    &&& elsewhere ==> reasons[0] == relationship + " view points at canonical "@
                        + view.canonical_path@ + ", expected "@ + facts.controlling_path@
                    &&& wrong_url ==> reasons.last() == relationship + " view origin is "@
                        + view.origin_url@ + ", expected "@ + url
                },
                None => {
                    let canonical = !facts.controlling_bare->Ok_0;
                    let dependent = !facts.dependent_bare->Ok_0;
                    &&& reasons.len() == 1 + one_if(canonical) + one_if(dependent)
                    &&& reasons[0] == relationship
                        + " checkout is not a repo-manager namespace view: "@
                        + facts.dependent_path@
                    &&& canonical ==> reasons[1]
                        == "canonical checkout is non-bare but clone-as-bare is enabled: "@
                        + facts.controlling_path@
                    &&& dependent ==> reasons.last() == relationship
                        + " checkout is non-bare but clone-as-bare is enabled: "@
                        + facts.dependent_path@
                },
            }
        },
{
}

/// The default branch is the one that the remote's HEAD names, whatever the checkout
/// is on.
pub proof fn heads_name_the_default_branch(
    remote: Seq<char>,
    branch: Seq<char>,
    current: Result<Seq<char>, Seq<char>>,
    path: Seq<char>,
)
    requires
        branch.len() > 0,
        trim_text(remote + "/"@ + branch) == remote + "/"@ + branch,
    ensures
        head_branch(Some(remote + "/"@ + branch), remote) == Some(branch),
        default_branch(Some(remote + "/"@ + branch), remote, current, path) == Ok::<
            Seq<char>,
            Seq<char>,
        >(branch),
{
    let head = remote + "/"@ + branch;
    let prefix = remote + "/"@;
    assert(head.subrange(0, prefix.len() as int) =~= prefix);
    assert(head.subrange(prefix.len() as int, head.len() as int) =~= branch);
}

/// Without a HEAD it is what stands behind the last slash of the branch that the
/// checkout is on; where that is nothing there is no default branch.
pub proof fn checkouts_name_the_default_branch(
    remote: Seq<char>,
    before: Seq<char>,
    leaf: Seq<char>,
    path: Seq<char>,
)
    requires
        !leaf.contains('/'),
        trim_text(before + "/"@ + leaf) == before + "/"@ + leaf,
    ensures
        default_branch(None, remote, Ok(before + "/"@ + leaf), path) == if leaf.len() > 0 {
            Ok::<Seq<char>, Seq<char>>(leaf)
        } else {
            Err("could not determine managed default branch for "@ + path)
        },
{
    reveal_strlit("/");
    let text = before + "/"@ + leaf;
    let n = text.len() as int;
    lemma_find_back(text, '/', n);
    let at = before.len() as int;
    assert(text[at] == '/');
    let i = find_back(text, '/', n);
    if i > at {
        assert(text[i] == leaf[i - at - 1]);
        assert(leaf.contains(leaf[i - at - 1]));
    }
    assert(i == at);
    assert(text.subrange(at + 1, n) =~= leaf);
}

} // verus!
