//! What holds of every command that is run in a repository.
use crate::context::{
    context_for, editor_words, managed_rows, managed_slot, repo_at, resolution_start, suggestion_at,
    ContextFacts, ContextView, ManagedWorktreeView,
};
use crate::locator::{parsed_locator, parsed_url};
use crate::parent_laws::{lemma_answering, some_answers};
use crate::registry::{answers_to, with_id, RegistryView, RepoView, WorktreeView};
use crate::registry_lists::{is_there, lemma_with_id};
use crate::registry_relations::{suggestions, SuggestionView};
use crate::text::{lemma_less_from_total, lemma_less_from_trans, text_less, trim_text, words};
use vstd::prelude::*;

verus! {

/// A repository is at the path.
pub open spec fn some_at(repos: Seq<RepoView>, path: Seq<char>) -> bool {
    exists|k: int| 0 <= k < repos.len() && (#[trigger] repos[k]).path == path
}

proof fn lemma_at(repos: Seq<RepoView>, path: Seq<char>, i: int)
    requires
        0 <= i,
    ensures
        ({
            let k = repo_at(repos, path, i);
            &&& k == -1 || (i <= k < repos.len() && repos[k].path == path)
            &&& k == -1 ==> forall|j: int| i <= j < repos.len() ==> (#[trigger] repos[j]).path != path
        }),
    decreases repos.len() - i,
{
    if i < repos.len() && repos[i].path != path {
        lemma_at(repos, path, i + 1);
    }
}

/// The directory is a managed repository of the registry.
pub open spec fn is_managed(view: RegistryView, context: ContextView, path: Seq<char>) -> bool {
    exists|k: int|
        0 <= k < view.repos.len() && context is Managed && context->Managed_0.id == (
        #[trigger] view.repos[k]).id && context->Managed_0.current == view.repos[k].current
            && context->Managed_0.path == path
}

/// A directory that is a view counts as that view. Any other counts as the managed
/// repository that is there; below the root of all clones also as one that answers to
/// its origin, at its own place; and otherwise as nothing.
pub proof fn directories_are_what_is_there(view: RegistryView, facts: ContextFacts)
    ensures
        ({
            let context = context_for(view, facts);
            let key = facts.origin->0@.authority + "/"@ + facts.origin->0@.remote_path;
            let read = parsed_locator(key, parsed_url(trim_text(key)));
            let answered = facts.under_clone_root && facts.origin is Some && read is Ok
                && some_answers(view, read->Ok_0);
            &&& facts.view is Some ==> context == Ok::<ContextView, Seq<char>>(
                ContextView::View(facts.view->0@),
            )
            &&& facts.view is None ==> (context is Ok <==> some_at(view.repos, facts.dir@)
                || answered)
            &&& facts.view is None && context is Ok ==> is_managed(
                view,
                context->Ok_0,
                facts.dir@,
            )
        }),
{
    lemma_at(view.repos, facts.dir@, 0);
    let at = repo_at(view.repos, facts.dir@, 0);
    if at >= 0 {
        assert(view.repos[at].path == facts.dir@);
    }
    if facts.origin is Some {
        let key = facts.origin->0@.key();
        let read = parsed_locator(key, parsed_url(trim_text(key)));
        if read is Ok {
            lemma_answering(view, read->Ok_0, 0);
            let i = crate::registry::first_answering(view, read->Ok_0, 0);
            if i >= 0 {
                assert(answers_to(view, view.repos[i], read->Ok_0));
            }
        }
    }
}

proof fn lemma_suggestion(list: Seq<SuggestionView>, id: i64, i: int)
    requires
        0 <= i,
    ensures
        ({
            let k = suggestion_at(list, id, i);
            &&& k == -1 || (i <= k < list.len() && list[k].id == id)
            &&& k == -1 ==> forall|j: int| i <= j < list.len() ==> (#[trigger] list[j]).id != id
            &&& forall|j: int| i <= j < k ==> (#[trigger] list[j]).id != id
        }),
    decreases list.len() - i,
{
    if i < list.len() && list[i].id != id {
        lemma_suggestion(list, id, i + 1);
    }
}

/// A suggestion that is to be resolved as a fork or mirror is looked up by its number,
/// and has to be there and open. Other kinds change no Git directory, and what is no
/// kind is refused.
pub proof fn open_suggestions_can_be_resolved(view: RegistryView, id: i64, kind: Seq<char>, k: int)
    requires
        ({
            let list = suggestions(view.repos, view.related, false);
            &&& 0 <= k <= list.len()
            &&& k < list.len() ==> list[k].id == id
            &&& forall|j: int| 0 <= j < k ==> (#[trigger] list[j]).id != id
        }),
    ensures
        ({
            let list = suggestions(view.repos, view.related, false);
            let start = resolution_start(view, id, kind);
            let shares = kind == "fork"@ || kind == "mirror"@;
            let other = kind == "canonical"@ || kind == "moved"@ || kind == "successor"@ || kind
                == "unrelated"@;
            &&& start is Ok ==> shares || other
            &&& shares ==> (start is Ok <==> k < list.len() && list[k].resolution is None)
            &&& shares && start is Ok ==> start->Ok_0 == Some(list[k])
            &&& other && !shares ==> start is Ok && start->Ok_0 is None
        }),
{
    let list = suggestions(view.repos, view.related, false);
    lemma_suggestion(list, id, 0);
}

/// The editor is what the first of the two variables that is set says, and `vi` where
/// that says nothing.
pub proof fn the_visual_editor_comes_first(
    visual: Option<Seq<char>>,
    editor: Option<Seq<char>>,
)
    ensures
        visual is Some && words(visual->0).len() > 0 ==> editor_words(visual, editor) == words(
            visual->0,
        ),
        visual is None && editor is Some && words(editor->0).len() > 0 ==> editor_words(
            visual,
            editor,
        ) == words(editor->0),
        visual is Some && words(visual->0).len() == 0 ==> editor_words(visual, editor) == seq![
            "vi"@,
        ],
        visual is None && editor is Some && words(editor->0).len() == 0 ==> editor_words(
            visual,
            editor,
        ) == seq!["vi"@],
{
}

/// A worktree is listed as its row tells it, with the locator of its repository.
pub open spec fn lists(repos: Seq<RepoView>, row: WorktreeView, listed: ManagedWorktreeView) -> bool {
    &&& listed.repo_id == row.repo_id
    &&& listed.path == row.path
    &&& listed.name == row.name
    &&& listed.refs_prefix == row.refs_prefix
    &&& exists|k: int|
        0 <= k < repos.len() && (#[trigger] repos[k]).id == row.repo_id && repos[k].current
            == listed.repo_locator
}

pub open spec fn some_lists(
    repos: Seq<RepoView>,
    row: WorktreeView,
    list: Seq<ManagedWorktreeView>,
) -> bool {
    exists|j: int| 0 <= j < list.len() && lists(repos, row, #[trigger] list[j])
}

pub open spec fn listed_of_some(
    repos: Seq<RepoView>,
    rows: Seq<WorktreeView>,
    listed: ManagedWorktreeView,
) -> bool {
    exists|i: int| 0 <= i < rows.len() && lists(repos, #[trigger] rows[i], listed)
}

pub open spec fn worktrees_in_order(list: Seq<ManagedWorktreeView>) -> bool {
    forall|i: int, j: int|
        0 <= i < j < list.len() ==> !text_less((#[trigger] list[j]).path, (#[trigger] list[i]).path)
}

proof fn lemma_managed_slot(list: Seq<ManagedWorktreeView>, path: Seq<char>, i: int)
    requires
        0 <= i <= list.len(),
    ensures
        i <= managed_slot(list, path, i) <= list.len(),
        forall|k: int|
            i <= k < managed_slot(list, path, i) ==> !text_less(path, (#[trigger] list[k]).path),
        managed_slot(list, path, i) < list.len() ==> text_less(
            path,
            list[managed_slot(list, path, i)].path,
        ),
    decreases list.len() - i,
{
    if i < list.len() && !text_less(path, list[i].path) {
        lemma_managed_slot(list, path, i + 1);
    }
}

/// The worktrees of repositories that are there are listed, and no others, in the order
/// of their paths.
pub proof fn worktrees_are_listed_by_path(repos: Seq<RepoView>, rows: Seq<WorktreeView>)
    ensures
        ({
            let list = managed_rows(repos, rows);
            &&& list.len() <= rows.len()
            &&& worktrees_in_order(list)
            &&& forall|i: int|
                0 <= i < rows.len() && is_there(repos, (#[trigger] rows[i]).repo_id) ==> some_lists(
                    repos,
                    rows[i],
                    list,
                )
            &&& forall|j: int|
                0 <= j < list.len() ==> listed_of_some(repos, rows, #[trigger] list[j])
        }),
    decreases rows.len(),
{
    if rows.len() > 0 {
        let rest = rows.drop_last();
        let row = rows.last();
        let before = managed_rows(repos, rest);
        let list = managed_rows(repos, rows);
        worktrees_are_listed_by_path(repos, rest);
        lemma_with_id(repos, row.repo_id, 0);
        let at = with_id(repos, row.repo_id, 0);
        let there = is_there(repos, row.repo_id);
        let k = managed_slot(before, row.path, 0);
        lemma_managed_slot(before, row.path, 0);
        assert(rows[rows.len() - 1] == row);
        if there {
            assert(repos[at].id == row.repo_id);
            assert(lists(repos, row, list[k]));
            assert forall|i: int, j: int| 0 <= i < j < list.len() implies !text_less(
                (#[trigger] list[j]).path,
                (#[trigger] list[i]).path,
            ) by {
                if j == k {
                    assert(list[i] == before[i]);
                } else if i == k {
                    assert(list[j] == before[j - 1]);
                    lemma_less_from_total(row.path, before[k].path, 0);
                    lemma_less_from_total(before[k].path, before[j - 1].path, 0);
                    lemma_less_from_total(row.path, before[j - 1].path, 0);
                    if text_less(before[k].path, before[j - 1].path) {
                        lemma_less_from_trans(row.path, before[k].path, before[j - 1].path, 0);
                    }
                } else {
                    assert(list[i] == before[if i < k {
                        i
                    } else {
                        i - 1
                    }]);
                    assert(list[j] == before[if j < k {
                        j
                    } else {
                        j - 1
                    }]);
                }
            }
        } else {
            assert(list == before);
        }
        assert forall|i: int|
            0 <= i < rows.len() && is_there(repos, (#[trigger] rows[i]).repo_id) implies some_lists(
            repos,
            rows[i],
            list,
        ) by {
            if i < rest.len() {
                assert(rest[i] == rows[i]);
                let j = choose|j: int|
                    0 <= j < before.len() && lists(repos, rest[i], #[trigger] before[j]);
                if there {
                    assert(list[if j < k {
                        j
                    } else {
                        j + 1
                    }] == before[j]);
                }
            }
        }
        assert forall|j: int| 0 <= j < list.len() implies listed_of_some(
            repos,
            rows,
            #[trigger] list[j],
        ) by {
            if there && j == k {
            } else {
                let m = if there && j > k {
                    j - 1
                } else {
                    j
                };
                assert(list[j] == before[m]);
                let i = choose|i: int| 0 <= i < rest.len() && lists(repos, #[trigger] rest[i], before[m]);
                assert(rows[i] == rest[i]);
            }
        }
    }
}

} // verus!
