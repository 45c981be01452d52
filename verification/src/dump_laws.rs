//! What holds of every inventory of repositories and of the directories that belong to
//! them.
use crate::context::ManagedWorktreeView;
use crate::dump::{
    dependents_of, describes, directory_at, directory_kind, dumps, endpoint_views, found_slot,
    linked_directories, listed_in, once_each, opt_endpoint, owner_of, path_id, row_for,
    sorted_found, tracked_directories, tracked_directory, with_directory, worktree_directories,
    worktree_directory, DirectoryFacts, DirectoryView, EndpointView, GitDirectoryDump, KindFacts,
    ManagedRepositoryDump, OwnerView, TrackedFacts, WorktreeFacts,
};
use crate::fetch::lemma_fetch_at;
use crate::inventory::{
    reports_repository, tracked_as, worktree_as, RepositoryFacts, TrackedRepositoryDump,
};
use crate::paths::{components, lemma_path_less_total, lemma_path_less_trans, path_eq, path_less};
use crate::registry::{sorted_records, RecordView, RegistryView};
use crate::relations::{
    ending_chain_has_no_cycle, ends, ends_after, first_cycle, first_second_parent, is_summary,
    lemma_link_of, link_of, one_parent_each, second_parent, summaries_refused, summary_after,
    summary_is_unique, unrefused, up, LinkView, SummaryView,
};
use crate::repair::opt_locator;
use crate::text::{opt_view, views};
use vstd::prelude::*;

verus! {

/// A summary tells what a repository is, of which parent; where the parent has none it
/// is the canonical repository, one step away.
pub proof fn summaries_tell_the_parent(links: Seq<LinkView>, k: int, s: SummaryView)
    requires
        0 <= k < links.len(),
        is_summary(links, k, s),
    ensures
        s.repo_id == links[k].dependent_repo_id,
        s.relationship == links[k].relationship,
        s.parent_locator == links[k].controlling_locator,
        s.parent_path == links[k].controlling_path,
        s.depth >= 1,
        (forall|j: int|
            0 <= j < links.len() ==> (#[trigger] links[j]).dependent_repo_id
                != links[k].controlling_repo_id) ==> s.depth == 1 && s.canonical_repo_id
            == links[k].controlling_repo_id && s.canonical_locator == links[k].controlling_locator
            && s.canonical_path == links[k].controlling_path,
{
    let n = choose|n: nat| #[trigger]
        ends_after(links, k, n) && s == summary_after(
            links,
            k,
            n,
        );
    lemma_link_of(links, links[k].controlling_repo_id, 0);
    if link_of(links, links[k].controlling_repo_id, 0) < 0 {
        assert(up(links, k, 0) == k);
        assert(up(links, k, 1) < 0);
        assert(ends_after(links, k, 1));
        summary_is_unique(
            links,
            k,
            s,
            summary_after(links, k, 1),
        );
    } else if n == 0 {
        assert(up(links, k, 0) == k);
    }
}

/// Two links give one repository two parents.
pub open spec fn two_parents(links: Seq<LinkView>) -> bool {
    exists|i: int, j: int|
        0 <= i < j < links.len() && (#[trigger] links[i]).dependent_repo_id == (
        #[trigger] links[j]).dependent_repo_id
}

proof fn lemma_second_parent(links: Seq<LinkView>, n: int) -> (i: int)
    requires
        0 <= n <= links.len(),
        two_parents(links.take(n)),
    ensures
        second_parent(links, i),
    decreases n,
{
    let head = links.take(n);
    let (a, b) = choose|a: int, b: int|
        0 <= a < b < head.len() && (#[trigger] head[a]).dependent_repo_id == (
        #[trigger] head[b]).dependent_repo_id;
    let before = links.take(n - 1);
    if two_parents(before) {
        lemma_second_parent(links, n - 1)
    } else {
        assert(b == n - 1) by {
            if b < n - 1 {
                assert(before[a].dependent_repo_id == before[b].dependent_repo_id);
            }
        }
        assert(links[a].dependent_repo_id == links[b].dependent_repo_id);
        assert(one_parent_each(before)) by {
            assert forall|i: int, j: int| 0 <= i < j < before.len() implies (
            #[trigger] before[i]).dependent_repo_id != (#[trigger] before[j]).dependent_repo_id by {}
        }
        n - 1
    }
}

/// Relationships in which a repository has two parents are refused; those in which each
/// has one at most and every chain of parents comes to an end are not.
pub proof fn parted_chains_are_refused(links: Seq<LinkView>)
    ensures
        two_parents(links) ==> !unrefused(links),
        !two_parents(links) && (forall|k: int| 0 <= k < links.len() ==> #[trigger] ends(links, k))
            ==> unrefused(links),
{
    assert(one_parent_each(links) == !two_parents(links)) by {
        if two_parents(links) {
            let (i, j) = choose|i: int, j: int|
                0 <= i < j < links.len() && (#[trigger] links[i]).dependent_repo_id == (
                #[trigger] links[j]).dependent_repo_id;
            assert(links[i].dependent_repo_id == links[j].dependent_repo_id);
        } else {
            assert forall|i: int, j: int| 0 <= i < j < links.len() implies (
            #[trigger] links[i]).dependent_repo_id != (#[trigger] links[j]).dependent_repo_id by {}
        }
    }
    if two_parents(links) {
        assert(links.take(links.len() as int) =~= links);
        let i = lemma_second_parent(links, links.len() as int);
        let text = "repository has multiple fork/mirror parents: "@
            + links[i].dependent_locator.key();
        assert(first_second_parent(links, i, text));
        assert(summaries_refused(links, text));
    } else if forall|k: int| 0 <= k < links.len() ==> #[trigger] ends(links, k) {
        assert forall|text: Seq<char>| !#[trigger] summaries_refused(links, text) by {
            if summaries_refused(links, text) {
                let k = choose|k: int| first_cycle(links, k, text);
                assert(ends(links, k));
                let n = choose|n: nat| #[trigger] ends_after(links, k, n);
                let s = summary_after(links, k, n);
                assert(is_summary(links, k, s));
                ending_chain_has_no_cycle(links, k, s, text);
            }
        }
    }
}

/// The link is one of a repository that depends on the one with the number, and the
/// endpoint tells of it.
pub open spec fn tells_dependent(
    root: Seq<char>,
    link: LinkView,
    id: i64,
    e: EndpointView,
) -> bool {
    &&& link.controlling_repo_id == id
    &&& e.id == path_id(root, link.dependent_path)
    &&& e.locator == link.dependent_locator
    &&& e.path == link.dependent_path
    &&& e.relationship == link.relationship
}

/// The dependents of a repository are all that depend on it, and no others.
pub proof fn all_dependents_are_told(
    root: Seq<char>,
    links: Seq<LinkView>,
    id: i64,
    e: EndpointView,
)
    ensures
        dependents_of(root, links, id).contains(e) <==> exists|i: int|
            0 <= i < links.len() && tells_dependent(root, #[trigger] links[i], id, e),
    decreases links.len(),
{
    if links.len() > 0 {
        let rest = links.drop_last();
        let last = links.last();
        let before = dependents_of(root, rest, id);
        let list = dependents_of(root, links, id);
        all_dependents_are_told(root, rest, id, e);
        assert(links[links.len() - 1] == last);
        if list.contains(e) {
            let m = choose|m: int| 0 <= m < list.len() && list[m] == e;
            if m < before.len() {
                assert(before[m] == e);
                let i = choose|i: int|
                    0 <= i < rest.len() && tells_dependent(root, #[trigger] rest[i], id, e);
                assert(tells_dependent(root, links[i], id, e));
            } else {
                assert(tells_dependent(root, links[links.len() - 1], id, e));
            }
        }
        if exists|i: int| 0 <= i < links.len() && tells_dependent(root, #[trigger] links[i], id, e) {
            let i = choose|i: int|
                0 <= i < links.len() && tells_dependent(root, #[trigger] links[i], id, e);
            if i < rest.len() {
                assert(tells_dependent(root, rest[i], id, e));
                let m = choose|m: int| 0 <= m < before.len() && before[m] == e;
                assert(list[m] == e);
            } else {
                assert(list[before.len() as int] == e);
            }
        }
    }
}

/// The entry of a repository tells what it is: canonical where it depends on none, and
/// otherwise what it is of its parent, which it names.
pub proof fn entries_tell_the_repository(
    d: ManagedRepositoryDump,
    root: Seq<char>,
    repo: RecordView,
    links: Seq<LinkView>,
    kind: Seq<char>,
    k: int,
)
    requires
        dumps(d, root, repo, links, kind),
        0 <= k <= links.len(),
        k < links.len() ==> links[k].dependent_repo_id == repo.id,
        forall|j: int| 0 <= j < k ==> (#[trigger] links[j]).dependent_repo_id != repo.id,
    ensures
        d.db_id == repo.id,
        d.locator@ == repo.current,
        d.path@ == repo.path,
        d.id@ == path_id(root, repo.path),
        d.checkout_kind@ == kind,
        endpoint_views(d.dependents@) == dependents_of(root, links, repo.id),
        k == links.len() ==> d.repo_type@ == "canonical"@ && d.fork_depth == 0 && d.parent is None
            && d.canonical is None,
        k < links.len() ==> {
            &&& d.repo_type@ == links[k].relationship
            &&& d.fork_depth >= 1
            &&& d.parent is Some && d.parent->0.path@ == links[k].controlling_path
            &&& d.parent->0.locator@ == links[k].controlling_locator
            &&& d.parent->0.relationship@ == links[k].relationship
            &&& d.canonical is Some
            &&& exists|s: SummaryView| #[trigger]
                is_summary(links, k, s) && d.fork_depth == s.depth && d.canonical->0.path@
                    == s.canonical_path && d.canonical->0.locator@ == s.canonical_locator
        },
{
    lemma_link_first(links, repo.id, 0, k);
    if k < links.len() {
        let s = choose|s: SummaryView| #[trigger]
            is_summary(links, k, s) && d.repo_type@ == s.relationship && d.fork_depth == s.depth
                && opt_endpoint(d.parent) == Some(
                crate::dump::endpoint(root, s.parent_locator, s.parent_path, s.relationship),
            ) && opt_endpoint(d.canonical) == Some(
                crate::dump::endpoint(root, s.canonical_locator, s.canonical_path, s.relationship),
            );
        summaries_tell_the_parent(links, k, s);
    }
}

pub proof fn lemma_link_first(links: Seq<LinkView>, id: i64, i: int, k: int)
    requires
        0 <= i <= k <= links.len(),
        k < links.len() ==> links[k].dependent_repo_id == id,
        forall|j: int| i <= j < k ==> (#[trigger] links[j]).dependent_repo_id != id,
    ensures
        link_of(links, id, i) == if k < links.len() {
            k
        } else {
            -1
        },
    decreases k - i,
{
    if i < k {
        lemma_link_first(links, id, i + 1, k);
    }
}

/// A directory is a view, or bare, or a worktree, or none of these, by the first that
/// holds; where that cannot be told, what stopped it is told instead.
pub proof fn kinds_are_told_in_order(facts: KindFacts)
    ensures
        ({
            let kind = directory_kind(facts);
            let no_view = facts.view is Ok && !facts.view->Ok_0;
            let not_bare = facts.bare is Ok && !facts.bare->Ok_0;
            &&& facts.view is Ok && facts.view->Ok_0 ==> kind == Ok::<Seq<char>, Seq<char>>(
                "repo-manager-view"@,
            )
            &&& no_view && facts.bare is Ok && facts.bare->Ok_0 ==> kind == Ok::<
                Seq<char>,
                Seq<char>,
            >("bare"@)
            &&& no_view && not_bare && facts.worktree is Ok ==> kind == Ok::<Seq<char>, Seq<char>>(
                if facts.worktree->Ok_0 {
                    "worktree"@
                } else {
                    "non-bare"@
                },
            )
            &&& facts.view is Err ==> kind == Err::<Seq<char>, Seq<char>>(facts.view->Err_0@)
            &&& no_view && facts.bare is Err ==> kind == Err::<Seq<char>, Seq<char>>(
                facts.bare->Err_0@,
            )
            &&& no_view && not_bare && facts.worktree is Err ==> kind == Err::<
                Seq<char>,
                Seq<char>,
            >(facts.worktree->Err_0@)
        }),
{
}

/// A row tells of the path, however that is spelled.
pub open spec fn some_row_of(rows: Seq<DirectoryView>, path: Seq<char>) -> bool {
    exists|i: int| 0 <= i < rows.len() && components((#[trigger] rows[i]).path) == components(path)
}

proof fn lemma_directory_at(rows: Seq<DirectoryView>, path: Seq<char>, i: int)
    requires
        0 <= i,
    ensures
        ({
            let k = directory_at(rows, path, i);
            &&& k == -1 || (i <= k < rows.len() && components(rows[k].path) == components(path))
            &&& k == -1 ==> forall|j: int|
                i <= j < rows.len() ==> components((#[trigger] rows[j]).path) != components(path)
        }),
    decreases rows.len() - i,
{
    if i < rows.len() && !path_eq(rows[i].path, path) {
        lemma_directory_at(rows, path, i + 1);
    }
}

/// One more directory takes the place of an earlier one at the same path; all others
/// stay, and no path is lost.
pub proof fn later_directories_replace_earlier(
    rows: Seq<DirectoryView>,
    row: DirectoryView,
    path: Seq<char>,
)
    ensures
        ({
            let after = with_directory(rows, row);
            &&& after.contains(row)
            &&& rows.len() <= after.len() <= rows.len() + 1
            &&& after.len() > rows.len() <==> !some_row_of(rows, row.path)
            &&& forall|j: int|
                0 <= j < rows.len() && components(rows[j].path) != components(row.path)
                    ==> #[trigger] after[j] == rows[j]
            &&& some_row_of(after, path) <==> some_row_of(rows, path) || components(path)
                == components(row.path)
            &&& forall|r: DirectoryView| #[trigger] after.contains(r) ==> r == row || rows.contains(r)
        }),
{
    let after = with_directory(rows, row);
    let k = directory_at(rows, row.path, 0);
    lemma_directory_at(rows, row.path, 0);
    let at = if 0 <= k < rows.len() {
        k
    } else {
        rows.len() as int
    };
    assert(after[at] == row);
    if k >= 0 {
        assert(components(rows[k].path) == components(row.path));
    }
    if some_row_of(after, path) {
        let i = choose|i: int|
            0 <= i < after.len() && components((#[trigger] after[i]).path) == components(path);
        if i != at {
            assert(components(rows[i].path) == components(path));
        }
    }
    if some_row_of(rows, path) {
        let i = choose|i: int|
            0 <= i < rows.len() && components((#[trigger] rows[i]).path) == components(path);
        if i != at {
            assert(components(after[i].path) == components(path));
        } else {
            assert(components(after[at].path) == components(path));
        }
    }
    if components(path) == components(row.path) {
        assert(components(after[at].path) == components(path));
    }
    assert forall|r: DirectoryView| #[trigger] after.contains(r) implies r == row || rows.contains(
        r,
    ) by {
        let i = choose|i: int| 0 <= i < after.len() && after[i] == r;
        if i != at {
            assert(rows[i] == r);
        }
    }
}

/// A row tells of a managed repository.
pub open spec fn tells_tracked(t: TrackedFacts, row: DirectoryView) -> bool {
    &&& row.path == t.comparable@
    &&& row.id == Some(t.id@)
    &&& row.is_tracked && row.managed
    &&& row.worktree_name is None
    &&& tells_owner(t, row.repository)
}

pub open spec fn tells_owner(t: TrackedFacts, owner: OwnerView) -> bool {
    &&& owner.id == t.id@
    &&& owner.repo_type == t.repo_type@
    &&& owner.locator == t.locator@
    &&& owner.namespace == opt_view(t.namespace)
}

/// Every managed repository has a row at its place, and every row tells of one.
pub proof fn managed_repositories_have_rows(repos: Seq<TrackedFacts>)
    ensures
        ({
            let rows = tracked_directories(repos);
            &&& forall|i: int|
                0 <= i < repos.len() ==> some_row_of(rows, (#[trigger] repos[i]).comparable@)
            &&& forall|row: DirectoryView| #[trigger]
                rows.contains(row) ==> exists|i: int|
                    0 <= i < repos.len() && tells_tracked(#[trigger] repos[i], row)
        }),
    decreases repos.len(),
{
    if repos.len() > 0 {
        let rest = repos.drop_last();
        let before = tracked_directories(rest);
        let rows = tracked_directories(repos);
        let row = tracked_directory(repos.last());
        managed_repositories_have_rows(rest);
        assert(repos[repos.len() - 1] == repos.last());
        assert forall|i: int| 0 <= i < repos.len() implies some_row_of(
            rows,
            (#[trigger] repos[i]).comparable@,
        ) by {
            later_directories_replace_earlier(before, row, repos[i].comparable@);
            if i < rest.len() {
                assert(rest[i] == repos[i]);
            }
        }
        assert forall|r: DirectoryView| #[trigger] rows.contains(r) implies exists|i: int|
            0 <= i < repos.len() && tells_tracked(#[trigger] repos[i], r) by {
            later_directories_replace_earlier(before, row, row.path);
            if before.contains(r) {
                let i = choose|i: int| 0 <= i < rest.len() && tells_tracked(#[trigger] rest[i], r);
                assert(tells_tracked(repos[i], r));
            } else {
                assert(tells_tracked(repos[repos.len() - 1], r));
            }
        }
    }
}

/// A row tells of a recorded worktree of a managed repository.
pub open spec fn tells_worktree(t: TrackedFacts, w: WorktreeFacts, row: DirectoryView) -> bool {
    &&& t.db_id == w.repo_id
    &&& row.path == w.comparable@
    &&& row.id == Some(w.id@)
    &&& row.is_tracked && row.managed
    &&& row.worktree_name == opt_view(w.name)
    &&& row.repository.id == t.id@
    &&& row.repository.repo_type == t.repo_type@
    &&& row.repository.locator == w.locator@
    &&& w.refs_prefix is Some ==> row.repository.namespace == opt_view(w.refs_prefix)
    &&& w.refs_prefix is None ==> row.repository.namespace == opt_view(t.namespace)
}

pub open spec fn tells_some_worktree(
    repos: Seq<TrackedFacts>,
    worktrees: Seq<WorktreeFacts>,
    row: DirectoryView,
) -> bool {
    exists|i: int, j: int|
        0 <= i < repos.len() && 0 <= j < worktrees.len() && tells_worktree(
            #[trigger] repos[i],
            #[trigger] worktrees[j],
            row,
        )
}

proof fn lemma_last_tracked(repos: Seq<TrackedFacts>, id: i64, n: int)
    requires
        0 <= n <= repos.len(),
    ensures
        ({
            let k = crate::dump::last_tracked(repos, id, n);
            &&& -1 <= k < n
            &&& k >= 0 ==> repos[k].db_id == id
            &&& k < 0 ==> forall|j: int| 0 <= j < n ==> (#[trigger] repos[j]).db_id != id
        }),
    decreases n,
{
    if n > 0 && repos[n - 1].db_id != id {
        lemma_last_tracked(repos, id, n - 1);
    }
}

/// Every recorded worktree of a managed repository has a row at its place, and every
/// row tells of one.
pub proof fn recorded_worktrees_have_rows(
    repos: Seq<TrackedFacts>,
    worktrees: Seq<WorktreeFacts>,
)
    ensures
        ({
            let rows = worktree_directories(repos, worktrees);
            &&& forall|j: int|
                0 <= j < worktrees.len() && (exists|i: int|
                    0 <= i < repos.len() && (#[trigger] repos[i]).db_id == worktrees[j].repo_id)
                    ==> some_row_of(rows, (#[trigger] worktrees[j]).comparable@)
            &&& forall|row: DirectoryView| #[trigger]
                rows.contains(row) ==> tells_some_worktree(repos, worktrees, row)
        }),
    decreases worktrees.len(),
{
    if worktrees.len() > 0 {
        let rest = worktrees.drop_last();
        let w = worktrees.last();
        let before = worktree_directories(repos, rest);
        let rows = worktree_directories(repos, worktrees);
        let k = crate::dump::last_tracked(repos, w.repo_id, repos.len() as int);
        recorded_worktrees_have_rows(repos, rest);
        lemma_last_tracked(repos, w.repo_id, repos.len() as int);
        assert(worktrees[worktrees.len() - 1] == w);
        assert forall|j: int|
            0 <= j < worktrees.len() && (exists|i: int|
                0 <= i < repos.len() && (#[trigger] repos[i]).db_id
                    == worktrees[j].repo_id) implies some_row_of(
            rows,
            (#[trigger] worktrees[j]).comparable@,
        ) by {
            if k >= 0 {
                later_directories_replace_earlier(
                    before,
                    worktree_directory(repos[k], w),
                    worktrees[j].comparable@,
                );
            }
            if j < rest.len() {
                assert(rest[j] == worktrees[j]);
                assert(some_row_of(before, rest[j].comparable@));
            }
        }
        assert forall|row: DirectoryView| #[trigger]
            rows.contains(row) implies tells_some_worktree(repos, worktrees, row) by {
            if k >= 0 {
                let new = worktree_directory(repos[k], w);
                later_directories_replace_earlier(before, new, new.path);
                if row == new {
                    assert(tells_worktree(repos[k], worktrees[worktrees.len() - 1], row));
                }
            }
            if before.contains(row) {
                let (i, j) = choose|i: int, j: int|
                    0 <= i < repos.len() && 0 <= j < rest.len() && tells_worktree(
                        #[trigger] repos[i],
                        #[trigger] rest[j],
                        row,
                    );
                assert(tells_worktree(repos[i], worktrees[j], row));
            }
        }
    }
}

/// A row tells of a worktree that Git lists: as the recorded one that it is, or as one
/// that is neither recorded nor managed and belongs to the repository.
pub open spec fn tells_listed(
    managed: Seq<DirectoryView>,
    owner: OwnerView,
    row: DirectoryView,
) -> bool {
    managed.contains(row) || (row.id is None && !row.is_tracked && !row.managed
        && row.worktree_name is None && row.repository == owner)
}

/// Each path that Git lists, unless a managed repository is there, has a row.
pub proof fn listed_worktrees_have_rows(
    rows: Seq<DirectoryView>,
    own: Seq<DirectoryView>,
    managed: Seq<DirectoryView>,
    owner: OwnerView,
    paths: Seq<Seq<char>>,
)
    ensures
        ({
            let after = listed_in(rows, own, managed, owner, paths);
            &&& forall|i: int|
                0 <= i < paths.len() && !some_row_of(own, #[trigger] paths[i]) ==> some_row_of(
                    after,
                    paths[i],
                )
            &&& forall|row: DirectoryView| #[trigger]
                after.contains(row) ==> rows.contains(row) || tells_listed(managed, owner, row)
            &&& forall|path: Seq<char>| #[trigger]
                some_row_of(rows, path) ==> some_row_of(after, path)
        }),
    decreases paths.len(),
{
    if paths.len() > 0 {
        let rest = paths.drop_last();
        let path = paths.last();
        let before = listed_in(rows, own, managed, owner, rest);
        let after = listed_in(rows, own, managed, owner, paths);
        listed_worktrees_have_rows(rows, own, managed, owner, rest);
        lemma_directory_at(own, path, 0);
        lemma_directory_at(managed, path, 0);
        let m = directory_at(managed, path, 0);
        let skipped = directory_at(own, path, 0) >= 0;
        let new = if 0 <= m < managed.len() {
            managed[m]
        } else {
            DirectoryView {
                path,
                id: None,
                is_tracked: false,
                managed: false,
                worktree_name: None,
                repository: owner,
            }
        };
        assert(!skipped ==> after == with_directory(before, new));
        assert(paths[paths.len() - 1] == path);
        if skipped {
            assert(some_row_of(own, path)) by {
                assert(components(own[directory_at(own, path, 0)].path) == components(path));
            }
        }
        assert forall|i: int|
            0 <= i < paths.len() && !some_row_of(own, #[trigger] paths[i]) implies some_row_of(
            after,
            paths[i],
        ) by {
            later_directories_replace_earlier(before, new, paths[i]);
            if i < rest.len() {
                assert(rest[i] == paths[i]);
            }
        }
        assert forall|row: DirectoryView| #[trigger]
            after.contains(row) implies rows.contains(row) || tells_listed(managed, owner, row) by {
            later_directories_replace_earlier(before, new, path);
            if 0 <= m < managed.len() {
                assert(managed.contains(managed[m]));
            }
        }
        assert forall|p: Seq<char>| #[trigger] some_row_of(rows, p) implies some_row_of(
            after,
            p,
        ) by {
            later_directories_replace_earlier(before, new, p);
        }
    }
}

/// What is known of a path is told by the row of the managed repository that is there,
/// and only otherwise by that of a recorded worktree, and last by that of a worktree
/// that Git lists.
pub proof fn managed_rows_come_first(
    path: Seq<char>,
    own: Seq<DirectoryView>,
    managed: Seq<DirectoryView>,
    linked: Seq<DirectoryView>,
)
    ensures
        ({
            let row = row_for(path, own, managed, linked);
            &&& row is Some <==> some_row_of(own, path) || some_row_of(managed, path)
                || some_row_of(linked, path)
            &&& row is Some ==> components(row->0.path) == components(path)
            &&& some_row_of(own, path) ==> own.contains(row->0)
            &&& !some_row_of(own, path) && some_row_of(managed, path) ==> managed.contains(row->0)
            &&& !some_row_of(own, path) && !some_row_of(managed, path) && some_row_of(linked, path)
                ==> linked.contains(row->0)
        }),
{
    lemma_directory_at(own, path, 0);
    lemma_directory_at(managed, path, 0);
    lemma_directory_at(linked, path, 0);
    let a = directory_at(own, path, 0);
    let b = directory_at(managed, path, 0);
    let c = directory_at(linked, path, 0);
    assert(a >= 0 ==> components(own[a].path) == components(path) && own.contains(own[a]));
    assert(b >= 0 ==> components(managed[b].path) == components(path) && managed.contains(
        managed[b],
    ));
    assert(c >= 0 ==> components(linked[c].path) == components(path) && linked.contains(linked[c]));
}

/// The entry of a directory tells what its row does; one without a row is not managed,
/// and is named after where it is and what it was cloned from. It has a kind, or tells
/// why not.
pub proof fn entries_tell_the_directory(
    d: GitDirectoryDump,
    root: Seq<char>,
    facts: DirectoryFacts,
    row: Option<DirectoryView>,
)
    requires
        describes(d, root, facts, row),
    ensures
        d.path@ == facts.path@,
        d.kind is Some <==> directory_kind(facts.kind) is Ok,
        d.error is Some <==> directory_kind(facts.kind) is Err,
        d.kind is Some ==> d.kind->0@ == directory_kind(facts.kind)->Ok_0,
        d.error is Some ==> d.error->0@ == directory_kind(facts.kind)->Err_0,
        row is Some ==> d.managed == row->0.managed && d.is_tracked == row->0.is_tracked
            && opt_view(d.repository) == Some(row->0.repository.id) && opt_view(d.repository_type)
            == Some(row->0.repository.repo_type) && opt_locator(d.locator) == Some(
            row->0.repository.locator,
        ) && opt_view(d.namespace) == row->0.repository.namespace && opt_view(d.worktree_name)
            == row->0.worktree_name,
        row is Some && row->0.id is Some ==> opt_view(d.id) == row->0.id,
        row is None ==> !d.managed && !d.is_tracked && d.repository is None && d.repository_type
            is None && d.namespace is None && d.worktree_name is None,
        row is None && facts.under_root ==> opt_view(d.id) == Some(path_id(root, facts.path@)),
        row is None && !facts.under_root ==> d.id is None,
        row is None && facts.view_locator is Some ==> opt_locator(d.locator) == opt_locator(
            facts.view_locator,
        ),
        row is None && facts.view_locator is None ==> opt_locator(d.locator) == opt_locator(
            facts.origin_locator,
        ),
{
}

/// The row of a worktree that Git lists for some managed repository.
pub open spec fn tells_some_listed(
    repos: Seq<TrackedFacts>,
    managed: Seq<DirectoryView>,
    row: DirectoryView,
) -> bool {
    managed.contains(row) || exists|i: int|
        0 <= i < repos.len() && row.id is None && !row.is_tracked && !row.managed && tells_owner(
            #[trigger] repos[i],
            row.repository,
        )
}

/// Every worktree that Git lists for a managed repository, unless a managed repository
/// is there, has a row, and every such row belongs to the repository that lists it.
pub proof fn all_listed_worktrees_have_rows(
    repos: Seq<TrackedFacts>,
    own: Seq<DirectoryView>,
    managed: Seq<DirectoryView>,
    i: int,
    path: Seq<char>,
)
    requires
        0 <= i < repos.len(),
    ensures
        ({
            let rows = linked_directories(repos, own, managed);
            &&& views(repos[i].worktrees@).contains(path) && !some_row_of(own, path) ==> some_row_of(
                rows,
                path,
            )
            &&& forall|row: DirectoryView| #[trigger]
                rows.contains(row) ==> tells_some_listed(repos, managed, row)
        }),
    decreases repos.len(),
{
    let rest = repos.drop_last();
    let last = repos.last();
    let before = linked_directories(rest, own, managed);
    let rows = linked_directories(repos, own, managed);
    let paths = views(last.worktrees@);
    listed_worktrees_have_rows(before, own, managed, owner_of(last), paths);
    assert(repos[repos.len() - 1] == last);
    if i < rest.len() {
        all_listed_worktrees_have_rows(rest, own, managed, i, path);
        assert(rest[i] == repos[i]);
    } else if rest.len() > 0 {
        all_listed_worktrees_have_rows(rest, own, managed, 0, path);
    }
    if i == rest.len() && paths.contains(path) {
        let k = choose|k: int| 0 <= k < paths.len() && paths[k] == path;
        assert(paths[k] == path);
    }
    assert forall|row: DirectoryView| #[trigger] rows.contains(row) implies tells_some_listed(
        repos,
        managed,
        row,
    ) by {
        if before.contains(row) {
            assert(rest.len() > 0);
            if !managed.contains(row) {
                let j = choose|j: int|
                    0 <= j < rest.len() && row.id is None && !row.is_tracked && !row.managed
                        && tells_owner(#[trigger] rest[j], row.repository);
                assert(tells_owner(repos[j], row.repository));
            }
        } else if !managed.contains(row) {
            assert(tells_owner(repos[repos.len() - 1], row.repository));
        }
    }
}

proof fn lemma_found_slot(rows: Seq<(Seq<char>, Seq<char>)>, path: Seq<char>, i: int)
    requires
        0 <= i <= rows.len(),
    ensures
        i <= found_slot(rows, path, i) <= rows.len(),
        forall|k: int|
            i <= k < found_slot(rows, path, i) ==> !path_less(path, (#[trigger] rows[k]).0),
        found_slot(rows, path, i) < rows.len() ==> path_less(
            path,
            rows[found_slot(rows, path, i)].0,
        ),
    decreases rows.len() - i,
{
    if i < rows.len() && !path_less(path, rows[i].0) {
        lemma_found_slot(rows, path, i + 1);
    }
}

/// No directory comes before one whose path is smaller.
pub open spec fn found_in_order(rows: Seq<(Seq<char>, Seq<char>)>) -> bool {
    forall|i: int, j: int|
        0 <= i < j < rows.len() ==> !path_less((#[trigger] rows[j]).0, (#[trigger] rows[i]).0)
}

/// The directories that were found are put in the order of their paths, none is lost
/// and none is added.
pub proof fn found_directories_are_sorted(
    rows: Seq<(Seq<char>, Seq<char>)>,
    row: (Seq<char>, Seq<char>),
)
    ensures
        found_in_order(sorted_found(rows)),
        sorted_found(rows).len() == rows.len(),
        sorted_found(rows).contains(row) <==> rows.contains(row),
    decreases rows.len(),
{
    if rows.len() > 0 {
        let rest = rows.drop_last();
        let last = rows.last();
        let before = sorted_found(rest);
        let list = sorted_found(rows);
        found_directories_are_sorted(rest, row);
        let k = found_slot(before, last.0, 0);
        lemma_found_slot(before, last.0, 0);
        assert(rows[rows.len() - 1] == last);
        assert(list[k] == last);
        assert forall|i: int, j: int| 0 <= i < j < list.len() implies !path_less(
            (#[trigger] list[j]).0,
            (#[trigger] list[i]).0,
        ) by {
            if j == k {
                assert(list[i] == before[i]);
            } else if i == k {
                assert(list[j] == before[j - 1]);
                if path_less(before[j - 1].0, last.0) {
                    lemma_path_less_trans(before[j - 1].0, last.0, before[k].0);
                    lemma_path_less_total(before[j - 1].0, before[k].0);
                    if k < j - 1 {
                        assert(!path_less(before[j - 1].0, before[k].0));
                    }
                }
            } else {
                assert(list[i] == before[if i < k {
                    i
                } else {
                    i - 1
                }]);
                assert(list[j] == before[if j < k {
                    j
                } else {
                    j - 1
                }]);
            }
        }
        if list.contains(row) && row != last {
            let m = choose|m: int| 0 <= m < list.len() && list[m] == row;
            assert(before[if m < k {
                m
            } else {
                m - 1
            }] == row);
            let i = choose|i: int| 0 <= i < rest.len() && rest[i] == row;
            assert(rows[i] == row);
        }
        if rows.contains(row) && row != last {
            let i = choose|i: int| 0 <= i < rows.len() && rows[i] == row;
            assert(rest[i] == row);
            let m = choose|m: int| 0 <= m < before.len() && before[m] == row;
            assert(list[if m < k {
                m
            } else {
                m + 1
            }] == row);
        }
    }
}

/// A directory with the place is among them.
pub open spec fn some_found_at(rows: Seq<(Seq<char>, Seq<char>)>, place: Seq<char>) -> bool {
    exists|i: int| 0 <= i < rows.len() && components((#[trigger] rows[i]).1) == components(place)
}

/// Of neighbours that lead to one place the first is kept; every place stays, and
/// nothing is added.
pub proof fn each_place_is_kept_once(rows: Seq<(Seq<char>, Seq<char>)>, place: Seq<char>)
    ensures
        ({
            let kept = once_each(rows);
            &&& some_found_at(kept, place) <==> some_found_at(rows, place)
            &&& forall|i: int| 0 <= i < kept.len() ==> rows.contains(#[trigger] kept[i])
            &&& forall|i: int, j: int|
                0 <= i && j == i + 1 && j < kept.len() ==> components((#[trigger] kept[i]).1)
                    != components((#[trigger] kept[j]).1)
        }),
    decreases rows.len(),
{
    if rows.len() > 0 {
        let rest = rows.drop_last();
        let last = rows.last();
        let before = once_each(rest);
        let kept = once_each(rows);
        each_place_is_kept_once(rest, place);
        assert(rows[rows.len() - 1] == last);
        assert(forall|i: int| 0 <= i < rest.len() ==> #[trigger] rest[i] == rows[i]);
        if some_found_at(rows, place) {
            let i = choose|i: int|
                0 <= i < rows.len() && components((#[trigger] rows[i]).1) == components(place);
            if i < rest.len() {
                assert(components(rest[i].1) == components(place));
                let m = choose|m: int|
                    0 <= m < before.len() && components((#[trigger] before[m]).1) == components(
                        place,
                    );
                assert(kept[m] == before[m]);
            } else {
                assert(components(kept[kept.len() - 1].1) == components(place));
            }
        }
        if some_found_at(kept, place) {
            let m = choose|m: int|
                0 <= m < kept.len() && components((#[trigger] kept[m]).1) == components(place);
            if m < before.len() {
                assert(components(before[m].1) == components(place));
                let i = choose|i: int|
                    0 <= i < rest.len() && components((#[trigger] rest[i]).1) == components(place);
                assert(components(rows[i].1) == components(place));
            }
        }
        assert forall|i: int| 0 <= i < kept.len() implies rows.contains(#[trigger] kept[i]) by {
            if i < before.len() {
                assert(rest.contains(before[i]));
                let k = choose|k: int| 0 <= k < rest.len() && rest[k] == before[i];
                assert(rows[k] == kept[i]);
            }
        }
        assert forall|i: int, j: int| 0 <= i && j == i + 1 && j < kept.len() implies components(
            (#[trigger] kept[i]).1,
        ) != components((#[trigger] kept[j]).1) by {
            assert(kept[i] == before[i]);
            if j < before.len() {
                assert(kept[j] == before[j]);
            }
        }
    }
}

/// The entry of a managed repository tells of the record at its place in the list, with
/// the kind of checkout that is there and what was fetched for it.
pub proof fn managed_entries_tell_their_record(
    d: TrackedRepositoryDump,
    root: Seq<char>,
    registry: RegistryView,
    i: int,
    seen: RepositoryFacts,
    k: int,
)
    requires
        reports_repository(d, root, registry, i, seen),
        0 <= k <= registry.fetches.len(),
        k < registry.fetches.len() ==> registry.fetches[k].repo_id == d.repository.db_id,
        forall|j: int| 0 <= j < k ==> (#[trigger] registry.fetches[j]).repo_id != d.repository.db_id,
    ensures
        d.repository.db_id == sorted_records(registry.repos)[i].id,
        d.repository.path@ == sorted_records(registry.repos)[i].path,
        d.repository.locator@ == sorted_records(registry.repos)[i].current,
        d.exists == seen.exists,
        !seen.exists ==> d.repository.checkout_kind@ == "missing"@,
        seen.exists && directory_kind(seen.kind) is Ok ==> d.repository.checkout_kind@
            == directory_kind(seen.kind)->Ok_0,
        seen.exists && directory_kind(seen.kind) is Err ==> d.repository.checkout_kind@
            == "unknown"@,
        k == registry.fetches.len() ==> d.background_fetch is None,
        k < registry.fetches.len() ==> d.background_fetch is Some && d.background_fetch->0@
            == registry.fetches[k],
{
    lemma_fetch_at(registry.fetches, d.repository.db_id, 0);
}

/// What the directories of a repository and of a worktree go by is what was reported of
/// the one and recorded of the other.
pub proof fn rows_go_by_what_is_recorded(
    t: TrackedFacts,
    d: ManagedRepositoryDump,
    seen: RepositoryFacts,
    w: WorktreeFacts,
    root: Seq<char>,
    row: ManagedWorktreeView,
    comparable: Seq<char>,
)
    requires
        tracked_as(t, d, seen),
        worktree_as(w, root, row, comparable),
    ensures
        t.db_id == d.db_id && t.id@ == d.id@ && t.repo_type@ == d.repo_type@,
        t.locator@ == d.locator@ && t.comparable@ == seen.comparable@,
        opt_view(t.namespace) == opt_view(seen.namespace),
        views(t.worktrees@) == views(seen.worktrees@),
        w.repo_id == row.repo_id && w.id@ == path_id(root, row.path),
        w.locator@ == row.repo_locator && w.comparable@ == comparable,
        opt_view(w.name) == row.name && opt_view(w.refs_prefix) == row.refs_prefix,
{
}

} // verus!
