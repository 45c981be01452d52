//! What holds of the rows of every table of the registry: none is there twice, and
//! each speaks of repositories that are known.
use crate::fetch::{fetch_at, fetched, lemma_fetch_at};
use crate::locator::LocatorView;
use crate::moves::{AliasPlan, MovePlan};
use crate::registry::{
    aliased, all_aliased, dependent_resolution, keep, known, lemma_keep, located, moved,
    none_current, repo_id_for, top_related_id, top_repo_id, upserted, with_id, without_parents,
    without_repo, AliasView, FetchView, ForkRow, PlaceView, RegistryView, RelatedView, RepoView,
    WorktreeView,
};
use crate::registry_laws::lemma_keep_pair;
use crate::registry_relations::{
    forked, history_shared, pair_at, pair_resolved, succeeded, successor_at, with_worktree,
    worktree_at,
};
use crate::share::{lemma_upserted, with_repo};
use vstd::prelude::*;

verus! {

/// No two rows have the same key.
pub open spec fn distinct_by<T, K>(rows: Seq<T>, key: spec_fn(T) -> K) -> bool {
    forall|i: int, j: int|
        0 <= i < j < rows.len() ==> key(#[trigger] rows[i]) != key(#[trigger] rows[j])
}

pub open spec fn fork_key() -> spec_fn(ForkRow) -> (i64, i64) {
    |r: ForkRow| (r.fork_repo_id, r.canonical_repo_id)
}

pub open spec fn successor_key() -> spec_fn((Seq<char>, LocatorView)) -> Seq<char> {
    |r: (Seq<char>, LocatorView)| r.0
}

pub open spec fn related_key() -> spec_fn(RelatedView) -> i64 {
    |r: RelatedView| r.id
}

pub open spec fn pair_key() -> spec_fn(RelatedView) -> (i64, i64) {
    |r: RelatedView| (r.repo_id, r.related_repo_id)
}

pub open spec fn worktree_key() -> spec_fn(WorktreeView) -> Seq<char> {
    |r: WorktreeView| r.path
}

pub open spec fn fetch_key() -> spec_fn(FetchView) -> i64 {
    |r: FetchView| r.repo_id
}

/// A fork is recorded once, a source has one successor, a pair shares history once
/// and under its own number, a path is one worktree, and a repository has one fetch
/// state.
pub open spec fn own_rows(view: RegistryView) -> bool {
    &&& distinct_by(view.forks, fork_key())
    &&& distinct_by(view.successors, successor_key())
    &&& distinct_by(view.related, related_key())
    &&& distinct_by(view.related, pair_key())
    &&& distinct_by(view.worktrees, worktree_key())
    &&& distinct_by(view.fetches, fetch_key())
}

/// Every row speaks of known repositories only.
pub open spec fn connected(view: RegistryView) -> bool {
    &&& forall|i: int|
        0 <= i < view.locators.len() ==> known(view.repos, (#[trigger] view.locators[i]).repo_id)
    &&& forall|i: int|
        0 <= i < view.aliases.len() ==> known(view.repos, (#[trigger] view.aliases[i]).repo_id)
    &&& forall|i: int|
        0 <= i < view.forks.len() ==> known(view.repos, (#[trigger] view.forks[i]).fork_repo_id)
            && known(view.repos, view.forks[i].canonical_repo_id)
    &&& forall|i: int|
        0 <= i < view.related.len() ==> known(view.repos, (#[trigger] view.related[i]).repo_id)
            && known(view.repos, view.related[i].related_repo_id)
    &&& forall|i: int|
        0 <= i < view.worktrees.len() ==> known(view.repos, (#[trigger] view.worktrees[i]).repo_id)
    &&& forall|i: int|
        0 <= i < view.fetches.len() ==> known(view.repos, (#[trigger] view.fetches[i]).repo_id)
}

pub open spec fn tidy(view: RegistryView) -> bool {
    own_rows(view) && connected(view)
}

pub proof fn lemma_known(repos: Seq<RepoView>, id: i64, i: int)
    requires
        0 <= i,
    ensures
        with_id(repos, id, i) == -1 || (i <= with_id(repos, id, i) < repos.len() && repos[with_id(
            repos,
            id,
            i,
        )].id == id),
        with_id(repos, id, i) == -1 ==> forall|k: int|
            i <= k < repos.len() ==> (#[trigger] repos[k]).id != id,
    decreases repos.len() - i,
{
    if i < repos.len() && repos[i].id != id {
        lemma_known(repos, id, i + 1);
    }
}

proof fn lemma_put<T, K>(rows: Seq<T>, key: spec_fn(T) -> K, row: T, k: int)
    requires
        distinct_by(rows, key),
        0 <= k < rows.len() ==> key(rows[k]) == key(row),
        !(0 <= k < rows.len()) ==> forall|j: int|
            0 <= j < rows.len() ==> key(#[trigger] rows[j]) != key(row),
    ensures
        distinct_by(
            if 0 <= k < rows.len() {
                rows.update(k, row)
            } else {
                rows.push(row)
            },
            key,
        ),
{
    let after = if 0 <= k < rows.len() {
        rows.update(k, row)
    } else {
        rows.push(row)
    };
    assert forall|i: int, j: int| 0 <= i < j < after.len() implies key(#[trigger] after[i]) != key(
        #[trigger] after[j],
    ) by {
        if j < rows.len() {
            assert(key(after[i]) == key(rows[i]));
            assert(key(after[j]) == key(rows[j]));
        } else {
            assert(after[i] == rows[i]);
        }
    }
}

proof fn lemma_keep_distinct<T, K>(rows: Seq<T>, key: spec_fn(T) -> K, p: spec_fn(T) -> bool)
    requires
        distinct_by(rows, key),
    ensures
        distinct_by(keep(rows, p), key),
{
    let after = keep(rows, p);
    assert forall|i: int, j: int| 0 <= i < j < after.len() implies key(#[trigger] after[i]) != key(
        #[trigger] after[j],
    ) by {
        let (a, b) = lemma_keep_pair(rows, p, i, j);
        assert(key(rows[a]) != key(rows[b]));
    }
}

/// The repositories that are known depend on the numbers alone.
proof fn lemma_same_ids(repos: Seq<RepoView>, after: Seq<RepoView>)
    requires
        repos.len() == after.len(),
        forall|i: int| 0 <= i < repos.len() ==> (#[trigger] after[i]).id == repos[i].id,
    ensures
        forall|id: i64| known(repos, id) ==> #[trigger] known(after, id),
{
    assert forall|id: i64| known(repos, id) implies #[trigger] known(after, id) by {
        lemma_known(repos, id, 0);
        lemma_known(after, id, 0);
        let k = with_id(repos, id, 0);
        assert(after[k].id == id);
    }
}

proof fn lemma_located_known(
    repos: Seq<RepoView>,
    rows: Seq<PlaceView>,
    id: i64,
    locator: LocatorView,
    path: Seq<char>,
    current: bool,
)
    requires
        known(repos, id),
        forall|i: int| 0 <= i < rows.len() ==> known(repos, (#[trigger] rows[i]).repo_id),
    ensures
        forall|i: int|
            0 <= i < located(rows, id, locator, path, current).len() ==> known(
                repos,
                (#[trigger] located(rows, id, locator, path, current)[i]).repo_id,
            ),
{
    let base = if current {
        none_current(rows, id)
    } else {
        rows
    };
    assert forall|i: int| 0 <= i < rows.len() implies (#[trigger] base[i]).repo_id
        == rows[i].repo_id by {}
    let after = located(rows, id, locator, path, current);
    assert forall|i: int| 0 <= i < after.len() implies known(
        repos,
        (#[trigger] after[i]).repo_id,
    ) by {
        if i < rows.len() {
            assert(after[i].repo_id == id || after[i] == base[i]);
        }
    }
}

proof fn lemma_aliased_known(repos: Seq<RepoView>, rows: Seq<AliasView>, id: i64, aliases: Seq<AliasPlan>)
    requires
        known(repos, id),
        forall|i: int| 0 <= i < rows.len() ==> known(repos, (#[trigger] rows[i]).repo_id),
    ensures
        forall|i: int|
            0 <= i < all_aliased(rows, id, aliases).len() ==> known(
                repos,
                (#[trigger] all_aliased(rows, id, aliases)[i]).repo_id,
            ),
    decreases aliases.len(),
{
    if aliases.len() > 0 {
        let before = all_aliased(rows, id, aliases.drop_last());
        lemma_aliased_known(repos, rows, id, aliases.drop_last());
        let path = aliases.last().alias_path@;
        let after = aliased(before, id, path, aliases.last().target_path@);
        assert forall|i: int| 0 <= i < after.len() implies known(
            repos,
            (#[trigger] after[i]).repo_id,
        ) by {
            if i < before.len() {
                assert(after[i].repo_id == before[i].repo_id);
            }
        }
    }
}

/// A registry without rows is tidy.
pub proof fn empty_registries_are_tidy(view: RegistryView)
    requires
        view.locators.len() == 0,
        view.aliases.len() == 0,
        view.forks.len() == 0,
        view.successors.len() == 0,
        view.related.len() == 0,
        view.worktrees.len() == 0,
        view.fetches.len() == 0,
    ensures
        tidy(view),
{
}

/// Recording a repository keeps the rows tidy.
pub proof fn recording_keeps_rows_tidy(
    view: RegistryView,
    locator: LocatorView,
    path: Seq<char>,
    canonical_identity: Option<Seq<char>>,
)
    requires
        tidy(view),
        top_repo_id(view.repos) < i64::MAX,
    ensures
        tidy(with_repo(view, locator, path, canonical_identity)),
{
    let after = upserted(view.repos, locator, path, canonical_identity);
    lemma_upserted(view.repos, locator, path, canonical_identity);
    lemma_located_known(
        after,
        view.locators,
        repo_id_for(view.repos, locator.key()),
        locator,
        path,
        true,
    );
}

/// Moving a repository keeps the rows tidy.
pub proof fn moving_keeps_rows_tidy(view: RegistryView, id: i64, plan: MovePlan)
    requires
        tidy(view),
        known(view.repos, id),
    ensures
        tidy(moved(view, id, plan)),
{
    let after = moved(view, id, plan);
    lemma_same_ids(view.repos, after.repos);
    lemma_located_known(
        after.repos,
        view.locators,
        id,
        plan.old_locator@,
        plan.old_path@,
        false,
    );
    lemma_located_known(
        after.repos,
        located(view.locators, id, plan.old_locator@, plan.old_path@, false),
        id,
        plan.new_locator@,
        plan.new_path@,
        true,
    );
    lemma_aliased_known(after.repos, view.aliases, id, plan.aliases@);
}

/// Clearing the parents of a repository keeps the rows tidy.
pub proof fn clearing_keeps_rows_tidy(view: RegistryView, id: i64)
    requires
        tidy(view),
    ensures
        tidy(without_parents(view, id)),
{
    let after = without_parents(view, id);
    let fork = |r: ForkRow| r.fork_repo_id != id;
    let related = |r: RelatedView| !(r.repo_id == id && dependent_resolution(r.resolution));
    lemma_same_ids(view.repos, after.repos);
    lemma_keep(view.forks, fork);
    lemma_keep(view.related, related);
    lemma_keep_distinct(view.forks, fork_key(), fork);
    lemma_keep_distinct(view.related, related_key(), related);
    lemma_keep_distinct(view.related, pair_key(), related);
}

/// Deleting a repository keeps the rows tidy.
pub proof fn deleting_keeps_rows_tidy(view: RegistryView, id: i64)
    requires
        tidy(view),
    ensures
        tidy(without_repo(view, id)),
{
    let after = without_repo(view, id);
    let repo = |r: RepoView| r.id != id;
    let place = |r: PlaceView| r.repo_id != id;
    let alias = |r: AliasView| r.repo_id != id;
    let fork = |r: ForkRow| r.fork_repo_id != id && r.canonical_repo_id != id;
    let related = |r: RelatedView| r.repo_id != id && r.related_repo_id != id;
    let worktree = |r: WorktreeView| r.repo_id != id;
    let fetch = |r: FetchView| r.repo_id != id;
    lemma_keep(view.repos, repo);
    lemma_keep(view.locators, place);
    lemma_keep(view.aliases, alias);
    lemma_keep(view.forks, fork);
    lemma_keep(view.related, related);
    lemma_keep(view.worktrees, worktree);
    lemma_keep(view.fetches, fetch);
    lemma_keep_distinct(view.forks, fork_key(), fork);
    lemma_keep_distinct(view.related, related_key(), related);
    lemma_keep_distinct(view.related, pair_key(), related);
    lemma_keep_distinct(view.worktrees, worktree_key(), worktree);
    lemma_keep_distinct(view.fetches, fetch_key(), fetch);
    assert forall|other: i64|
        other != id && known(view.repos, other) implies #[trigger] known(after.repos, other) by {
        lemma_known(view.repos, other, 0);
        lemma_known(after.repos, other, 0);
        let row = view.repos[with_id(view.repos, other, 0)];
        assert(view.repos.contains(row));
        assert(after.repos.contains(row));
        let k = choose|k: int| 0 <= k < after.repos.len() && after.repos[k] == row;
        assert(after.repos[k].id == other);
    }
}

/// Recording a fork keeps the rows tidy.
pub proof fn forking_keeps_rows_tidy(view: RegistryView, fork: i64, canonical: i64)
    requires
        tidy(view),
        known(view.repos, fork),
        known(view.repos, canonical),
    ensures
        tidy(RegistryView { forks: forked(view.forks, fork, canonical), ..view }),
{
    let row = ForkRow { fork_repo_id: fork, canonical_repo_id: canonical };
    if !view.forks.contains(row) {
        assert forall|j: int| 0 <= j < view.forks.len() implies fork_key()(#[trigger] view.forks[j])
            != fork_key()(row) by {
            assert(view.forks.contains(view.forks[j]));
            assert(view.forks[j] != row);
        }
        lemma_put(view.forks, fork_key(), row, -1);
    }
}

proof fn lemma_pair_at(rows: Seq<RelatedView>, a: i64, b: i64, i: int)
    requires
        0 <= i,
    ensures
        ({
            let k = pair_at(rows, a, b, i);
            &&& k == -1 || (i <= k < rows.len() && rows[k].repo_id == a && rows[k].related_repo_id
                == b)
            &&& k == -1 ==> forall|j: int|
                i <= j < rows.len() ==> !((#[trigger] rows[j]).repo_id == a
                    && rows[j].related_repo_id == b)
        }),
    decreases rows.len() - i,
{
    if i < rows.len() && !(rows[i].repo_id == a && rows[i].related_repo_id == b) {
        lemma_pair_at(rows, a, b, i + 1);
    }
}

proof fn lemma_top_related(rows: Seq<RelatedView>)
    ensures
        top_related_id(rows) >= 0,
        forall|i: int| 0 <= i < rows.len() ==> (#[trigger] rows[i]).id <= top_related_id(rows),
    decreases rows.len(),
{
    if rows.len() > 0 {
        let rest = rows.drop_last();
        lemma_top_related(rest);
        assert forall|i: int| 0 <= i < rows.len() implies (#[trigger] rows[i]).id <= top_related_id(
            rows,
        ) by {
            if i < rest.len() {
                assert(rest[i] == rows[i]);
            }
        }
    }
}

proof fn lemma_pair_put(view: RegistryView, row: RelatedView)
    requires
        tidy(view),
        known(view.repos, row.repo_id),
        known(view.repos, row.related_repo_id),
        top_related_id(view.related) < i64::MAX,
        ({
            let k = pair_at(view.related, row.repo_id, row.related_repo_id, 0);
            row.id == if 0 <= k < view.related.len() {
                view.related[k].id as int
            } else {
                top_related_id(view.related) + 1
            }
        }),
    ensures
        ({
            let k = pair_at(view.related, row.repo_id, row.related_repo_id, 0);
            tidy(
                RegistryView {
                    related: if 0 <= k < view.related.len() {
                        view.related.update(k, row)
                    } else {
                        view.related.push(row)
                    },
                    ..view
                },
            )
        }),
{
    let k = pair_at(view.related, row.repo_id, row.related_repo_id, 0);
    lemma_pair_at(view.related, row.repo_id, row.related_repo_id, 0);
    lemma_top_related(view.related);
    lemma_put(view.related, related_key(), row, k);
    lemma_put(view.related, pair_key(), row, k);
}

/// Noting that two repositories share history keeps the rows tidy.
pub proof fn sharing_keeps_rows_tidy(view: RegistryView, a: i64, b: i64, refs: Seq<Seq<char>>)
    requires
        tidy(view),
        known(view.repos, a),
        known(view.repos, b),
        top_related_id(view.related) < i64::MAX,
    ensures
        tidy(RegistryView { related: history_shared(view.related, a, b, refs), ..view }),
{
    let k = pair_at(view.related, a, b, 0);
    lemma_pair_at(view.related, a, b, 0);
    lemma_top_related(view.related);
    let row = if 0 <= k < view.related.len() {
        RelatedView { shared_refs: refs, ..view.related[k] }
    } else {
        RelatedView {
            id: (top_related_id(view.related) + 1) as i64,
            repo_id: a,
            related_repo_id: b,
            shared_refs: refs,
            resolution: None,
        }
    };
    lemma_pair_put(view, row);
}

/// Saying what two repositories are to each other keeps the rows tidy.
pub proof fn confirming_keeps_rows_tidy(view: RegistryView, a: i64, b: i64, resolution: Seq<char>)
    requires
        tidy(view),
        known(view.repos, a),
        known(view.repos, b),
        top_related_id(view.related) < i64::MAX,
    ensures
        tidy(RegistryView { related: pair_resolved(view.related, a, b, resolution), ..view }),
{
    let k = pair_at(view.related, a, b, 0);
    lemma_pair_at(view.related, a, b, 0);
    lemma_top_related(view.related);
    let row = if 0 <= k < view.related.len() {
        RelatedView { resolution: Some(resolution), ..view.related[k] }
    } else {
        RelatedView {
            id: (top_related_id(view.related) + 1) as i64,
            repo_id: a,
            related_repo_id: b,
            shared_refs: seq![],
            resolution: Some(resolution),
        }
    };
    lemma_pair_put(view, row);
}

/// Resolving a suggestion keeps the rows tidy.
pub proof fn resolving_keeps_rows_tidy(view: RegistryView, i: int, resolution: Seq<char>)
    requires
        tidy(view),
        0 <= i < view.related.len(),
    ensures
        tidy(
            RegistryView {
                related: view.related.update(
                    i,
                    RelatedView { resolution: Some(resolution), ..view.related[i] },
                ),
                ..view
            },
        ),
{
    let row = RelatedView { resolution: Some(resolution), ..view.related[i] };
    lemma_put(view.related, related_key(), row, i);
    lemma_put(view.related, pair_key(), row, i);
}

proof fn lemma_successor_at(rows: Seq<(Seq<char>, LocatorView)>, old_ref: Seq<char>, i: int)
    requires
        0 <= i,
    ensures
        ({
            let k = successor_at(rows, old_ref, i);
            &&& k == -1 || (i <= k < rows.len() && rows[k].0 == old_ref)
            &&& k == -1 ==> forall|j: int| i <= j < rows.len() ==> (#[trigger] rows[j]).0 != old_ref
        }),
    decreases rows.len() - i,
{
    if i < rows.len() && rows[i].0 != old_ref {
        lemma_successor_at(rows, old_ref, i + 1);
    }
}

/// Recording the successor of a source keeps the rows tidy.
pub proof fn succeeding_keeps_rows_tidy(
    view: RegistryView,
    old_ref: Seq<char>,
    locator: LocatorView,
)
    requires
        tidy(view),
    ensures
        tidy(RegistryView { successors: succeeded(view.successors, old_ref, locator), ..view }),
{
    lemma_successor_at(view.successors, old_ref, 0);
    lemma_put(
        view.successors,
        successor_key(),
        (old_ref, locator),
        successor_at(view.successors, old_ref, 0),
    );
}

proof fn lemma_worktree_at(rows: Seq<WorktreeView>, path: Seq<char>, i: int)
    requires
        0 <= i,
    ensures
        ({
            let k = worktree_at(rows, path, i);
            &&& k == -1 || (i <= k < rows.len() && rows[k].path == path)
            &&& k == -1 ==> forall|j: int| i <= j < rows.len() ==> (#[trigger] rows[j]).path != path
        }),
    decreases rows.len() - i,
{
    if i < rows.len() && rows[i].path != path {
        lemma_worktree_at(rows, path, i + 1);
    }
}

/// Recording a worktree keeps the rows tidy.
pub proof fn worktrees_keep_rows_tidy(view: RegistryView, row: WorktreeView)
    requires
        tidy(view),
        known(view.repos, row.repo_id),
    ensures
        tidy(RegistryView { worktrees: with_worktree(view.worktrees, row), ..view }),
{
    lemma_worktree_at(view.worktrees, row.path, 0);
    lemma_put(view.worktrees, worktree_key(), row, worktree_at(view.worktrees, row.path, 0));
}

/// Recording a fetch keeps the rows tidy.
pub proof fn fetching_keeps_rows_tidy(
    view: RegistryView,
    id: i64,
    now: i64,
    minimum: int,
    changed: bool,
    error: Option<Seq<char>>,
)
    requires
        tidy(view),
        known(view.repos, id),
    ensures
        tidy(
            RegistryView {
                fetches: fetched(view.fetches, id, now, minimum, changed, error),
                ..view
            },
        ),
{
    let k = fetch_at(view.fetches, id, 0);
    let after = fetched(view.fetches, id, now, minimum, changed, error);
    lemma_fetch_at(view.fetches, id, 0);
    let row = if 0 <= k < view.fetches.len() {
        after[k]
    } else {
        after.last()
    };
    lemma_put(view.fetches, fetch_key(), row, k);
}

} // verus!
