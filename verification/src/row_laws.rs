//! What each change of the registry writes, row by row.
use crate::locator::LocatorView;
use crate::parents::{orphaned, with_both, with_fork, with_parent, RepoType};
use crate::registry::{
    dependent_resolution, lemma_keep, located, place_of, repo_id_for, top_repo_id, upserted,
    with_identity, without_parents, ForkRow, PlaceView, RecordView, RegistryView, RelatedView,
    RepoView, WorktreeView,
};
use crate::registry_relations::{
    forked, history_shared, pair_at, pair_resolved, succeeded, successor_at, with_worktree,
    worktree_at,
};
use crate::share::{with_repo, with_share};
use vstd::prelude::*;

verus! {

/// The number is larger than that of every repository.
pub open spec fn new_number(repos: Seq<RepoView>, id: i64) -> bool {
    id > 0 && forall|i: int| 0 <= i < repos.len() ==> (#[trigger] repos[i]).id < id
}

proof fn lemma_top(repos: Seq<RepoView>)
    ensures
        top_repo_id(repos) >= 0,
        forall|i: int| 0 <= i < repos.len() ==> (#[trigger] repos[i]).id <= top_repo_id(repos),
    decreases repos.len(),
{
    if repos.len() > 0 {
        let rest = repos.drop_last();
        lemma_top(rest);
        assert forall|i: int| 0 <= i < repos.len() implies (#[trigger] repos[i]).id
            <= top_repo_id(repos) by {
            if i < rest.len() {
                assert(rest[i] == repos[i]);
            }
        }
    }
}

proof fn lemma_identity(repos: Seq<RepoView>, identity: Seq<char>, i: int)
    requires
        0 <= i,
    ensures
        ({
            let k = with_identity(repos, identity, i);
            &&& k == -1 || (i <= k < repos.len() && repos[k].identity == identity)
            &&& k == -1 ==> forall|j: int|
                i <= j < repos.len() ==> (#[trigger] repos[j]).identity != identity
            &&& forall|j: int| i <= j < k ==> (#[trigger] repos[j]).identity != identity
        }),
    decreases repos.len() - i,
{
    if i < repos.len() && repos[i].identity != identity {
        lemma_identity(repos, identity, i + 1);
    }
}

/// A repository that is recorded again keeps its number and its identity, is at the
/// new path under the new locator, and keeps its canonical repository unless another
/// is named. No other repository changes.
pub proof fn known_repositories_are_updated(
    repos: Seq<RepoView>,
    k: int,
    locator: LocatorView,
    path: Seq<char>,
    canonical: Option<Seq<char>>,
)
    requires
        0 <= k < repos.len(),
        repos[k].identity == locator.authority + "/"@ + locator.remote_path,
        forall|j: int| 0 <= j < k ==> (#[trigger] repos[j]).identity != repos[k].identity,
    ensures
        ({
            let after = upserted(repos, locator, path, canonical);
            &&& after.len() == repos.len()
            &&& after[k].id == repos[k].id
            &&& after[k].identity == repos[k].identity
            &&& after[k].current == locator
            &&& after[k].path == path
            &&& canonical is Some ==> after[k].canonical_identity == canonical
            &&& canonical is None ==> after[k].canonical_identity == repos[k].canonical_identity
            &&& repo_id_for(repos, locator.key()) == repos[k].id
            &&& forall|j: int| 0 <= j < repos.len() && j != k ==> #[trigger] after[j] == repos[j]
        }),
{
    lemma_identity(repos, locator.key(), 0);
}

/// A repository that was not recorded before gets a number of its own and the
/// identity that its locator gives it. No other repository changes.
pub proof fn unknown_repositories_are_added(
    repos: Seq<RepoView>,
    locator: LocatorView,
    path: Seq<char>,
    canonical: Option<Seq<char>>,
)
    requires
        top_repo_id(repos) < i64::MAX,
        forall|j: int|
            0 <= j < repos.len() ==> (#[trigger] repos[j]).identity != locator.authority + "/"@
                + locator.remote_path,
    ensures
        ({
            let after = upserted(repos, locator, path, canonical);
            let last = after.last();
            &&& after.len() == repos.len() + 1
            &&& new_number(repos, last.id)
            &&& last.identity == locator.authority + "/"@ + locator.remote_path
            &&& last.current == locator
            &&& last.path == path
            &&& last.canonical_identity == canonical
            &&& repo_id_for(repos, locator.key()) == last.id
            &&& forall|j: int| 0 <= j < repos.len() ==> #[trigger] after[j] == repos[j]
        }),
{
    lemma_identity(repos, locator.key(), 0);
    lemma_top(repos);
}

proof fn lemma_place(rows: Seq<PlaceView>, id: i64, locator: LocatorView, i: int)
    requires
        0 <= i,
    ensures
        ({
            let k = place_of(rows, id, locator, i);
            k == -1 || (i <= k < rows.len() && rows[k].repo_id == id && rows[k].locator == locator)
        }),
    decreases rows.len() - i,
{
    if i < rows.len() && !(rows[i].repo_id == id && rows[i].locator == locator) {
        lemma_place(rows, id, locator, i + 1);
    }
}

/// Noting a locator of a repository changes no row of another, forgets none of its
/// own locators, and adds one row at most.
pub proof fn other_places_stay(
    rows: Seq<PlaceView>,
    id: i64,
    locator: LocatorView,
    path: Seq<char>,
    current: bool,
)
    ensures
        ({
            let after = located(rows, id, locator, path, current);
            &&& rows.len() <= after.len() <= rows.len() + 1
            &&& after.contains(PlaceView { repo_id: id, locator, path, current })
            &&& forall|j: int|
                0 <= j < rows.len() ==> (#[trigger] after[j]).repo_id == rows[j].repo_id
                    && after[j].locator == rows[j].locator
            &&& forall|j: int|
                0 <= j < rows.len() && rows[j].repo_id != id ==> #[trigger] after[j] == rows[j]
            &&& forall|j: int|
                0 <= j < rows.len() && rows[j].locator != locator ==> (#[trigger] after[j]).path
                    == rows[j].path
            &&& forall|j: int|
                0 <= j < rows.len() && rows[j].locator != locator ==> ((
                #[trigger] after[j]).current <==> rows[j].current && !(current && rows[j].repo_id
                    == id))
        }),
{
    let after = located(rows, id, locator, path, current);
    let base = if current {
        crate::registry::none_current(rows, id)
    } else {
        rows
    };
    let k = place_of(base, id, locator, 0);
    lemma_place(base, id, locator, 0);
    let at = if 0 <= k < base.len() {
        k
    } else {
        base.len() as int
    };
    assert(after[at] == (PlaceView { repo_id: id, locator, path, current }));
    assert forall|j: int| 0 <= j < rows.len() implies #[trigger] after[j] == after[j] && (j != at
        ==> after[j] == base[j]) && base[j].repo_id == rows[j].repo_id && base[j].locator
        == rows[j].locator by {}
}

proof fn lemma_pair(rows: Seq<RelatedView>, a: i64, b: i64, i: int)
    requires
        0 <= i,
    ensures
        ({
            let k = pair_at(rows, a, b, i);
            &&& k == -1 || (i <= k < rows.len() && rows[k].repo_id == a && rows[k].related_repo_id
                == b)
            &&& k == -1 ==> forall|j: int|
                i <= j < rows.len() ==> !((#[trigger] rows[j]).repo_id == a
                    && rows[j].related_repo_id == b)
            &&& forall|j: int|
                i <= j < k ==> !((#[trigger] rows[j]).repo_id == a && rows[j].related_repo_id == b)
        }),
    decreases rows.len() - i,
{
    if i < rows.len() && !(rows[i].repo_id == a && rows[i].related_repo_id == b) {
        lemma_pair(rows, a, b, i + 1);
    }
}

/// History that a known pair shares is noted in its row, and what is said of a known
/// pair too; neither touches the other, nor any other row.
pub proof fn known_pairs_are_updated(
    rows: Seq<RelatedView>,
    k: int,
    refs: Seq<Seq<char>>,
    resolution: Seq<char>,
)
    requires
        0 <= k < rows.len(),
        forall|j: int|
            0 <= j < k ==> !((#[trigger] rows[j]).repo_id == rows[k].repo_id
                && rows[j].related_repo_id == rows[k].related_repo_id),
    ensures
        ({
            let noted = history_shared(rows, rows[k].repo_id, rows[k].related_repo_id, refs);
            let said = pair_resolved(rows, rows[k].repo_id, rows[k].related_repo_id, resolution);
            &&& noted == rows.update(k, noted[k])
            &&& said == rows.update(k, said[k])
            &&& noted[k].shared_refs == refs
            &&& said[k].shared_refs == rows[k].shared_refs
            &&& noted[k].resolution == rows[k].resolution
            &&& said[k].resolution == Some(resolution)
            &&& noted[k].id == rows[k].id && said[k].id == rows[k].id
            &&& noted[k].repo_id == rows[k].repo_id && said[k].repo_id == rows[k].repo_id
            &&& noted[k].related_repo_id == rows[k].related_repo_id
            &&& said[k].related_repo_id == rows[k].related_repo_id
        }),
{
    lemma_pair(rows, rows[k].repo_id, rows[k].related_repo_id, 0);
    let noted = history_shared(rows, rows[k].repo_id, rows[k].related_repo_id, refs);
    let said = pair_resolved(rows, rows[k].repo_id, rows[k].related_repo_id, resolution);
    assert(noted =~= rows.update(k, noted[k]));
    assert(said =~= rows.update(k, said[k]));
}

/// A pair that was not known gets a row behind all others: with the history that it
/// shares and nothing said of it, or with what is said of it and no history.
pub proof fn unknown_pairs_are_added(
    rows: Seq<RelatedView>,
    a: i64,
    b: i64,
    refs: Seq<Seq<char>>,
    resolution: Seq<char>,
)
    requires
        forall|j: int|
            0 <= j < rows.len() ==> !((#[trigger] rows[j]).repo_id == a && rows[j].related_repo_id
                == b),
    ensures
        ({
            let noted = history_shared(rows, a, b, refs);
            let said = pair_resolved(rows, a, b, resolution);
            &&& noted == rows.push(noted.last())
            &&& said == rows.push(said.last())
            &&& noted.last().repo_id == a && noted.last().related_repo_id == b
            &&& said.last().repo_id == a && said.last().related_repo_id == b
            &&& noted.last().shared_refs == refs && noted.last().resolution is None
            &&& said.last().shared_refs.len() == 0 && said.last().resolution == Some(resolution)
        }),
{
    lemma_pair(rows, a, b, 0);
}

/// A fork is noted once, and no other is forgotten.
pub proof fn forks_are_noted_once(forks: Seq<ForkRow>, fork: i64, canonical: i64)
    ensures
        ({
            let row = ForkRow { fork_repo_id: fork, canonical_repo_id: canonical };
            let after = forked(forks, fork, canonical);
            &&& after.contains(row)
            &&& forall|r: ForkRow| forks.contains(r) ==> #[trigger] after.contains(r)
            &&& forall|r: ForkRow| #[trigger] after.contains(r) ==> r == row || forks.contains(r)
            &&& forks.contains(row) ==> after == forks
            &&& !forks.contains(row) ==> after.len() == forks.len() + 1
        }),
{
    let row = ForkRow { fork_repo_id: fork, canonical_repo_id: canonical };
    let after = forked(forks, fork, canonical);
    if !forks.contains(row) {
        assert(after[forks.len() as int] == row);
        assert forall|r: ForkRow| forks.contains(r) implies #[trigger] after.contains(r) by {
            let i = choose|i: int| 0 <= i < forks.len() && forks[i] == r;
            assert(after[i] == r);
        }
        assert forall|r: ForkRow| #[trigger] after.contains(r) implies r == row
            || forks.contains(r) by {
            let i = choose|i: int| 0 <= i < after.len() && after[i] == r;
            if i < forks.len() {
                assert(forks[i] == r);
            }
        }
    }
}

proof fn lemma_successor(rows: Seq<(Seq<char>, LocatorView)>, old_ref: Seq<char>, i: int)
    requires
        0 <= i,
    ensures
        ({
            let k = successor_at(rows, old_ref, i);
            &&& k == -1 || (i <= k < rows.len() && rows[k].0 == old_ref)
            &&& k == -1 ==> forall|j: int|
                i <= j < rows.len() ==> (#[trigger] rows[j]).0 != old_ref
        }),
    decreases rows.len() - i,
{
    if i < rows.len() && rows[i].0 != old_ref {
        lemma_successor(rows, old_ref, i + 1);
    }
}

/// What an old name leads to is noted; what other names lead to stays.
pub proof fn old_names_lead_to_the_successor(
    rows: Seq<(Seq<char>, LocatorView)>,
    old_ref: Seq<char>,
    locator: LocatorView,
)
    ensures
        ({
            let after = succeeded(rows, old_ref, locator);
            &&& after.contains((old_ref, locator))
            &&& rows.len() <= after.len() <= rows.len() + 1
            &&& forall|j: int|
                0 <= j < rows.len() && rows[j].0 != old_ref ==> #[trigger] after[j] == rows[j]
            &&& after.len() > rows.len() <==> forall|j: int|
                0 <= j < rows.len() ==> (#[trigger] rows[j]).0 != old_ref
        }),
{
    let after = succeeded(rows, old_ref, locator);
    let k = successor_at(rows, old_ref, 0);
    lemma_successor(rows, old_ref, 0);
    let at = if 0 <= k < rows.len() {
        k
    } else {
        rows.len() as int
    };
    assert(after[at] == (old_ref, locator));
}

proof fn lemma_worktree(rows: Seq<WorktreeView>, path: Seq<char>, i: int)
    requires
        0 <= i,
    ensures
        ({
            let k = worktree_at(rows, path, i);
            &&& k == -1 || (i <= k < rows.len() && rows[k].path == path)
            &&& k == -1 ==> forall|j: int|
                i <= j < rows.len() ==> (#[trigger] rows[j]).path != path
        }),
    decreases rows.len() - i,
{
    if i < rows.len() && rows[i].path != path {
        lemma_worktree(rows, path, i + 1);
    }
}

/// A worktree is noted as it is told, in place of what stood at its path; the rows of
/// other paths stay.
pub proof fn worktrees_are_noted_by_path(rows: Seq<WorktreeView>, row: WorktreeView)
    ensures
        ({
            let after = with_worktree(rows, row);
            &&& after.contains(row)
            &&& rows.len() <= after.len() <= rows.len() + 1
            &&& forall|j: int|
                0 <= j < rows.len() && rows[j].path != row.path ==> #[trigger] after[j] == rows[j]
            &&& after.len() > rows.len() <==> forall|j: int|
                0 <= j < rows.len() ==> (#[trigger] rows[j]).path != row.path
        }),
{
    let after = with_worktree(rows, row);
    let k = worktree_at(rows, row.path, 0);
    lemma_worktree(rows, row.path, 0);
    let at = if 0 <= k < rows.len() {
        k
    } else {
        rows.len() as int
    };
    assert(after[at] == row);
}

/// A repository that loses its parents loses its rows as a fork, what was said of it
/// as a fork or mirror, and its canonical repository. Nothing else changes.
pub proof fn clearing_takes_the_parents_alone(view: RegistryView, id: i64)
    ensures
        ({
            let after = without_parents(view, id);
            &&& after.repos.len() == view.repos.len()
            &&& forall|k: int|
                0 <= k < view.repos.len() ==> {
                    &&& (#[trigger] after.repos[k]).id == view.repos[k].id
                    &&& after.repos[k].identity == view.repos[k].identity
                    &&& after.repos[k].current == view.repos[k].current
                    &&& after.repos[k].path == view.repos[k].path
                    &&& view.repos[k].id == id ==> after.repos[k].canonical_identity is None
                    &&& view.repos[k].id != id ==> after.repos[k].canonical_identity
                        == view.repos[k].canonical_identity
                }
            &&& forall|r: ForkRow| #[trigger]
                after.forks.contains(r) <==> view.forks.contains(r) && r.fork_repo_id != id
            &&& forall|r: RelatedView| #[trigger]
                after.related.contains(r) <==> view.related.contains(r) && !(r.repo_id == id && (
                r.resolution == Some("fork"@) || r.resolution == Some("mirror"@)))
            &&& after.locators == view.locators
            &&& after.aliases == view.aliases
            &&& after.successors == view.successors
            &&& after.worktrees == view.worktrees
            &&& after.fetches == view.fetches
        }),
{
    lemma_keep(view.forks, |r: ForkRow| r.fork_repo_id != id);
    lemma_keep(
        view.related,
        |r: RelatedView| !(r.repo_id == id && dependent_resolution(r.resolution)),
    );
}

/// The repository with the number is under the locator at the path, and has the
/// canonical repository.
pub open spec fn recorded_as(
    repos: Seq<RepoView>,
    id: i64,
    place: (LocatorView, Seq<char>),
    canonical: Option<Seq<char>>,
) -> bool {
    exists|k: int|
        0 <= k < repos.len() && (#[trigger] repos[k]).id == id && repos[k].current == place.0
            && repos[k].path == place.1 && repos[k].canonical_identity == canonical
}

/// The repository with the number is under the locator at the path.
pub open spec fn recorded_at(repos: Seq<RepoView>, id: i64, place: (LocatorView, Seq<char>)) -> bool {
    exists|k: int|
        0 <= k < repos.len() && (#[trigger] repos[k]).id == id && repos[k].current == place.0
            && repos[k].path == place.1
}

/// A row says of one repository what it is of another.
pub open spec fn said_of(rows: Seq<RelatedView>, a: i64, b: i64, resolution: Seq<char>) -> bool {
    exists|k: int|
        0 <= k < rows.len() && (#[trigger] rows[k]).repo_id == a && rows[k].related_repo_id == b
            && rows[k].resolution == Some(resolution)
}

/// Only repositories and their places, forks and what is said of pairs differ.
pub open spec fn rest_stays(before: RegistryView, after: RegistryView) -> bool {
    &&& after.aliases == before.aliases
    &&& after.successors == before.successors
    &&& after.worktrees == before.worktrees
    &&& after.fetches == before.fetches
}

/// What the registry says of a fork or mirror and of its canonical repository.
pub open spec fn says_shared(
    before: RegistryView,
    after: RegistryView,
    dependent_id: i64,
    controlling_id: i64,
    dependent: (LocatorView, Seq<char>),
    controlling: (LocatorView, Seq<char>),
    relationship: Seq<char>,
    notes_mirrors: bool,
) -> bool {
    let key = controlling.0.authority + "/"@ + controlling.0.remote_path;
    let row = ForkRow { fork_repo_id: dependent_id, canonical_repo_id: controlling_id };
    &&& recorded_as(after.repos, dependent_id, dependent, Some(key))
    &&& recorded_at(after.repos, controlling_id, controlling)
    &&& relationship == "fork"@ ==> after.forks.contains(row) && after.related == before.related
    &&& relationship != "fork"@ ==> after.forks == before.forks
    &&& relationship != "fork"@ && notes_mirrors ==> said_of(
        after.related,
        dependent_id,
        controlling_id,
        relationship,
    )
    &&& relationship != "fork"@ && !notes_mirrors ==> after.related == before.related
}

proof fn lemma_said(rows: Seq<RelatedView>, a: i64, b: i64, resolution: Seq<char>)
    ensures
        said_of(pair_resolved(rows, a, b, resolution), a, b, resolution),
{
    let k = pair_at(rows, a, b, 0);
    lemma_pair(rows, a, b, 0);
    let after = pair_resolved(rows, a, b, resolution);
    let at = if 0 <= k < rows.len() {
        k
    } else {
        rows.len() as int
    };
    assert(after[at].repo_id == a && after[at].related_repo_id == b && after[at].resolution
        == Some(resolution));
}

/// The index of a repository that was just recorded.
pub proof fn lemma_recorded(
    repos: Seq<RepoView>,
    locator: LocatorView,
    path: Seq<char>,
    canonical: Option<Seq<char>>,
) -> (at: int)
    ensures
        ({
            let after = upserted(repos, locator, path, canonical);
            &&& 0 <= at < after.len()
            &&& after[at].id == repo_id_for(repos, locator.key())
            &&& after[at].identity == locator.key()
            &&& after[at].current == locator
            &&& after[at].path == path
            &&& canonical is Some ==> after[at].canonical_identity == canonical
            &&& after.len() >= repos.len()
            &&& forall|j: int| 0 <= j < repos.len() && j != at ==> #[trigger] after[j] == repos[j]
            &&& at == repos.len() || repos[at].identity == locator.key()
            &&& at < repos.len() ==> after[at].id == repos[at].id
        }),
{
    let k = with_identity(repos, locator.key(), 0);
    lemma_identity(repos, locator.key(), 0);
    if 0 <= k < repos.len() {
        k
    } else {
        repos.len() as int
    }
}

/// When a fork or mirror shares the Git directory of another repository, the registry
/// has both where they are, the one below the other. Of a fork it has a row that names
/// it first and the other second. Of a mirror it says so where that is wanted.
pub proof fn shared_repositories_are_recorded(
    view: RegistryView,
    dependent: (LocatorView, Seq<char>),
    controlling: (LocatorView, Seq<char>),
    relationship: Seq<char>,
    notes_mirrors: bool,
)
    requires
        dependent.0.authority + "/"@ + dependent.0.remote_path != controlling.0.authority + "/"@
            + controlling.0.remote_path,
    ensures
        ({
            let after = with_share(view, dependent, controlling, relationship, notes_mirrors);
            &&& rest_stays(view, after)
            &&& exists|d: i64, c: i64| #[trigger]
                says_shared(
                    view,
                    after,
                    d,
                    c,
                    dependent,
                    controlling,
                    relationship,
                    notes_mirrors,
                )
        }),
{
    let key = controlling.0.key();
    let first = with_repo(view, controlling.0, controlling.1, None);
    let second = with_repo(first, dependent.0, dependent.1, Some(key));
    let after = with_share(view, dependent, controlling, relationship, notes_mirrors);
    let c = repo_id_for(view.repos, key);
    let d = repo_id_for(first.repos, dependent.0.key());
    let i = lemma_recorded(view.repos, controlling.0, controlling.1, None);
    let j = lemma_recorded(first.repos, dependent.0, dependent.1, Some(key));
    assert(i != j);
    assert(second.repos[i] == first.repos[i]);
    assert(after.repos[i].id == c && after.repos[j].id == d);
    forks_are_noted_once(second.forks, d, c);
    lemma_said(second.related, d, c, relationship);
    assert(says_shared(view, after, d, c, dependent, controlling, relationship, notes_mirrors));
}

/// What the registry says of a new fork.
pub open spec fn says_forked(
    before: RegistryView,
    after: RegistryView,
    id: i64,
    fork: (LocatorView, Seq<char>),
    parent: (RecordView, RecordView),
) -> bool {
    let key = parent.1.current.authority + "/"@ + parent.1.current.remote_path;
    let row = ForkRow { fork_repo_id: id, canonical_repo_id: parent.0.id };
    &&& recorded_as(after.repos, id, fork, Some(key))
    &&& after.forks.contains(row)
    &&& forall|r: ForkRow| before.forks.contains(r) ==> #[trigger] after.forks.contains(r)
    &&& forall|r: ForkRow| #[trigger] after.forks.contains(r) ==> r == row || before.forks.contains(r)
}

/// A new fork is recorded where it is, as a fork of its parent, below the repository
/// that keeps the Git directory, which is recorded too. Nothing is said of mirrors.
pub proof fn new_forks_have_their_parent(
    view: RegistryView,
    fork: (LocatorView, Seq<char>),
    parent: (RecordView, RecordView),
)
    requires
        fork.0.authority + "/"@ + fork.0.remote_path != parent.1.current.authority + "/"@
            + parent.1.current.remote_path,
    ensures
        ({
            let after = with_fork(view, fork, parent);
            &&& rest_stays(view, after)
            &&& after.related == view.related
            &&& exists|id: i64| #[trigger] says_forked(view, after, id, fork, parent)
            &&& exists|id: i64| #[trigger]
                recorded_at(after.repos, id, (parent.1.current, parent.1.path))
        }),
{
    let key = parent.1.current.key();
    let first = with_repo(view, parent.1.current, parent.1.path, None);
    let second = with_both(view, fork, parent);
    let after = with_fork(view, fork, parent);
    let c = repo_id_for(view.repos, key);
    let d = repo_id_for(first.repos, fork.0.key());
    let i = lemma_recorded(view.repos, parent.1.current, parent.1.path, None);
    let j = lemma_recorded(first.repos, fork.0, fork.1, Some(key));
    assert(i != j);
    assert(second.repos[i] == first.repos[i]);
    assert(after.repos[i].id == c && after.repos[j].id == d);
    forks_are_noted_once(second.forks, d, parent.0.id);
    assert(says_forked(view, after, d, fork, parent));
    assert(recorded_at(after.repos, c, (parent.1.current, parent.1.path)));
}

/// A repository that becomes a fork or mirror of a fork has this one as its only
/// parent.
pub open spec fn says_child(
    after: RegistryView,
    id: i64,
    repo: RecordView,
    parent: (RecordView, RecordView),
    repo_type: RepoType,
) -> bool {
    let row = ForkRow { fork_repo_id: id, canonical_repo_id: parent.0.id };
    &&& recorded_as(after.repos, id, (repo.current, repo.path), None)
    &&& forall|r: ForkRow| #[trigger]
        after.forks.contains(r) && r.fork_repo_id == id ==> repo_type == RepoType::Fork && r == row
    &&& repo_type == RepoType::Fork ==> after.forks.contains(row)
    &&& repo_type != RepoType::Fork ==> said_of(after.related, id, parent.0.id, "mirror"@)
}

/// Where a repository becomes a fork or mirror of a fork, the registry has it where it
/// is, with the fork as its only parent.
pub proof fn changed_types_have_one_parent(
    view: RegistryView,
    repo: RecordView,
    parent: (RecordView, RecordView),
    repo_type: RepoType,
)
    ensures
        ({
            let after = with_parent(view, repo, parent, repo_type);
            &&& rest_stays(view, after)
            &&& exists|id: i64| #[trigger] says_child(after, id, repo, parent, repo_type)
        }),
{
    let key = parent.1.current.key();
    let first = with_repo(view, repo.current, repo.path, Some(key));
    let cleared = orphaned(view, repo, parent);
    let after = with_parent(view, repo, parent, repo_type);
    let id = repo_id_for(view.repos, repo.current.key());
    let i = lemma_recorded(view.repos, repo.current, repo.path, Some(key));
    clearing_takes_the_parents_alone(first, id);
    assert(cleared.repos[i].id == id);
    assert(after.repos[i].id == id);
    forks_are_noted_once(cleared.forks, id, parent.0.id);
    lemma_said(cleared.related, id, parent.0.id, "mirror"@);
    assert(says_child(after, id, repo, parent, repo_type));
}

} // verus!
