//! What every change of the registry keeps, and what follows from each.
use crate::locator::{placed, LocatorView};
use crate::moves::{alias_paths, alias_views, has_path, AliasPlan, MovePlan};
use crate::paths::path_eq;
use crate::placement::aliases_cover_the_old_places;
use crate::registry::{
    alias_at, aliased, all_aliased, answers_to, dependent_resolution, first_answering, keep, known,
    lemma_keep, located, locators_of, moved, none_current, place_of, repo_id_for, top_repo_id,
    upserted, with_identity, without_parents, without_repo, AliasView, FetchView, ForkRow,
    PlaceView, RegistryView, RelatedView, RepoView, WorktreeView,
};
use crate::registry_relations::{
    add_link, add_links, all_links, confirmed_links, fork_link, history_shared, larger, link_slot,
    pair_at, smaller, sorted_forks, suggestion_link, suggestion_of, suggestions, unresolved,
};
use crate::relations::LinkView;
use crate::share::with_repo;
use vstd::prelude::*;

verus! {

/// Each repository has its own number and its own identity.
pub open spec fn own_numbers(repos: Seq<RepoView>) -> bool {
    forall|i: int, j: int|
        0 <= i < j < repos.len() ==> (#[trigger] repos[i]).id != (#[trigger] repos[j]).id
            && repos[i].identity != repos[j].identity
}

/// A repository has each locator once, and at most one of them is the current one.
pub open spec fn own_places(rows: Seq<PlaceView>) -> bool {
    forall|i: int, j: int|
        0 <= i < j < rows.len() && (#[trigger] rows[i]).repo_id == (#[trigger] rows[j]).repo_id
            ==> rows[i].locator != rows[j].locator && !(rows[i].current && rows[j].current)
}

/// A path is an alias once.
pub open spec fn own_aliases(rows: Seq<AliasView>) -> bool {
    forall|i: int, j: int|
        0 <= i < j < rows.len() ==> (#[trigger] rows[i]).alias_path != (
        #[trigger] rows[j]).alias_path
}

/// What every change of the registry keeps.
pub open spec fn sound(view: RegistryView) -> bool {
    own_numbers(view.repos) && own_places(view.locators) && own_aliases(view.aliases)
}

proof fn lemma_top_is_top(repos: Seq<RepoView>)
    ensures
        top_repo_id(repos) >= 0,
        forall|i: int| 0 <= i < repos.len() ==> (#[trigger] repos[i]).id <= top_repo_id(repos),
    decreases repos.len(),
{
    if repos.len() > 0 {
        let rest = repos.drop_last();
        lemma_top_is_top(rest);
        assert forall|i: int| 0 <= i < repos.len() implies (#[trigger] repos[i]).id
            <= top_repo_id(repos) by {
            if i < rest.len() {
                assert(rest[i] == repos[i]);
            }
        }
    }
}

proof fn lemma_with_identity(repos: Seq<RepoView>, identity: Seq<char>, i: int)
    requires
        0 <= i,
    ensures
        with_identity(repos, identity, i) == -1 || (i <= with_identity(repos, identity, i)
            < repos.len() && repos[with_identity(repos, identity, i)].identity == identity),
        with_identity(repos, identity, i) == -1 ==> forall|k: int|
            i <= k < repos.len() ==> (#[trigger] repos[k]).identity != identity,
    decreases repos.len() - i,
{
    if i < repos.len() && repos[i].identity != identity {
        lemma_with_identity(repos, identity, i + 1);
    }
}

proof fn lemma_place_of(rows: Seq<PlaceView>, id: i64, locator: LocatorView, i: int)
    requires
        0 <= i,
    ensures
        ({
            let k = place_of(rows, id, locator, i);
            &&& k == -1 || (i <= k < rows.len() && rows[k].repo_id == id && rows[k].locator
                == locator)
            &&& k == -1 ==> forall|j: int|
                i <= j < rows.len() ==> !((#[trigger] rows[j]).repo_id == id && rows[j].locator
                    == locator)
        }),
    decreases rows.len() - i,
{
    if i < rows.len() && !(rows[i].repo_id == id && rows[i].locator == locator) {
        lemma_place_of(rows, id, locator, i + 1);
    }
}

proof fn lemma_alias_at(rows: Seq<AliasView>, path: Seq<char>, i: int)
    requires
        0 <= i,
    ensures
        ({
            let k = alias_at(rows, path, i);
            &&& k == -1 || (i <= k < rows.len() && rows[k].alias_path == path)
            &&& k == -1 ==> forall|j: int|
                i <= j < rows.len() ==> (#[trigger] rows[j]).alias_path != path
        }),
    decreases rows.len() - i,
{
    if i < rows.len() && rows[i].alias_path != path {
        lemma_alias_at(rows, path, i + 1);
    }
}

proof fn lemma_located_keeps(
    rows: Seq<PlaceView>,
    id: i64,
    locator: LocatorView,
    path: Seq<char>,
    current: bool,
)
    requires
        own_places(rows),
    ensures
        own_places(located(rows, id, locator, path, current)),
{
    let base = if current {
        none_current(rows, id)
    } else {
        rows
    };
    let k = place_of(base, id, locator, 0);
    lemma_place_of(base, id, locator, 0);
    let after = located(rows, id, locator, path, current);
    assert forall|i: int| 0 <= i < rows.len() implies {
        &&& (#[trigger] base[i]).repo_id == rows[i].repo_id
        &&& base[i].locator == rows[i].locator
        &&& base[i].current ==> rows[i].current
        &&& current && rows[i].repo_id == id ==> !base[i].current
    } by {}
    assert forall|i: int, j: int|
        0 <= i < j < after.len() && (#[trigger] after[i]).repo_id == (
        #[trigger] after[j]).repo_id implies after[i].locator != after[j].locator && !(
    after[i].current && after[j].current) by {
        if i < rows.len() && j < rows.len() {
            assert(rows[i].repo_id == base[i].repo_id);
            assert(rows[j].repo_id == base[j].repo_id);
            if i == k {
                assert(after[j] == base[j]);
            } else if j == k {
                assert(after[i] == base[i]);
            } else {
                assert(after[i] == base[i]);
                assert(after[j] == base[j]);
            }
        } else {
            assert(after[i] == base[i]);
        }
    }
}

/// The place that a repository is recorded at is its current one, and its only
/// current one.
pub proof fn the_last_place_is_current(
    rows: Seq<PlaceView>,
    id: i64,
    locator: LocatorView,
    path: Seq<char>,
)
    ensures
        ({
            let after = located(rows, id, locator, path, true);
            exists|k: int|
                0 <= k < after.len() && #[trigger] after[k] == (PlaceView {
                    repo_id: id,
                    locator,
                    path,
                    current: true,
                }) && forall|j: int|
                    0 <= j < after.len() && j != k && (#[trigger] after[j]).repo_id == id
                        ==> !after[j].current
        }),
{
    let base = none_current(rows, id);
    let k = place_of(base, id, locator, 0);
    lemma_place_of(base, id, locator, 0);
    let after = located(rows, id, locator, path, true);
    let at = if 0 <= k < base.len() {
        k
    } else {
        base.len() as int
    };
    assert(after[at] == (PlaceView { repo_id: id, locator, path, current: true }));
    assert forall|j: int| 0 <= j < after.len() && j != at && (#[trigger] after[j]).repo_id
        == id implies !after[j].current by {
        assert(after[j] == base[j]);
    }
}

/// Recording a repository keeps the registry sound.
pub proof fn recording_keeps_the_registry_sound(
    view: RegistryView,
    locator: LocatorView,
    path: Seq<char>,
    canonical_identity: Option<Seq<char>>,
)
    requires
        sound(view),
        top_repo_id(view.repos) < i64::MAX,
    ensures
        sound(with_repo(view, locator, path, canonical_identity)),
{
    let repos = view.repos;
    let after = upserted(repos, locator, path, canonical_identity);
    let k = with_identity(repos, locator.key(), 0);
    lemma_with_identity(repos, locator.key(), 0);
    lemma_top_is_top(repos);
    assert forall|i: int, j: int| 0 <= i < j < after.len() implies (#[trigger] after[i]).id != (
    #[trigger] after[j]).id && after[i].identity != after[j].identity by {
        if j < repos.len() {
            assert(after[i].id == repos[i].id && after[i].identity == repos[i].identity);
            assert(after[j].id == repos[j].id && after[j].identity == repos[j].identity);
        } else {
            assert(after[i] == repos[i]);
        }
    }
    lemma_located_keeps(
        view.locators,
        repo_id_for(repos, locator.key()),
        locator,
        path,
        true,
    );
}

proof fn lemma_aliased_keeps(rows: Seq<AliasView>, id: i64, path: Seq<char>, target: Seq<char>)
    requires
        own_aliases(rows),
    ensures
        own_aliases(aliased(rows, id, path, target)),
{
    let k = alias_at(rows, path, 0);
    lemma_alias_at(rows, path, 0);
    let after = aliased(rows, id, path, target);
    assert forall|i: int, j: int| 0 <= i < j < after.len() implies (
    #[trigger] after[i]).alias_path != (#[trigger] after[j]).alias_path by {
        if j < rows.len() {
            assert(after[i].alias_path == rows[i].alias_path);
            assert(after[j].alias_path == rows[j].alias_path);
        } else {
            assert(after[i] == rows[i]);
        }
    }
}

proof fn lemma_all_aliased_keeps(rows: Seq<AliasView>, id: i64, aliases: Seq<AliasPlan>)
    requires
        own_aliases(rows),
    ensures
        own_aliases(all_aliased(rows, id, aliases)),
    decreases aliases.len(),
{
    if aliases.len() > 0 {
        lemma_all_aliased_keeps(rows, id, aliases.drop_last());
        lemma_aliased_keeps(
            all_aliased(rows, id, aliases.drop_last()),
            id,
            aliases.last().alias_path@,
            aliases.last().target_path@,
        );
    }
}

/// Moving a repository keeps the registry sound.
pub proof fn moving_keeps_the_registry_sound(view: RegistryView, id: i64, plan: MovePlan)
    requires
        sound(view),
    ensures
        sound(moved(view, id, plan)),
{
    let after = moved(view, id, plan);
    assert forall|i: int, j: int| 0 <= i < j < after.repos.len() implies (
    #[trigger] after.repos[i]).id != (#[trigger] after.repos[j]).id && after.repos[i].identity
        != after.repos[j].identity by {
        assert(after.repos[i].id == view.repos[i].id);
        assert(after.repos[j].id == view.repos[j].id);
    }
    lemma_located_keeps(view.locators, id, plan.old_locator@, plan.old_path@, false);
    lemma_located_keeps(
        located(view.locators, id, plan.old_locator@, plan.old_path@, false),
        id,
        plan.new_locator@,
        plan.new_path@,
        true,
    );
    lemma_all_aliased_keeps(view.aliases, id, plan.aliases@);
}

/// Clearing the parents of a repository keeps the registry sound.
pub proof fn clearing_keeps_the_registry_sound(view: RegistryView, id: i64)
    requires
        sound(view),
    ensures
        sound(without_parents(view, id)),
{
    let after = without_parents(view, id);
    assert forall|i: int, j: int| 0 <= i < j < after.repos.len() implies (
    #[trigger] after.repos[i]).id != (#[trigger] after.repos[j]).id && after.repos[i].identity
        != after.repos[j].identity by {
        assert(after.repos[i].id == view.repos[i].id);
        assert(after.repos[j].id == view.repos[j].id);
    }
}

/// What is kept of rows stands in the order in which they stood.
pub proof fn lemma_keep_pair<T>(s: Seq<T>, p: spec_fn(T) -> bool, i: int, j: int) -> (r: (int, int))
    requires
        0 <= i < j < keep(s, p).len(),
    ensures
        0 <= r.0 < r.1 < s.len(),
        s[r.0] == keep(s, p)[i],
        s[r.1] == keep(s, p)[j],
    decreases s.len(),
{
    let rest = s.drop_last();
    let kept = keep(rest, p);
    if j < kept.len() {
        let (a, b) = lemma_keep_pair(rest, p, i, j);
        assert(s[a] == rest[a] && s[b] == rest[b]);
        assert(keep(s, p)[i] == kept[i] && keep(s, p)[j] == kept[j]);
        (a, b)
    } else {
        lemma_keep(rest, p);
        assert(rest.contains(kept[i]));
        let a = choose|a: int| 0 <= a < rest.len() && rest[a] == kept[i];
        assert(s[a] == rest[a]);
        (a, s.len() - 1)
    }
}

/// Deleting a repository keeps the registry sound.
pub proof fn deleting_keeps_the_registry_sound(view: RegistryView, id: i64)
    requires
        sound(view),
    ensures
        sound(without_repo(view, id)),
{
    let after = without_repo(view, id);
    assert forall|i: int, j: int| 0 <= i < j < after.repos.len() implies (
    #[trigger] after.repos[i]).id != (#[trigger] after.repos[j]).id && after.repos[i].identity
        != after.repos[j].identity by {
        let (a, b) = lemma_keep_pair(view.repos, |r: RepoView| r.id != id, i, j);
        assert(view.repos[a].id != view.repos[b].id);
    }
    assert forall|i: int, j: int|
        0 <= i < j < after.locators.len() && (#[trigger] after.locators[i]).repo_id == (
        #[trigger] after.locators[j]).repo_id implies after.locators[i].locator
        != after.locators[j].locator && !(after.locators[i].current
        && after.locators[j].current) by {
        let (a, b) = lemma_keep_pair(view.locators, |r: PlaceView| r.repo_id != id, i, j);
        assert(view.locators[a].repo_id == view.locators[b].repo_id);
    }
    assert forall|i: int, j: int| 0 <= i < j < after.aliases.len() implies (
    #[trigger] after.aliases[i]).alias_path != (#[trigger] after.aliases[j]).alias_path by {
        let (a, b) = lemma_keep_pair(view.aliases, |r: AliasView| r.repo_id != id, i, j);
        assert(view.aliases[a].alias_path != view.aliases[b].alias_path);
    }
}

/// No row speaks of a repository.
pub open spec fn forgotten(view: RegistryView, id: i64) -> bool {
    &&& forall|i: int| 0 <= i < view.repos.len() ==> (#[trigger] view.repos[i]).id != id
    &&& forall|i: int| 0 <= i < view.locators.len() ==> (#[trigger] view.locators[i]).repo_id != id
    &&& forall|i: int| 0 <= i < view.aliases.len() ==> (#[trigger] view.aliases[i]).repo_id != id
    &&& forall|i: int|
        0 <= i < view.forks.len() ==> (#[trigger] view.forks[i]).fork_repo_id != id
            && view.forks[i].canonical_repo_id != id
    &&& forall|i: int|
        0 <= i < view.related.len() ==> (#[trigger] view.related[i]).repo_id != id
            && view.related[i].related_repo_id != id
    &&& forall|i: int|
        0 <= i < view.worktrees.len() ==> (#[trigger] view.worktrees[i]).repo_id != id
    &&& forall|i: int| 0 <= i < view.fetches.len() ==> (#[trigger] view.fetches[i]).repo_id != id
}

/// A repository that is deleted leaves nothing behind, and every other repository
/// stays.
pub proof fn deleted_repositories_are_forgotten(view: RegistryView, id: i64)
    ensures
        forgotten(without_repo(view, id), id),
        forall|repo: RepoView|
            view.repos.contains(repo) && repo.id != id ==> #[trigger] without_repo(
                view,
                id,
            ).repos.contains(repo),
{
    lemma_keep(view.repos, |r: RepoView| r.id != id);
    lemma_keep(view.locators, |r: PlaceView| r.repo_id != id);
    lemma_keep(view.aliases, |r: AliasView| r.repo_id != id);
    lemma_keep(view.forks, |r: ForkRow| r.fork_repo_id != id && r.canonical_repo_id != id);
    lemma_keep(view.related, |r: RelatedView| r.repo_id != id && r.related_repo_id != id);
    lemma_keep(view.worktrees, |r: WorktreeView| r.repo_id != id);
    lemma_keep(view.fetches, |r: FetchView| r.repo_id != id);
}

/// The rows still have a locator that they had of a repository, whatever locator is
/// recorded.
proof fn lemma_located_remembers(
    rows: Seq<PlaceView>,
    id: i64,
    locator: LocatorView,
    path: Seq<char>,
    current: bool,
    i: int,
) -> (k: int)
    requires
        0 <= i < rows.len(),
    ensures
        0 <= k < located(rows, id, locator, path, current).len(),
        located(rows, id, locator, path, current)[k].repo_id == rows[i].repo_id,
        located(rows, id, locator, path, current)[k].locator == rows[i].locator,
{
    let base = if current {
        none_current(rows, id)
    } else {
        rows
    };
    lemma_place_of(base, id, locator, 0);
    assert(base[i].repo_id == rows[i].repo_id && base[i].locator == rows[i].locator);
    i
}

proof fn lemma_located_has(
    rows: Seq<PlaceView>,
    id: i64,
    locator: LocatorView,
    path: Seq<char>,
    current: bool,
) -> (k: int)
    ensures
        0 <= k < located(rows, id, locator, path, current).len(),
        located(rows, id, locator, path, current)[k] == (PlaceView {
            repo_id: id,
            locator,
            path,
            current,
        }),
{
    let base = if current {
        none_current(rows, id)
    } else {
        rows
    };
    lemma_place_of(base, id, locator, 0);
    let at = place_of(base, id, locator, 0);
    if 0 <= at < base.len() {
        at
    } else {
        base.len() as int
    }
}

/// Some recorded alias leads from the path to the target.
pub open spec fn leads(rows: Seq<AliasView>, path: Seq<char>, target: Seq<char>) -> bool {
    exists|i: int|
        0 <= i < rows.len() && path_eq((#[trigger] rows[i]).alias_path, path)
            && rows[i].target_path == target
}

proof fn lemma_all_lead(
    rows: Seq<AliasView>,
    id: i64,
    aliases: Seq<AliasPlan>,
    target: Seq<char>,
    k: int,
)
    requires
        0 <= k < aliases.len(),
        forall|i: int| 0 <= i < aliases.len() ==> (#[trigger] aliases[i]).target_path@ == target,
    ensures
        leads(all_aliased(rows, id, aliases), aliases[k].alias_path@, target),
    decreases aliases.len(),
{
    let before = all_aliased(rows, id, aliases.drop_last());
    let after = all_aliased(rows, id, aliases);
    let path = aliases.last().alias_path@;
    let wanted = aliases[k].alias_path@;
    lemma_alias_at(before, path, 0);
    let at = alias_at(before, path, 0);
    if k == aliases.len() - 1 {
        let w = if at >= 0 {
            at
        } else {
            before.len() as int
        };
        assert(after[w].alias_path == wanted);
        assert(after[w].target_path == target);
    } else {
        lemma_all_lead(rows, id, aliases.drop_last(), target, k);
        assert(aliases.drop_last()[k] == aliases[k]);
        let w = choose|i: int|
            0 <= i < before.len() && path_eq((#[trigger] before[i]).alias_path, wanted)
                && before[i].target_path == target;
        assert(after[w].alias_path == before[w].alias_path);
        assert(after[w].target_path == target);
    }
}

/// Once a repository has moved, an alias leads from every place that it has had,
/// unless that is the new place, to the new place itself, however often it moved
/// before.
pub proof fn old_places_lead_to_the_new_one(
    view: RegistryView,
    id: i64,
    plan: MovePlan,
    root: Seq<char>,
    k: int,
)
    requires
        alias_views(plan.aliases@) == alias_paths(
            root,
            locators_of(view.locators, id).push(plan.old_locator@),
            plan.new_path@,
        ),
        forall|i: int|
            0 <= i < plan.aliases@.len() ==> (#[trigger] plan.aliases@[i]).target_path@
                == plan.new_path@,
        0 <= k <= locators_of(view.locators, id).len(),
    ensures
        ({
            let place = placed(root, locators_of(view.locators, id).push(plan.old_locator@)[k]);
            path_eq(place, plan.new_path@) || leads(
                moved(view, id, plan).aliases,
                place,
                plan.new_path@,
            )
        }),
{
    let all = locators_of(view.locators, id).push(plan.old_locator@);
    let place = placed(root, all[k]);
    let paths = alias_views(plan.aliases@);
    aliases_cover_the_old_places(root, all, plan.new_path@);
    if !path_eq(place, plan.new_path@) {
        assert(has_path(paths, place));
        let i = choose|i: int| 0 <= i < paths.len() && path_eq(#[trigger] paths[i], place);
        assert(paths[i] == plan.aliases@[i].alias_path@);
        lemma_all_lead(view.aliases, id, plan.aliases@, plan.new_path@, i);
        let rows = moved(view, id, plan).aliases;
        let w = choose|w: int|
            0 <= w < rows.len() && path_eq((#[trigger] rows[w]).alias_path, paths[i])
                && rows[w].target_path == plan.new_path@;
        assert(path_eq(rows[w].alias_path, place));
    }
}

/// A repository that has moved is at its new place under its new locator, and still
/// answers to its old locator and to every name that it answered to before.
pub proof fn moved_repositories_keep_their_names(
    view: RegistryView,
    id: i64,
    plan: MovePlan,
    k: int,
    name: LocatorView,
)
    requires
        0 <= k < view.repos.len(),
        view.repos[k].id == id,
    ensures
        ({
            let after = moved(view, id, plan);
            &&& after.repos[k].current == plan.new_locator@
            &&& after.repos[k].path == plan.new_path@
            &&& answers_to(after, after.repos[k], plan.new_locator@)
            &&& answers_to(after, after.repos[k], plan.old_locator@)
            &&& answers_to(view, view.repos[k], name) ==> answers_to(after, after.repos[k], name)
        }),
{
    let after = moved(view, id, plan);
    let first = located(view.locators, id, plan.old_locator@, plan.old_path@, false);
    let n = lemma_located_has(first, id, plan.new_locator@, plan.new_path@, true);
    assert(after.locators[n].repo_id == id);
    let o = lemma_located_has(view.locators, id, plan.old_locator@, plan.old_path@, false);
    let p = lemma_located_remembers(first, id, plan.new_locator@, plan.new_path@, true, o);
    assert(after.locators[p].locator == plan.old_locator@);
    if answers_to(view, view.repos[k], name) {
        let i = choose|i: int|
            0 <= i < view.locators.len() && (#[trigger] view.locators[i]).repo_id
                == view.repos[k].id && (view.repos[k].identity == name.key()
                || view.locators[i].locator == name);
        let j = lemma_located_remembers(
            view.locators,
            id,
            plan.old_locator@,
            plan.old_path@,
            false,
            i,
        );
        let m = lemma_located_remembers(first, id, plan.new_locator@, plan.new_path@, true, j);
        assert(after.locators[m].repo_id == id);
    }
}

/// A repository is found under each name that it answers to, unless another one
/// that was recorded before it answers too.
pub proof fn answering_repositories_are_found(view: RegistryView, name: LocatorView, k: int)
    requires
        0 <= k < view.repos.len(),
        answers_to(view, view.repos[k], name),
    ensures
        0 <= first_answering(view, name, 0) <= k,
        answers_to(view, view.repos[first_answering(view, name, 0)], name),
{
    lemma_first_answering(view, name, 0, k);
}

proof fn lemma_first_answering(view: RegistryView, name: LocatorView, i: int, k: int)
    requires
        0 <= i <= k < view.repos.len(),
        answers_to(view, view.repos[k], name),
    ensures
        i <= first_answering(view, name, i) <= k,
        answers_to(view, view.repos[first_answering(view, name, i)], name),
    decreases k - i,
{
    if !answers_to(view, view.repos[i], name) {
        lemma_first_answering(view, name, i + 1, k);
    }
}

/// A repository that is recorded answers to its locator, and is at its path.
pub proof fn recorded_repositories_answer(
    view: RegistryView,
    locator: LocatorView,
    path: Seq<char>,
    canonical_identity: Option<Seq<char>>,
)
    requires
        top_repo_id(view.repos) < i64::MAX,
    ensures
        ({
            let after = with_repo(view, locator, path, canonical_identity);
            exists|k: int|
                0 <= k < after.repos.len() && (#[trigger] after.repos[k]).id == repo_id_for(
                    view.repos,
                    locator.key(),
                ) && after.repos[k].current == locator && after.repos[k].path == path
                    && answers_to(after, after.repos[k], locator)
        }),
{
    let after = with_repo(view, locator, path, canonical_identity);
    let i = with_identity(view.repos, locator.key(), 0);
    lemma_with_identity(view.repos, locator.key(), 0);
    let k = if 0 <= i < view.repos.len() {
        i
    } else {
        view.repos.len() as int
    };
    assert(after.repos[k].current == locator);
    let id = repo_id_for(view.repos, locator.key());
    let n = lemma_located_has(view.locators, id, locator, path, true);
    assert(after.locators[n].repo_id == after.repos[k].id);
}

/// Shared history is noted of two repositories in the same way, whichever of them is
/// looked at.
pub proof fn shared_history_is_mutual(
    rows: Seq<RelatedView>,
    a: i64,
    b: i64,
    refs: Seq<Seq<char>>,
)
    ensures
        history_shared(rows, smaller(a, b), larger(a, b), refs) == history_shared(
            rows,
            smaller(b, a),
            larger(b, a),
            refs,
        ),
{
}

proof fn lemma_pair_found(rows: Seq<RelatedView>, a: i64, b: i64, i: int)
    requires
        0 <= i,
    ensures
        pair_at(rows, a, b, i) == -1 || i <= pair_at(rows, a, b, i) < rows.len(),
    decreases rows.len() - i,
{
    if i < rows.len() && !(rows[i].repo_id == a && rows[i].related_repo_id == b) {
        lemma_pair_found(rows, a, b, i + 1);
    }
}

/// Finding shared history again resolves nothing and reopens nothing: what was said
/// of a pair stays, and a new pair is unresolved.
pub proof fn finding_again_reopens_nothing(
    rows: Seq<RelatedView>,
    a: i64,
    b: i64,
    refs: Seq<Seq<char>>,
)
    ensures
        ({
            let after = history_shared(rows, a, b, refs);
            &&& rows.len() <= after.len() <= rows.len() + 1
            &&& forall|i: int|
                0 <= i < rows.len() ==> (#[trigger] after[i]).resolution == rows[i].resolution
                    && after[i].id == rows[i].id
            &&& after.len() > rows.len() ==> after.last().resolution is None
        }),
{
    lemma_pair_found(rows, a, b, 0);
}

proof fn lemma_unresolved_update(rows: Seq<RelatedView>, i: int, row: RelatedView)
    requires
        0 <= i < rows.len(),
        row.resolution is Some,
    ensures
        unresolved(rows.update(i, row)) == unresolved(rows) - (if rows[i].resolution is None {
            1int
        } else {
            0int
        }),
    decreases rows.len(),
{
    let after = rows.update(i, row);
    if i == rows.len() - 1 {
        assert(after.drop_last() =~= rows.drop_last());
    } else {
        assert(after.drop_last() =~= rows.drop_last().update(i, row));
        lemma_unresolved_update(rows.drop_last(), i, row);
    }
}

/// A suggestion that is resolved is not pending any more, and all others stay as
/// they were.
pub proof fn resolved_suggestions_are_not_pending(
    rows: Seq<RelatedView>,
    i: int,
    resolution: Seq<char>,
)
    requires
        0 <= i < rows.len(),
    ensures
        ({
            let after = rows.update(
                i,
                RelatedView { resolution: Some(resolution), ..rows[i] },
            );
            &&& after[i].resolution is Some
            &&& unresolved(after) == unresolved(rows) - (if rows[i].resolution is None {
                1int
            } else {
                0int
            })
            &&& forall|j: int| 0 <= j < rows.len() && j != i ==> #[trigger] after[j] == rows[j]
        }),
{
    lemma_unresolved_update(
        rows,
        i,
        RelatedView { resolution: Some(resolution), ..rows[i] },
    );
}

proof fn lemma_no_confirmed(repos: Seq<RepoView>, rows: Seq<RelatedView>, id: i64)
    requires
        forall|i: int|
            0 <= i < rows.len() ==> !((#[trigger] rows[i]).repo_id == id && dependent_resolution(
                rows[i].resolution,
            )),
    ensures
        forall|i: int|
            0 <= i < confirmed_links(suggestions(repos, rows, false)).len() ==> (
            #[trigger] confirmed_links(suggestions(repos, rows, false))[i]).dependent_repo_id != id,
    decreases rows.len(),
{
    if rows.len() > 0 {
        let rest = rows.drop_last();
        assert forall|i: int| 0 <= i < rest.len() implies !((#[trigger] rest[i]).repo_id == id
            && dependent_resolution(rest[i].resolution)) by {
            assert(rest[i] == rows[i]);
        }
        lemma_no_confirmed(repos, rest, id);
        let before = suggestions(repos, rest, false);
        let all = suggestions(repos, rows, false);
        assert(rows[rows.len() - 1] == rows.last());
        if all.len() > before.len() {
            assert(all.drop_last() =~= before);
            assert(all.last() == suggestion_of(repos, rows.last()));
            if dependent_resolution(all.last().resolution) {
                lemma_no_link(confirmed_links(before), suggestion_link(all.last()), id);
            }
        }
    }
}

proof fn lemma_no_link(links: Seq<LinkView>, link: LinkView, id: i64)
    requires
        forall|i: int| 0 <= i < links.len() ==> (#[trigger] links[i]).dependent_repo_id != id,
        link.dependent_repo_id != id,
    ensures
        forall|i: int|
            0 <= i < add_link(links, link).len() ==> (#[trigger] add_link(
                links,
                link,
            )[i]).dependent_repo_id != id,
{
    assert forall|i: int| 0 <= i < add_link(links, link).len() implies (#[trigger] add_link(
        links,
        link,
    )[i]).dependent_repo_id != id by {
        if i < links.len() {
            assert(add_link(links, link)[i] == links[i]);
        }
    }
}

proof fn lemma_no_forks(repos: Seq<RepoView>, rows: Seq<ForkRow>, id: i64)
    requires
        forall|i: int| 0 <= i < rows.len() ==> (#[trigger] rows[i]).fork_repo_id != id,
    ensures
        forall|i: int|
            0 <= i < sorted_forks(repos, rows).len() ==> (#[trigger] sorted_forks(
                repos,
                rows,
            )[i]).dependent_repo_id != id,
    decreases rows.len(),
{
    if rows.len() > 0 {
        let rest = rows.drop_last();
        assert forall|i: int| 0 <= i < rest.len() implies (#[trigger] rest[i]).fork_repo_id
            != id by {
            assert(rest[i] == rows[i]);
        }
        lemma_no_forks(repos, rest, id);
        let before = sorted_forks(repos, rest);
        let after = sorted_forks(repos, rows);
        let row = rows.last();
        assert(rows[rows.len() - 1] == row);
        if known(repos, row.fork_repo_id) && known(repos, row.canonical_repo_id) {
            let link = fork_link(repos, row);
            let k = link_slot(before, link.dependent_locator, 0);
            lemma_link_slot(before, link.dependent_locator, 0);
            assert forall|i: int| 0 <= i < after.len() implies (
            #[trigger] after[i]).dependent_repo_id != id by {
                if i < k {
                    assert(after[i] == before[i]);
                } else if i > k {
                    assert(after[i] == before[i - 1]);
                }
            }
        }
    }
}

proof fn lemma_link_slot(links: Seq<LinkView>, locator: LocatorView, i: int)
    requires
        0 <= i <= links.len(),
    ensures
        i <= link_slot(links, locator, i) <= links.len(),
    decreases links.len() - i,
{
    if i < links.len() {
        lemma_link_slot(links, locator, i + 1);
    }
}

proof fn lemma_no_added(links: Seq<LinkView>, more: Seq<LinkView>, id: i64)
    requires
        forall|i: int| 0 <= i < links.len() ==> (#[trigger] links[i]).dependent_repo_id != id,
        forall|i: int| 0 <= i < more.len() ==> (#[trigger] more[i]).dependent_repo_id != id,
    ensures
        forall|i: int|
            0 <= i < add_links(links, more).len() ==> (#[trigger] add_links(
                links,
                more,
            )[i]).dependent_repo_id != id,
    decreases more.len(),
{
    if more.len() > 0 {
        let rest = more.drop_last();
        assert forall|i: int| 0 <= i < rest.len() implies (#[trigger] rest[i]).dependent_repo_id
            != id by {
            assert(rest[i] == more[i]);
        }
        lemma_no_added(links, rest, id);
        assert(more[more.len() - 1] == more.last());
        lemma_no_link(add_links(links, rest), more.last(), id);
    }
}

/// A repository whose parents are cleared depends on none.
pub proof fn cleared_repositories_depend_on_none(view: RegistryView, id: i64)
    ensures
        forall|i: int|
            0 <= i < all_links(without_parents(view, id)).len() ==> (#[trigger] all_links(
                without_parents(view, id),
            )[i]).dependent_repo_id != id,
{
    let after = without_parents(view, id);
    lemma_keep(view.forks, |r: ForkRow| r.fork_repo_id != id);
    lemma_keep(
        view.related,
        |r: RelatedView| !(r.repo_id == id && dependent_resolution(r.resolution)),
    );
    lemma_no_confirmed(after.repos, after.related, id);
    lemma_no_forks(after.repos, after.forks, id);
    lemma_no_added(
        confirmed_links(suggestions(after.repos, after.related, false)),
        sorted_forks(after.repos, after.forks),
        id,
    );
}

} // verus!
