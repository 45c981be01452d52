//! What a repair does to the registry.
use crate::error::Error;
use crate::registry::{
    known, lemma_keep, top_repo_id, with_id, without_repo, AliasView, FetchView, ForkRow,
    PlaceView, Registry, RegistryView, RelatedView, RepoView, WorktreeView,
};
use crate::registry_laws::{
    deleted_repositories_are_forgotten, deleting_keeps_the_registry_sound, forgotten,
    recording_keeps_the_registry_sound, sound,
};
use crate::registry_rows::{
    deleting_keeps_rows_tidy, lemma_known, recording_keeps_rows_tidy, tidy,
};
use crate::repair::{
    stale_views, untracked_views, RepairStalePathStatus, RepairUntrackedCheckout,
    RepairUntrackedCheckoutStatus, StaleView, UntrackedView,
};
use crate::repair_plan::{KindView, RepairOperationKind};
use crate::repair_report::{
    checkout_findings, stale_findings, survey_checkouts, survey_stale, CheckoutFacts,
    RepairFacts, RepoFacts,
};
use crate::share::{lemma_upserted, with_repo};
use crate::text::integer;
use vstd::prelude::*;

verus! {

/// The registry once a checkout is recorded; one without a locator cannot be.
pub open spec fn tracking_one(view: RegistryView, checkout: UntrackedView) -> RegistryView {
    match checkout.locator {
        Some(locator) => with_repo(view, locator, checkout.path, None),
        None => view,
    }
}

/// The registry once the checkouts that a repair tracks are recorded, in order.
pub open spec fn tracking(view: RegistryView, list: Seq<UntrackedView>) -> RegistryView
    decreases list.len(),
{
    if list.len() == 0 {
        view
    } else {
        let before = tracking(view, list.drop_last());
        if list.last().status == RepairUntrackedCheckoutStatus::NowTracked {
            tracking_one(before, list.last())
        } else {
            before
        }
    }
}

pub open spec fn unknown_id(id: i64) -> Seq<char> {
    "unknown repository id: "@ + integer(id as int)
}

/// The registry once the stale repositories that a repair prunes are deleted, in
/// order, and why that stopped, if it did: a repository to prune was not known.
pub open spec fn pruning(view: RegistryView, list: Seq<StaleView>) -> (
    RegistryView,
    Option<Seq<char>>,
)
    decreases list.len(),
{
    if list.len() == 0 {
        (view, None)
    } else {
        let (before, stopped) = pruning(view, list.drop_last());
        let id = list.last().repo_id;
        if stopped is Some || list.last().status != RepairStalePathStatus::Pruned {
            (before, stopped)
        } else if known(before.repos, id) {
            (without_repo(before, id), None)
        } else {
            (before, Some(unknown_id(id)))
        }
    }
}

/// A repair prunes the repository.
pub open spec fn prunes(list: Seq<StaleView>, id: i64) -> bool {
    exists|i: int|
        0 <= i < list.len() && (#[trigger] list[i]).repo_id == id && list[i].status
            == RepairStalePathStatus::Pruned
}

fn track(registry: &mut Registry, checkout: &RepairUntrackedCheckout)
    requires
        top_repo_id(old(registry)@.repos) < i64::MAX,
    ensures
        final(registry)@ == tracking_one(old(registry)@, checkout@),
        top_repo_id(final(registry)@.repos) <= top_repo_id(old(registry)@.repos) + 1,
{
    if let Some(locator) = &checkout.locator {
        proof {
            lemma_upserted(registry@.repos, locator@, checkout.path@, None);
        }
        registry.upsert_repo(locator, &checkout.path, None);
    }
}

proof fn lemma_findings_bounded(repos: Seq<RepoFacts>, checkouts: Seq<CheckoutFacts>, check: bool)
    ensures
        checkout_findings(repos, checkouts, check).len() <= checkouts.len(),
    decreases checkouts.len(),
{
    if checkouts.len() > 0 {
        lemma_findings_bounded(repos, checkouts.drop_last(), check);
    }
}

/// Records the checkouts that a repair tracks.
pub fn track_checkouts(registry: &mut Registry, facts: &RepairFacts, check: bool)
    requires
        top_repo_id(old(registry)@.repos) + facts.checkouts@.len() < i64::MAX,
    ensures
        final(registry)@ == tracking(
            old(registry)@,
            checkout_findings(facts.repos@, facts.checkouts@, check),
        ),
{
    let found = survey_checkouts(facts, check);
    let ghost all = untracked_views(found@);
    let ghost start = registry@;
    proof {
        lemma_findings_bounded(facts.repos@, facts.checkouts@, check);
        assert(all.len() == found@.len());
        assert(all.take(0) =~= seq![]);
    }
    let mut i: usize = 0;
    while i < found.len()
        invariant
            i <= found@.len(),
            all == untracked_views(found@),
            registry@ == tracking(start, all.take(i as int)),
            top_repo_id(registry@.repos) <= top_repo_id(start.repos) + i,
            top_repo_id(start.repos) + found@.len() < i64::MAX,
        decreases found@.len() - i,
    {
        proof {
            assert(all.take(i + 1).drop_last() =~= all.take(i as int));
            assert(all.take(i + 1).last() == found@[i as int]@);
        }
        if found[i].status == RepairUntrackedCheckoutStatus::NowTracked {
            track(registry, &found[i]);
        }
        i += 1;
    }
    proof {
        assert(all.take(i as int) =~= all);
    }
}

/// Deletes the stale repositories that a repair prunes, up to one that is not
/// known.
pub fn prune_stale(registry: &mut Registry, facts: &RepairFacts, check: bool) -> (r: Result<
    (),
    Error,
>)
    ensures
        ({
            let (after, stopped) = pruning(
                old(registry)@,
                stale_findings(*facts, facts.repos@, check),
            );
            &&& final(registry)@ == after
            &&& r is Ok <==> stopped is None
            &&& r matches Err(e) ==> stopped == Some(e@)
        }),
{
    let found = survey_stale(facts, check);
    let ghost all = stale_views(found@);
    let ghost start = registry@;
    proof {
        assert(all.take(0) =~= seq![]);
    }
    let mut i: usize = 0;
    let mut stopped: Result<(), Error> = Ok(());
    while i < found.len()
        invariant
            i <= found@.len(),
            all == stale_views(found@),
            registry@ == pruning(start, all.take(i as int)).0,
            stopped is Ok <==> pruning(start, all.take(i as int)).1 is None,
            stopped matches Err(e) ==> pruning(start, all.take(i as int)).1 == Some(e@),
        decreases found@.len() - i,
    {
        proof {
            assert(all.take(i + 1).drop_last() =~= all.take(i as int));
            assert(all.take(i + 1).last() == found@[i as int]@);
        }
        if stopped.is_ok() && found[i].status == RepairStalePathStatus::Pruned {
            stopped = registry.delete_repo(found[i].repo_id);
        }
        i += 1;
    }
    proof {
        assert(all.take(i as int) =~= all);
    }
    stopped
}

proof fn lemma_checks_track_nothing(
    view: RegistryView,
    repos: Seq<RepoFacts>,
    checkouts: Seq<CheckoutFacts>,
)
    ensures
        tracking(view, checkout_findings(repos, checkouts, true)) == view,
    decreases checkouts.len(),
{
    if checkouts.len() > 0 {
        let rest = checkouts.drop_last();
        let found = checkout_findings(repos, checkouts, true);
        let before = checkout_findings(repos, rest, true);
        lemma_checks_track_nothing(view, repos, rest);
        if found.len() > before.len() {
            assert(found.drop_last() =~= before);
        }
    }
}

proof fn lemma_checks_prune_nothing(view: RegistryView, facts: RepairFacts, repos: Seq<RepoFacts>)
    ensures
        pruning(view, stale_findings(facts, repos, true)) == (view, None::<Seq<char>>),
    decreases repos.len(),
{
    if repos.len() > 0 {
        let rest = repos.drop_last();
        let found = stale_findings(facts, repos, true);
        let before = stale_findings(facts, rest, true);
        lemma_checks_prune_nothing(view, facts, rest);
        if found.len() > before.len() {
            assert(found.drop_last() =~= before);
        }
    }
}

/// Brings the registry in line with what was found: records the untracked
/// checkouts and deletes the stale repositories that nothing depends on. A check
/// changes nothing.
pub fn repair_registry(registry: &mut Registry, facts: &RepairFacts, check: bool) -> (r: Result<
    (),
    Error,
>)
    requires
        top_repo_id(old(registry)@.repos) + facts.checkouts@.len() < i64::MAX,
    ensures
        ({
            let (after, stopped) = pruning(
                tracking(
                    old(registry)@,
                    checkout_findings(facts.repos@, facts.checkouts@, check),
                ),
                stale_findings(*facts, facts.repos@, check),
            );
            &&& final(registry)@ == after
            &&& r is Ok <==> stopped is None
            &&& r matches Err(e) ==> stopped == Some(e@)
        }),
        check ==> r is Ok && final(registry)@ == old(registry)@,
{
    proof {
        if check {
            lemma_checks_track_nothing(registry@, facts.repos@, facts.checkouts@);
            lemma_checks_prune_nothing(registry@, *facts, facts.repos@);
        }
    }
    track_checkouts(registry, facts, check);
    prune_stale(registry, facts, check)
}

/// What one operation of a repair plan does to the registry, and why not.
pub open spec fn operation_done(view: RegistryView, kind: KindView) -> (
    RegistryView,
    Option<Seq<char>>,
) {
    match kind {
        KindView::PruneStale(stale) => if known(view.repos, stale.repo_id) {
            (without_repo(view, stale.repo_id), None)
        } else {
            (view, Some(unknown_id(stale.repo_id)))
        },
        KindView::TrackUnmanagedCheckout(checkout) => (tracking_one(view, checkout), None),
        KindView::ConvertRepositoryFormat(_) | KindView::RepairRelationship(_) => (view, None),
    }
}

/// Does to the registry what one operation of a repair plan asks for.
pub fn apply_to_registry(registry: &mut Registry, kind: &RepairOperationKind) -> (r: Result<
    (),
    Error,
>)
    requires
        top_repo_id(old(registry)@.repos) < i64::MAX,
    ensures
        ({
            let (after, stopped) = operation_done(old(registry)@, kind@);
            &&& final(registry)@ == after
            &&& r is Ok <==> stopped is None
            &&& r matches Err(e) ==> stopped == Some(e@)
        }),
{
    match kind {
        RepairOperationKind::PruneStale(stale) => registry.delete_repo(stale.repo_id),
        RepairOperationKind::TrackUnmanagedCheckout(checkout) => {
            track(registry, checkout);
            Ok(())
        },
        RepairOperationKind::ConvertRepositoryFormat(_) => Ok(()),
        RepairOperationKind::RepairRelationship(_) => Ok(()),
    }
}

/// The rows that speak of no repository that `gone` holds of are still there.
pub open spec fn kept_but(
    view: RegistryView,
    after: RegistryView,
    gone: spec_fn(i64) -> bool,
) -> bool {
    &&& forall|x: RepoView|
        view.repos.contains(x) && !gone(x.id) ==> #[trigger] after.repos.contains(x)
    &&& forall|x: PlaceView|
        view.locators.contains(x) && !gone(x.repo_id) ==> #[trigger] after.locators.contains(x)
    &&& forall|x: AliasView|
        view.aliases.contains(x) && !gone(x.repo_id) ==> #[trigger] after.aliases.contains(x)
    &&& forall|x: ForkRow|
        view.forks.contains(x) && !gone(x.fork_repo_id) && !gone(x.canonical_repo_id)
            ==> #[trigger] after.forks.contains(x)
    &&& forall|x: RelatedView|
        view.related.contains(x) && !gone(x.repo_id) && !gone(x.related_repo_id)
            ==> #[trigger] after.related.contains(x)
    &&& forall|x: WorktreeView|
        view.worktrees.contains(x) && !gone(x.repo_id) ==> #[trigger] after.worktrees.contains(x)
    &&& forall|x: FetchView|
        view.fetches.contains(x) && !gone(x.repo_id) ==> #[trigger] after.fetches.contains(x)
    &&& after.successors == view.successors
}

proof fn lemma_delete_keeps(view: RegistryView, id: i64)
    ensures
        kept_but(view, without_repo(view, id), |other: i64| other == id),
        forall|other: i64| #[trigger]
            forgotten(view, other) ==> forgotten(without_repo(view, id), other),
        forall|other: i64|
            other != id && known(view.repos, other) ==> #[trigger] known(
                without_repo(view, id).repos,
                other,
            ),
{
    let after = without_repo(view, id);
    lemma_keep(view.repos, |r: RepoView| r.id != id);
    lemma_keep(view.locators, |r: PlaceView| r.repo_id != id);
    lemma_keep(view.aliases, |r: AliasView| r.repo_id != id);
    lemma_keep(view.forks, |r: ForkRow| r.fork_repo_id != id && r.canonical_repo_id != id);
    lemma_keep(view.related, |r: RelatedView| r.repo_id != id && r.related_repo_id != id);
    lemma_keep(view.worktrees, |r: WorktreeView| r.repo_id != id);
    lemma_keep(view.fetches, |r: FetchView| r.repo_id != id);
    assert forall|other: i64|
        other != id && known(view.repos, other) implies #[trigger] known(after.repos, other) by {
        lemma_known(view.repos, other, 0);
        let row = view.repos[with_id(view.repos, other, 0)];
        assert(view.repos.contains(row));
        assert(after.repos.contains(row));
        let k = choose|k: int| 0 <= k < after.repos.len() && after.repos[k] == row;
        lemma_known(after.repos, other, 0);
        assert(after.repos[k].id == other);
    }
}

proof fn lemma_pruning(view: RegistryView, list: Seq<StaleView>)
    requires
        forall|i: int, j: int|
            0 <= i < j < list.len() ==> (#[trigger] list[i]).repo_id != (
            #[trigger] list[j]).repo_id,
        forall|i: int| 0 <= i < list.len() ==> known(view.repos, (#[trigger] list[i]).repo_id),
    ensures
        pruning(view, list).1 is None,
        kept_but(view, pruning(view, list).0, |id: i64| prunes(list, id)),
        forall|id: i64| #[trigger] prunes(list, id) ==> forgotten(pruning(view, list).0, id),
        forall|id: i64|
            known(view.repos, id) && !prunes(list, id) ==> #[trigger] known(
                pruning(view, list).0.repos,
                id,
            ),
    decreases list.len(),
{
    if list.len() > 0 {
        let rest = list.drop_last();
        let id = list.last().repo_id;
        let before = pruning(view, rest).0;
        let after = pruning(view, list).0;
        assert forall|i: int| 0 <= i < rest.len() implies #[trigger] rest[i] == list[i] by {}
        lemma_pruning(view, rest);
        assert(!prunes(rest, id));
        lemma_delete_keeps(before, id);
        deleted_repositories_are_forgotten(before, id);
        assert(list[list.len() - 1] == list.last());
        assert forall|other: i64| prunes(rest, other) implies #[trigger] prunes(list, other) by {
            let i = choose|i: int|
                0 <= i < rest.len() && (#[trigger] rest[i]).repo_id == other && rest[i].status
                    == RepairStalePathStatus::Pruned;
            assert(list[i].repo_id == other);
        }
        assert forall|other: i64| #[trigger] prunes(list, other) implies prunes(rest, other) || (
        other == id && list.last().status == RepairStalePathStatus::Pruned) by {
            let i = choose|i: int|
                0 <= i < list.len() && (#[trigger] list[i]).repo_id == other && list[i].status
                    == RepairStalePathStatus::Pruned;
            if i < rest.len() {
                assert(rest[i].repo_id == other);
            }
        }
    }
}

proof fn lemma_found_stale(facts: RepairFacts, repos: Seq<RepoFacts>, check: bool, i: int) -> (k: int)
    requires
        0 <= i < stale_findings(facts, repos, check).len(),
    ensures
        0 <= k < repos.len(),
        stale_findings(facts, repos, check)[i].repo_id == repos[k].id,
        forall|j: int|
            i < j < stale_findings(facts, repos, check).len() ==> exists|m: int|
                k < m < repos.len() && (#[trigger] stale_findings(facts, repos, check)[j]).repo_id
                    == (#[trigger] repos[m]).id,
    decreases repos.len(),
{
    let found = stale_findings(facts, repos, check);
    let rest = repos.drop_last();
    let before = stale_findings(facts, rest, check);
    assert forall|m: int| 0 <= m < rest.len() implies #[trigger] rest[m] == repos[m] by {}
    if i < before.len() {
        let k = lemma_found_stale(facts, rest, check, i);
        assert forall|j: int| i < j < found.len() implies exists|m: int|
            k < m < repos.len() && (#[trigger] found[j]).repo_id == (#[trigger] repos[m]).id by {
            if j < before.len() {
                assert(found[j] == before[j]);
                let m = choose|m: int|
                    k < m < rest.len() && before[j].repo_id == (#[trigger] rest[m]).id;
                assert(repos[m] == rest[m]);
            } else {
                assert(found[j].repo_id == repos[repos.len() - 1].id);
            }
        }
        assert(found[i] == before[i]);
        k
    } else {
        repos.len() - 1
    }
}

proof fn lemma_tracking(view: RegistryView, list: Seq<UntrackedView>)
    requires
        top_repo_id(view.repos) + list.len() < i64::MAX,
    ensures
        top_repo_id(tracking(view, list).repos) <= top_repo_id(view.repos) + list.len(),
        forall|id: i64|
            known(view.repos, id) ==> #[trigger] known(tracking(view, list).repos, id),
    decreases list.len(),
{
    if list.len() > 0 {
        let before = tracking(view, list.drop_last());
        lemma_tracking(view, list.drop_last());
        if let Some(locator) = list.last().locator {
            lemma_upserted(before.repos, locator, list.last().path, None);
        }
    }
}

/// Of a repair of repositories that the registry knows, each under its own number,
/// every repository that it reports as pruned is forgotten, every one that it
/// reports as blocked stays, and so does every row that speaks of no pruned
/// repository.
pub proof fn only_pruned_repositories_are_forgotten(view: RegistryView, facts: RepairFacts)
    requires
        top_repo_id(view.repos) + facts.checkouts@.len() < i64::MAX,
        forall|i: int, j: int|
            0 <= i < j < facts.repos@.len() ==> (#[trigger] facts.repos@[i]).id != (
            #[trigger] facts.repos@[j]).id,
        forall|i: int|
            0 <= i < facts.repos@.len() ==> known(view.repos, (#[trigger] facts.repos@[i]).id),
    ensures
        ({
            let list = stale_findings(facts, facts.repos@, false);
            let mid = tracking(
                view,
                checkout_findings(facts.repos@, facts.checkouts@, false),
            );
            let (after, stopped) = pruning(mid, list);
            &&& stopped is None
            &&& forall|i: int|
                0 <= i < list.len() && (#[trigger] list[i]).status == RepairStalePathStatus::Pruned
                    ==> forgotten(after, list[i].repo_id)
            &&& forall|i: int|
                0 <= i < list.len() && (#[trigger] list[i]).status == RepairStalePathStatus::Blocked
                    ==> known(after.repos, list[i].repo_id)
            &&& kept_but(mid, after, |id: i64| prunes(list, id))
        }),
{
    let repos = facts.repos@;
    let list = stale_findings(facts, repos, false);
    let tracks = checkout_findings(repos, facts.checkouts@, false);
    let mid = tracking(view, tracks);
    lemma_findings_bounded(repos, facts.checkouts@, false);
    lemma_tracking(view, tracks);
    assert forall|i: int| 0 <= i < list.len() implies known(
        mid.repos,
        (#[trigger] list[i]).repo_id,
    ) by {
        let k = lemma_found_stale(facts, repos, false, i);
        assert(known(view.repos, repos[k].id));
    }
    assert forall|i: int, j: int| 0 <= i < j < list.len() implies (#[trigger] list[i]).repo_id != (
    #[trigger] list[j]).repo_id by {
        let k = lemma_found_stale(facts, repos, false, i);
        let m = choose|m: int|
            k < m < repos.len() && list[j].repo_id == (#[trigger] repos[m]).id;
        assert(repos[k].id != repos[m].id);
    }
    lemma_pruning(mid, list);
    assert forall|i: int|
        0 <= i < list.len() && (#[trigger] list[i]).status
            == RepairStalePathStatus::Pruned implies forgotten(
        pruning(mid, list).0,
        list[i].repo_id,
    ) by {
        assert(prunes(list, list[i].repo_id));
    }
    assert forall|i: int|
        0 <= i < list.len() && (#[trigger] list[i]).status
            == RepairStalePathStatus::Blocked implies known(
        pruning(mid, list).0.repos,
        list[i].repo_id,
    ) by {
        assert(!prunes(list, list[i].repo_id));
    }
}

proof fn lemma_tracking_sound(view: RegistryView, list: Seq<UntrackedView>)
    requires
        sound(view),
        tidy(view),
        top_repo_id(view.repos) + list.len() < i64::MAX,
    ensures
        sound(tracking(view, list)),
        tidy(tracking(view, list)),
    decreases list.len(),
{
    if list.len() > 0 {
        let before = tracking(view, list.drop_last());
        lemma_tracking(view, list.drop_last());
        lemma_tracking_sound(view, list.drop_last());
        if let Some(locator) = list.last().locator {
            recording_keeps_the_registry_sound(before, locator, list.last().path, None);
            recording_keeps_rows_tidy(before, locator, list.last().path, None);
        }
    }
}

proof fn lemma_pruning_sound(view: RegistryView, list: Seq<StaleView>)
    requires
        sound(view),
        tidy(view),
    ensures
        sound(pruning(view, list).0),
        tidy(pruning(view, list).0),
    decreases list.len(),
{
    if list.len() > 0 {
        let before = pruning(view, list.drop_last()).0;
        lemma_pruning_sound(view, list.drop_last());
        deleting_keeps_the_registry_sound(before, list.last().repo_id);
        deleting_keeps_rows_tidy(before, list.last().repo_id);
    }
}

/// A repair keeps the registry sound and its rows tidy, whatever was found.
pub proof fn repairs_keep_the_registry_sound(view: RegistryView, facts: RepairFacts, check: bool)
    requires
        sound(view),
        tidy(view),
        top_repo_id(view.repos) + facts.checkouts@.len() < i64::MAX,
    ensures
        ({
            let after = pruning(
                tracking(view, checkout_findings(facts.repos@, facts.checkouts@, check)),
                stale_findings(facts, facts.repos@, check),
            ).0;
            sound(after) && tidy(after)
        }),
{
    let tracks = checkout_findings(facts.repos@, facts.checkouts@, check);
    lemma_findings_bounded(facts.repos@, facts.checkouts@, check);
    lemma_tracking_sound(view, tracks);
    lemma_pruning_sound(tracking(view, tracks), stale_findings(facts, facts.repos@, check));
}

} // verus!
