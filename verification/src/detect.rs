//! Finding repositories that share history, and fetching in the background.
use crate::error::Error;
use crate::fetch::{fetched, minimum};
use crate::history::{evidence, shared_root_evidence};
use crate::locator::{Locator, LocatorView};
use crate::paths::{path_eq, same_path};
use crate::registry::{
    known, repo_id_for, top_related_id, top_repo_id, FetchView, Registry, RegistryView, RelatedView,
};
use crate::registry_relations::{history_shared, larger, pair_at, smaller, unknown_row};
use crate::share::{lemma_upserted, with_repo};
use crate::text::{decimal, decimal_text, views};
use vstd::prelude::*;

verus! {

/// A repository that was found on the disk.
#[derive(Debug)]
pub struct FoundRepository {
    pub path: String,
    /// Its place as the disk resolves it.
    pub place: String,
    /// Its commits without parents.
    pub roots: Vec<String>,
    /// The locator of its origin.
    pub locator: Option<Locator>,
}

/// Whether a repository that was found is one whose history is shared: another one,
/// with a root in common and a locator.
pub open spec fn shares(
    place: Seq<char>,
    roots: Seq<Seq<char>>,
    other: FoundRepository,
) -> bool {
    &&& !path_eq(other.place@, place)
    &&& evidence(roots, views(other.roots@)).len() > 0
    &&& other.locator is Some
}

/// The registry once what was found is recorded, and how many repositories share
/// history.
pub open spec fn with_found(
    view: RegistryView,
    id: i64,
    place: Seq<char>,
    roots: Seq<Seq<char>>,
    found: Seq<FoundRepository>,
) -> (RegistryView, nat)
    decreases found.len(),
{
    if found.len() == 0 {
        (view, 0)
    } else {
        let (before, count) = with_found(view, id, place, roots, found.drop_last());
        let other = found.last();
        if shares(place, roots, other) {
            let locator = other.locator->0@;
            let added = with_repo(before, locator, other.path@, None);
            let other_id = repo_id_for(before.repos, locator.key());
            (
                if id == other_id {
                    added
                } else {
                    RegistryView {
                        related: history_shared(
                            added.related,
                            smaller(id, other_id),
                            larger(id, other_id),
                            evidence(roots, views(other.roots@)),
                        ),
                        ..added
                    }
                },
                count + 1,
            )
        } else {
            (before, count)
        }
    }
}

proof fn lemma_pair_at(rows: Seq<RelatedView>, a: i64, b: i64, i: int)
    requires
        0 <= i,
    ensures
        pair_at(rows, a, b, i) < rows.len(),
    decreases rows.len() - i,
{
    if i < rows.len() {
        lemma_pair_at(rows, a, b, i + 1);
    }
}

proof fn lemma_top_related_update(rows: Seq<RelatedView>, i: int, row: RelatedView)
    requires
        0 <= i < rows.len(),
        row.id == rows[i].id,
    ensures
        top_related_id(rows.update(i, row)) == top_related_id(rows),
    decreases rows.len(),
{
    let after = rows.update(i, row);
    if i == rows.len() - 1 {
        assert(after.drop_last() =~= rows.drop_last());
    } else {
        assert(after.drop_last() =~= rows.drop_last().update(i, row));
        lemma_top_related_update(rows.drop_last(), i, row);
    }
}

proof fn lemma_top_related_positive(rows: Seq<RelatedView>)
    ensures
        top_related_id(rows) >= 0,
    decreases rows.len(),
{
    if rows.len() > 0 {
        lemma_top_related_positive(rows.drop_last());
    }
}

proof fn lemma_history_shared(rows: Seq<RelatedView>, a: i64, b: i64, refs: Seq<Seq<char>>)
    requires
        top_related_id(rows) < i64::MAX,
    ensures
        top_related_id(history_shared(rows, a, b, refs)) <= top_related_id(rows) + 1,
{
    let after = history_shared(rows, a, b, refs);
    let i = pair_at(rows, a, b, 0);
    lemma_pair_at(rows, a, b, 0);
    lemma_top_related_positive(rows);
    if 0 <= i < rows.len() {
        lemma_top_related_update(rows, i, after[i]);
    } else {
        assert(after.drop_last() =~= rows);
    }
}

/// The registry once a repository is recorded, and what was found of its history,
/// and how many share that.
pub open spec fn detected_history(
    view: RegistryView,
    locator: LocatorView,
    path: Seq<char>,
    place: Seq<char>,
    roots: Seq<Seq<char>>,
    found: Seq<FoundRepository>,
) -> (RegistryView, nat) {
    let recorded = with_repo(view, locator, path, None);
    if roots.len() == 0 {
        (recorded, 0)
    } else {
        with_found(recorded, repo_id_for(view.repos, locator.key()), place, roots, found)
    }
}

/// Records a repository, and which of those that were found share its history.
/// Returns how many do.
pub fn detect_related_history(
    registry: &mut Registry,
    locator: &Locator,
    path: &str,
    place: &str,
    roots: &Vec<String>,
    found: &Vec<FoundRepository>,
) -> (r: Result<usize, Error>)
    requires
        top_repo_id(old(registry)@.repos) + found@.len() + 1 < i64::MAX,
        top_related_id(old(registry)@.related) + found@.len() < i64::MAX,
    ensures
        r is Ok,
        (final(registry)@, r->Ok_0 as nat) == detected_history(
            old(registry)@,
            locator@,
            path@,
            place@,
            views(roots@),
            found@,
        ),
{
    proof {
        lemma_upserted(registry@.repos, locator@, path@, None);
    }
    let id = registry.upsert_repo(locator, path, None);
    let ghost start = registry@;
    let ghost all = found@;
    if roots.len() == 0 {
        return Ok(0);
    }
    let mut detected: usize = 0;
    proof {
        assert(with_found(start, id, place@, views(roots@), all.take(0)) == (start, 0nat));
    }
    let mut i: usize = 0;
    while i < found.len()
        invariant
            i <= found@.len(),
            all == found@,
            detected <= i,
            (registry@, detected as nat) == with_found(
                start,
                id,
                place@,
                views(roots@),
                all.take(i as int),
            ),
            known(registry@.repos, id),
            top_repo_id(registry@.repos) <= top_repo_id(start.repos) + i,
            top_repo_id(start.repos) + found@.len() < i64::MAX,
            top_related_id(registry@.related) <= top_related_id(start.related) + i,
            top_related_id(start.related) + found@.len() < i64::MAX,
        decreases found@.len() - i,
    {
        proof {
            assert(all.take(i + 1).drop_last() =~= all.take(i as int));
            assert(all.take(i + 1).last() == all[i as int]);
        }
        let other = &found[i];
        if !same_path(other.place.as_str(), place) {
            let shared = shared_root_evidence(roots, &other.roots);
            if shared.len() > 0 {
                match &other.locator {
                    Some(other_locator) => {
                        let ghost now = registry@;
                        proof {
                            lemma_upserted(now.repos, other_locator@, other.path@, None);
                        }
                        let other_id = registry.upsert_repo(
                            other_locator,
                            other.path.as_str(),
                            None,
                        );
                        proof {
                            lemma_history_shared(
                                now.related,
                                smaller(id, other_id),
                                larger(id, other_id),
                                views(shared@),
                            );
                        }
                        match registry.record_related_history(id, other_id, &shared) {
                            Ok(()) => {},
                            Err(error) => {
                                return Err(error);
                            },
                        }
                        detected += 1;
                    },
                    None => {},
                }
            }
        }
        i += 1;
    }
    proof {
        assert(all.take(i as int) =~= all);
    }
    Ok(detected)
}

/// What the user is notified of.
pub fn related_notification(count: usize, locator: &Locator) -> (r: String)
    ensures
        r@ == locator@.key() + " shares Git history with "@ + decimal(count as nat)
            + " managed repo(s). Run `repo related list`."@,
{
    let mut text = locator.key();
    text.append(" shares Git history with ");
    text.append(decimal_text(count as u128).as_str());
    text.append(" managed repo(s). Run `repo related list`.");
    text
}

/// What came of fetching one repository.
#[derive(Debug)]
pub enum FetchTurn {
    /// Nothing is at its place.
    Missing,
    /// It was fetched; the refs before and after.
    Fetched { before: String, after: String },
    Failed { error: String },
}

/// Whether refs changed, and the error, as they are recorded.
pub open spec fn turn_result(turn: FetchTurn) -> (bool, Option<Seq<char>>) {
    match turn {
        FetchTurn::Missing => (false, Some("tracked repository path does not exist"@)),
        FetchTurn::Fetched { before, after } => (before@ != after@, None),
        FetchTurn::Failed { error } => (false, Some(error@)),
    }
}

/// The rows once what came of fetching one repository is recorded.
pub open spec fn after_turn(
    rows: Seq<FetchView>,
    id: i64,
    now: i64,
    seconds: u64,
    turn: FetchTurn,
) -> Seq<FetchView> {
    fetched(rows, id, now, minimum(seconds), turn_result(turn).0, turn_result(turn).1)
}

/// Records what came of fetching one repository. Returns whether it was fetched.
pub fn record_fetch_turn(
    registry: &mut Registry,
    repo_id: i64,
    now: i64,
    minimum_interval_seconds: u64,
    turn: FetchTurn,
) -> (r: Result<bool, Error>)
    ensures
        r is Ok <==> known(old(registry)@.repos, repo_id),
        r matches Ok(counted) ==> {
            &&& counted == (turn is Fetched)
            &&& final(registry)@ == RegistryView {
                fetches: after_turn(
                    old(registry)@.fetches,
                    repo_id,
                    now,
                    minimum_interval_seconds,
                    turn,
                ),
                ..old(registry)@
            }
        },
        r matches Err(e) ==> final(registry)@ == old(registry)@ && e@ == unknown_row(),
{
    let counted = match &turn {
        FetchTurn::Fetched { .. } => true,
        _ => false,
    };
    let (changed, error) = match turn {
        FetchTurn::Missing => {
            (false, Some("tracked repository path does not exist".to_owned()))
        },
        FetchTurn::Fetched { before, after } => (!before.as_str().eq(after.as_str()), None),
        FetchTurn::Failed { error } => (false, Some(error)),
    };
    match registry.record_background_fetch(
        repo_id,
        now,
        minimum_interval_seconds,
        changed,
        error,
    ) {
        Ok(()) => Ok(counted),
        Err(error) => Err(error),
    }
}

} // verus!
