//! What holds of every background fetch.
use crate::detect::{after_turn, FetchTurn};
use crate::fetch::{due, due_records, lemma_fetch_at};
use crate::registry::{record_of, FetchView, RegistryView, RepoView};
use crate::registry_lists::{lemma_records_insert, records_in_order};
use vstd::prelude::*;

verus! {

/// The shortest time between two fetches: what is asked for, a second at least.
pub open spec fn least(seconds: u64) -> int {
    if seconds == 0 {
        1
    } else if seconds > i64::MAX {
        i64::MAX as int
    } else {
        seconds as int
    }
}

pub open spec fn no_more_than(n: int, top: int) -> int {
    if n > top {
        top
    } else {
        n
    }
}

/// What a fetch that brought nothing makes of the time to the next one: it is not
/// shorter than before, is doubled, and is at most a day's worth of the shortest times.
pub open spec fn backs_off(previous: int, seconds: u64, interval: int) -> bool {
    let least = least(seconds);
    let from = if previous < least {
        least
    } else {
        previous
    };
    let top = no_more_than(24 * least, i64::MAX as int);
    &&& least <= interval <= top
    &&& no_more_than(previous, top) <= interval
    &&& interval == no_more_than(2 * from, top)
}

/// The state of a repository once a turn is over, where it was `before` before. Only
/// refs that changed count as a change; a change sets the time to the next fetch back
/// to the shortest, and anything else puts the next fetch off.
pub open spec fn follows(
    before: Option<FetchView>,
    after: FetchView,
    id: i64,
    now: i64,
    seconds: u64,
    turn: FetchTurn,
) -> bool {
    let changed_before = match before {
        Some(row) => row.last_changed_at,
        None => None,
    };
    let previous = match before {
        Some(row) => row.learned_interval_seconds as int,
        None => 0,
    };
    let interval = after.learned_interval_seconds as int;
    &&& after.repo_id == id
    &&& after.last_fetch_at == Some(now)
    &&& match turn {
        FetchTurn::Fetched { before: old_refs, after: new_refs } => {
            &&& after.last_error is None
            &&& old_refs@ != new_refs@ ==> after.last_status == Some("changed"@)
                && after.last_changed_at == Some(now) && interval == least(seconds)
            &&& old_refs@ == new_refs@ ==> after.last_status == Some("unchanged"@)
                && after.last_changed_at == changed_before && backs_off(
                previous,
                seconds,
                interval,
            )
        },
        FetchTurn::Missing => {
            &&& after.last_status == Some("error"@)
            &&& after.last_error == Some("tracked repository path does not exist"@)
            &&& after.last_changed_at == changed_before
            &&& backs_off(previous, seconds, interval)
        },
        FetchTurn::Failed { error } => {
            &&& after.last_status == Some("error"@)
            &&& after.last_error == Some(error@)
            &&& after.last_changed_at == changed_before
            &&& backs_off(previous, seconds, interval)
        },
    }
}

/// A turn of a repository that was fetched before changes its row, as `follows` says,
/// and no other.
pub proof fn turns_follow_what_was_fetched(
    rows: Seq<FetchView>,
    k: int,
    now: i64,
    seconds: u64,
    turn: FetchTurn,
)
    requires
        0 <= k < rows.len(),
        forall|j: int| 0 <= j < k ==> (#[trigger] rows[j]).repo_id != rows[k].repo_id,
    ensures
        ({
            let id = rows[k].repo_id;
            let after = after_turn(rows, id, now, seconds, turn);
            &&& after.len() == rows.len()
            &&& follows(Some(rows[k]), after[k], id, now, seconds, turn)
            &&& forall|j: int| 0 <= j < rows.len() && j != k ==> #[trigger] after[j] == rows[j]
        }),
{
    lemma_fetch_at(rows, rows[k].repo_id, 0);
}

/// A turn of a repository that was never fetched adds its row, and changes no other.
pub proof fn first_turns_are_added(
    rows: Seq<FetchView>,
    id: i64,
    now: i64,
    seconds: u64,
    turn: FetchTurn,
)
    requires
        forall|j: int| 0 <= j < rows.len() ==> (#[trigger] rows[j]).repo_id != id,
    ensures
        ({
            let after = after_turn(rows, id, now, seconds, turn);
            &&& after.len() == rows.len() + 1
            &&& follows(None, after.last(), id, now, seconds, turn)
            &&& forall|j: int| 0 <= j < rows.len() ==> #[trigger] after[j] == rows[j]
        }),
{
    lemma_fetch_at(rows, id, 0);
}

/// A repository is due exactly when it was never fetched, or when as much time as was
/// learned for it, and the shortest time at least, has passed since.
pub proof fn repositories_are_due_in_time(
    rows: Seq<FetchView>,
    k: int,
    id: i64,
    now: i64,
    least: int,
)
    requires
        (0 <= k < rows.len() && rows[k].repo_id == id) || k == rows.len(),
        forall|j: int| 0 <= j < k ==> (#[trigger] rows[j]).repo_id != id,
    ensures
        due(rows, id, now, least) <==> (k == rows.len() || rows[k].last_fetch_at is None || (now
            - rows[k].last_fetch_at->0 >= least && now - rows[k].last_fetch_at->0
            >= rows[k].learned_interval_seconds)),
{
    lemma_fetch_at(rows, id, 0);
}

/// The repositories that are to be fetched are exactly those that are due, in the
/// order of their locators.
pub proof fn due_repositories_are_fetched(
    view: RegistryView,
    repos: Seq<RepoView>,
    now: i64,
    least: int,
)
    ensures
        ({
            let found = due_records(view, repos, now, least);
            &&& records_in_order(found)
            &&& forall|i: int|
                0 <= i < repos.len() && due(view.fetches, (#[trigger] repos[i]).id, now, least)
                    ==> found.contains(record_of(repos[i]))
            &&& forall|j: int|
                0 <= j < found.len() ==> exists|i: int|
                    0 <= i < repos.len() && #[trigger] found[j] == record_of(#[trigger] repos[i])
                        && due(view.fetches, repos[i].id, now, least)
        }),
    decreases repos.len(),
{
    if repos.len() > 0 {
        let rest = repos.drop_last();
        let before = due_records(view, rest, now, least);
        let found = due_records(view, repos, now, least);
        let last = record_of(repos.last());
        due_repositories_are_fetched(view, rest, now, least);
        lemma_records_insert(before, last);
        assert forall|i: int| 0 <= i < rest.len() implies #[trigger] rest[i] == repos[i] by {}
        assert forall|i: int|
            0 <= i < repos.len() && due(
                view.fetches,
                (#[trigger] repos[i]).id,
                now,
                least,
            ) implies found.contains(record_of(repos[i])) by {
            if i < rest.len() {
                assert(rest[i] == repos[i]);
                assert(before.contains(record_of(rest[i])));
            }
        }
        assert forall|j: int| 0 <= j < found.len() implies exists|i: int|
            0 <= i < repos.len() && #[trigger] found[j] == record_of(#[trigger] repos[i]) && due(
                view.fetches,
                repos[i].id,
                now,
                least,
            ) by {
            if before.contains(found[j]) {
                let m = choose|m: int| 0 <= m < before.len() && before[m] == found[j];
                let i = choose|i: int|
                    0 <= i < rest.len() && before[m] == record_of(#[trigger] rest[i]) && due(
                        view.fetches,
                        rest[i].id,
                        now,
                        least,
                    );
                assert(repos[i] == rest[i]);
            } else {
                assert(found[j] == record_of(repos[repos.len() - 1]));
            }
        }
    }
}

} // verus!
