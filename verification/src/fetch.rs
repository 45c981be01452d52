//! Background fetches: which repositories are due, and how long to wait until
//! the next fetch.
use crate::error::Error;
use crate::registry::{
    known, record_of, record_slot, record_views, FetchRow, FetchView, ManagedRepoRecord, RecordView,
    Registry, RegistryView, RepoView,
};
use crate::registry_relations::{clone_text, unknown_row};
use crate::text::{opt_view, views};
use vstd::prelude::*;

verus! {

/// The minimum interval as it is counted with: at least one second, and at most
/// what a signed number of 64 bits holds.
pub open spec fn minimum(seconds: u64) -> int {
    if seconds == 0 {
        1
    } else if seconds <= i64::MAX {
        seconds as int
    } else {
        i64::MAX as int
    }
}

fn minimum_seconds(seconds: u64) -> (r: i64)
    ensures
        r == minimum(seconds),
{
    if seconds == 0 {
        1
    } else if seconds <= i64::MAX as u64 {
        seconds as i64
    } else {
        i64::MAX
    }
}

pub open spec fn bounded(n: int) -> int {
    if n > i64::MAX {
        i64::MAX as int
    } else if n < i64::MIN {
        i64::MIN as int
    } else {
        n
    }
}

pub open spec fn at_least(n: int, floor: int) -> int {
    if n < floor {
        floor
    } else {
        n
    }
}

pub open spec fn at_most(n: int, top: int) -> int {
    if n > top {
        top
    } else {
        n
    }
}

/// The interval after a fetch. One that changed something goes back to the
/// minimum; each that changed nothing doubles it, up to 24 times the minimum.
pub open spec fn learned(minimum: int, previous: Option<int>, changed: bool) -> int {
    if changed {
        minimum
    } else {
        let before = match previous {
            Some(n) => at_least(n, minimum),
            None => minimum,
        };
        at_least(at_most(bounded(before * 2), bounded(minimum * 24)), minimum)
    }
}

fn clamp_wide(n: i128) -> (r: i64)
    ensures
        r == bounded(n as int),
{
    if n > i64::MAX as i128 {
        i64::MAX
    } else if n < i64::MIN as i128 {
        i64::MIN
    } else {
        n as i64
    }
}

pub fn learned_interval(minimum: i64, previous: Option<i64>, changed: bool) -> (r: i64)
    ensures
        r == learned(
            minimum as int,
            match previous {
                Some(n) => Some(n as int),
                None => None,
            },
            changed,
        ),
{
    if changed {
        return minimum;
    }
    let before: i64 = match previous {
        Some(n) => if n < minimum {
            minimum
        } else {
            n
        },
        None => minimum,
    };
    let doubled: i64 = clamp_wide(before as i128 * 2);
    let top: i64 = clamp_wide(minimum as i128 * 24);
    let capped: i64 = if doubled > top {
        top
    } else {
        doubled
    };
    if capped < minimum {
        minimum
    } else {
        capped
    }
}

/// The interval is never below the minimum and never above 24 times it.
pub proof fn learned_stays_in_bounds(minimum: int, previous: Option<int>, changed: bool)
    requires
        1 <= minimum <= i64::MAX,
    ensures
        minimum <= learned(minimum, previous, changed) <= bounded(minimum * 24),
{
}

/// A change brings the next fetch as near as is allowed; no change puts it off.
pub proof fn change_resets_and_quiet_backs_off(minimum: int, previous: int)
    requires
        1 <= minimum,
        minimum * 24 <= i64::MAX,
        minimum <= previous <= minimum * 24,
    ensures
        learned(minimum, Some(previous), true) == minimum,
        learned(minimum, Some(previous), false) >= previous,
        previous * 2 <= minimum * 24 ==> learned(minimum, Some(previous), false) == previous * 2,
{
}

/// The first row at or behind `i` of the repository; -1 where there is none.
pub open spec fn fetch_at(rows: Seq<FetchView>, id: i64, i: int) -> int
    decreases rows.len() - i,
{
    if i >= rows.len() {
        -1
    } else if rows[i].repo_id == id {
        i
    } else {
        fetch_at(rows, id, i + 1)
    }
}

/// The repository is due: it was never fetched, or its interval has passed.
pub open spec fn due(rows: Seq<FetchView>, id: i64, now: i64, minimum: int) -> bool {
    let i = fetch_at(rows, id, 0);
    if 0 <= i < rows.len() {
        match rows[i].last_fetch_at {
            None => true,
            Some(at) => now - at >= at_least(rows[i].learned_interval_seconds as int, minimum),
        }
    } else {
        true
    }
}

/// The repositories that are due, in the order of their locators.
pub open spec fn due_records(view: RegistryView, repos: Seq<RepoView>, now: i64, minimum: int)
    -> Seq<RecordView>
    decreases repos.len(),
{
    if repos.len() == 0 {
        seq![]
    } else {
        let before = due_records(view, repos.drop_last(), now, minimum);
        let last = record_of(repos.last());
        if due(view.fetches, last.id, now, minimum) {
            before.insert(record_slot(before, last.current, 0), last)
        } else {
            before
        }
    }
}

pub open spec fn fetch_status(error: Option<Seq<char>>, changed: bool) -> Seq<char> {
    if error is Some {
        "error"@
    } else if changed {
        "changed"@
    } else {
        "unchanged"@
    }
}

/// The rows once a fetch of the repository came to its end.
pub open spec fn fetched(
    rows: Seq<FetchView>,
    id: i64,
    now: i64,
    minimum: int,
    changed: bool,
    error: Option<Seq<char>>,
) -> Seq<FetchView> {
    let i = fetch_at(rows, id, 0);
    let found = 0 <= i < rows.len();
    let row = FetchView {
        repo_id: id,
        last_fetch_at: Some(now),
        last_changed_at: if changed {
            Some(now)
        } else if found {
            rows[i].last_changed_at
        } else {
            None
        },
        learned_interval_seconds: learned(
            minimum,
            if found {
                Some(rows[i].learned_interval_seconds as int)
            } else {
                None
            },
            changed,
        ) as i64,
        last_status: Some(fetch_status(error, changed)),
        last_error: error,
    };
    if found {
        rows.update(i, row)
    } else {
        rows.push(row)
    }
}

pub proof fn lemma_fetch_at(rows: Seq<FetchView>, id: i64, i: int)
    requires
        0 <= i,
    ensures
        ({
            let k = fetch_at(rows, id, i);
            &&& k == -1 || (i <= k < rows.len() && rows[k].repo_id == id)
            &&& k == -1 ==> forall|j: int|
                i <= j < rows.len() ==> (#[trigger] rows[j]).repo_id != id
            &&& forall|j: int| i <= j < k ==> (#[trigger] rows[j]).repo_id != id
        }),
    decreases rows.len() - i,
{
    if i < rows.len() && rows[i].repo_id != id {
        lemma_fetch_at(rows, id, i + 1);
    }
}

/// A repository that was fetched is not due again before the minimum interval has
/// passed, whatever number was given for it.
pub proof fn fetched_repositories_wait(
    rows: Seq<FetchView>,
    id: i64,
    now: i64,
    seconds: u64,
    changed: bool,
    error: Option<Seq<char>>,
    later: i64,
)
    ensures
        1 <= minimum(seconds),
        due(fetched(rows, id, now, minimum(seconds), changed, error), id, later, minimum(seconds))
            ==> later - now >= minimum(seconds),
{
    let after = fetched(rows, id, now, minimum(seconds), changed, error);
    let k = fetch_at(rows, id, 0);
    lemma_fetch_at(rows, id, 0);
    lemma_fetch_at(after, id, 0);
    let at = if 0 <= k < rows.len() {
        k
    } else {
        rows.len() as int
    };
    assert(after[at].repo_id == id);
    let first = fetch_at(after, id, 0);
    if 0 <= k < rows.len() {
        lemma_fetch_first(rows, after, id, 0);
    } else {
        assert(first != -1);
        if first < rows.len() {
            assert(after[first] == rows[first]);
        }
    }
}

proof fn lemma_fetch_first(rows: Seq<FetchView>, after: Seq<FetchView>, id: i64, i: int)
    requires
        0 <= i,
        rows.len() == after.len(),
        forall|j: int| 0 <= j < rows.len() ==> (#[trigger] after[j]).repo_id == rows[j].repo_id,
    ensures
        fetch_at(after, id, i) == fetch_at(rows, id, i),
    decreases rows.len() - i,
{
    if i < rows.len() {
        assert(after[i].repo_id == rows[i].repo_id);
        if rows[i].repo_id != id {
            lemma_fetch_first(rows, after, id, i + 1);
        }
    }
}

impl Registry {
    fn fetch_index(&self, id: i64) -> (r: Option<usize>)
        ensures
            match r {
                Some(i) => i < self.fetches@.len() && fetch_at(self@.fetches, id, 0) == i,
                None => fetch_at(self@.fetches, id, 0) == -1,
            },
    {
        let mut i: usize = 0;
        while i < self.fetches.len()
            invariant
                i <= self.fetches@.len(),
                fetch_at(self@.fetches, id, i as int) == fetch_at(self@.fetches, id, 0),
            decreases self.fetches@.len() - i,
        {
            proof {
                assert(self@.fetches[i as int] == self.fetches@[i as int]@);
            }
            if self.fetches[i].repo_id == id {
                return Some(i);
            }
            i += 1;
        }
        None
    }

    /// What background fetches of the repository came to.
    pub fn background_fetch_state(&self, repo_id: i64) -> (r: Option<FetchRow>)
        ensures
            match r {
                Some(row) => 0 <= fetch_at(self@.fetches, repo_id, 0) < self@.fetches.len() && row@
                    == self@.fetches[fetch_at(self@.fetches, repo_id, 0)],
                None => fetch_at(self@.fetches, repo_id, 0) == -1,
            },
    {
        match self.fetch_index(repo_id) {
            Some(i) => {
                let row = &self.fetches[i];
                proof {
                    assert(self@.fetches[i as int] == row@);
                }
                Some(
                    FetchRow {
                        repo_id: row.repo_id,
                        last_fetch_at: row.last_fetch_at,
                        last_changed_at: row.last_changed_at,
                        learned_interval_seconds: row.learned_interval_seconds,
                        last_status: clone_text(&row.last_status),
                        last_error: clone_text(&row.last_error),
                    },
                )
            },
            None => None,
        }
    }

    fn is_due(&self, id: i64, now: i64, minimum: i64) -> (r: bool)
        ensures
            r == due(self@.fetches, id, now, minimum as int),
    {
        match self.fetch_index(id) {
            None => true,
            Some(i) => {
                proof {
                    assert(self@.fetches[i as int] == self.fetches@[i as int]@);
                }
                match self.fetches[i].last_fetch_at {
                    None => true,
                    Some(at) => {
                        let learned: i64 = self.fetches[i].learned_interval_seconds;
                        let wait: i64 = if learned < minimum {
                            minimum
                        } else {
                            learned
                        };
                        now as i128 - at as i128 >= wait as i128
                    },
                }
            },
        }
    }

    /// The repositories whose next fetch is due.
    pub fn background_fetch_candidates(&self, now: i64, minimum_interval_seconds: u64) -> (r: Vec<
        ManagedRepoRecord,
    >)
        ensures
            record_views(r@) == due_records(
                self@,
                self@.repos,
                now,
                minimum(minimum_interval_seconds),
            ),
    {
        let least: i64 = minimum_seconds(minimum_interval_seconds);
        let ghost all = self@.repos;
        let mut r: Vec<ManagedRepoRecord> = Vec::new();
        proof {
            assert(record_views(r@) =~= due_records(self@, all.take(0), now, least as int));
        }
        let mut i: usize = 0;
        while i < self.repos.len()
            invariant
                i <= self.repos@.len(),
                all == self@.repos,
                record_views(r@) == due_records(self@, all.take(i as int), now, least as int),
            decreases self.repos@.len() - i,
        {
            proof {
                assert(all.take(i + 1).drop_last() =~= all.take(i as int));
                assert(all.take(i + 1).last() == self.repos@[i as int]@);
            }
            if self.is_due(self.repos[i].id, now, least) {
                crate::registry::insert_record(
                    &mut r,
                    ManagedRepoRecord {
                        id: self.repos[i].id,
                        current: self.repos[i].current.clone(),
                        path: self.repos[i].path.clone(),
                    },
                );
            }
            i += 1;
        }
        proof {
            assert(all.take(i as int) =~= all);
        }
        r
    }

    /// Records what a fetch of the repository came to.
    pub fn record_background_fetch(
        &mut self,
        repo_id: i64,
        now: i64,
        minimum_interval_seconds: u64,
        changed: bool,
        error: Option<String>,
    ) -> (r: Result<(), Error>)
        ensures
            r is Ok <==> known(old(self)@.repos, repo_id),
            r is Ok ==> final(self)@ == (RegistryView {
                fetches: fetched(
                    old(self)@.fetches,
                    repo_id,
                    now,
                    minimum(minimum_interval_seconds),
                    changed,
                    opt_view(error),
                ),
                ..old(self)@
            }),
            r matches Err(e) ==> final(self)@ == old(self)@ && e@ == unknown_row(),
    {
        if self.repo_by_id(repo_id).is_none() {
            return Err(Error::fixed("FOREIGN KEY constraint failed"));
        }
        let ghost before = self@;
        let least: i64 = minimum_seconds(minimum_interval_seconds);
        let status = if error.is_some() {
            "error"
        } else if changed {
            "changed"
        } else {
            "unchanged"
        };
        match self.fetch_index(repo_id) {
            Some(i) => {
                proof {
                    assert(before.fetches[i as int] == self.fetches@[i as int]@);
                }
                let row = FetchRow {
                    repo_id,
                    last_fetch_at: Some(now),
                    last_changed_at: if changed {
                        Some(now)
                    } else {
                        self.fetches[i].last_changed_at
                    },
                    learned_interval_seconds: learned_interval(
                        least,
                        Some(self.fetches[i].learned_interval_seconds),
                        changed,
                    ),
                    last_status: Some(status.to_owned()),
                    last_error: error,
                };
                let ghost w = row@;
                self.fetches.set(i, row);
                proof {
                    assert(self@.fetches =~= before.fetches.update(i as int, w));
                }
            },
            None => {
                let row = FetchRow {
                    repo_id,
                    last_fetch_at: Some(now),
                    last_changed_at: if changed {
                        Some(now)
                    } else {
                        None
                    },
                    learned_interval_seconds: learned_interval(least, None, changed),
                    last_status: Some(status.to_owned()),
                    last_error: error,
                };
                let ghost w = row@;
                self.fetches.push(row);
                proof {
                    assert(self@.fetches =~= before.fetches.push(w));
                }
            },
        }
        Ok(())
    }
}

/// How many seconds the daemon sleeps between two passes: the minimum interval,
/// but a second at least and five minutes at most.
pub fn background_fetch_wake_seconds(minimum_interval_seconds: u64) -> (r: u64)
    ensures
        r == at_most(at_least(minimum_interval_seconds as int, 1), 300),
{
    if minimum_interval_seconds < 1 {
        1
    } else if minimum_interval_seconds > 300 {
        300
    } else {
        minimum_interval_seconds
    }
}

/// The arguments of the Git command that fetches a remote of a bare repository.
pub open spec fn bare_fetch(remote: Seq<char>) -> Seq<Seq<char>> {
    if remote == "origin"@ {
        seq![
            "fetch"@,
            "--prune"@,
            "origin"@,
            "+refs/heads/*:refs/heads/*"@,
            "+refs/tags/*:refs/tags/*"@,
        ]
    } else {
        seq![
            "fetch"@,
            "--prune"@,
            remote,
            "+refs/heads/*:refs/remotes/"@ + remote + "/*"@,
            "+refs/tags/*:refs/repo-manager/remotes/"@ + remote + "/tags/*"@,
        ]
    }
}

pub fn background_fetch_args(remote: &str) -> (r: Vec<String>)
    ensures
        views(r@) == bare_fetch(remote@),
{
    let mut r: Vec<String> = Vec::new();
    r.push("fetch".to_owned());
    r.push("--prune".to_owned());
    if remote.eq("origin") {
        r.push("origin".to_owned());
        r.push("+refs/heads/*:refs/heads/*".to_owned());
        r.push("+refs/tags/*:refs/tags/*".to_owned());
    } else {
        let mut heads = "+refs/heads/*:refs/remotes/".to_owned();
        heads.append(remote);
        heads.append("/*");
        let mut tags = "+refs/tags/*:refs/repo-manager/remotes/".to_owned();
        tags.append(remote);
        tags.append("/tags/*");
        r.push(remote.to_owned());
        r.push(heads);
        r.push(tags);
    }
    proof {
        assert(views(r@) =~= bare_fetch(remote@));
    }
    r
}

} // verus!
