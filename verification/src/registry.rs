//! The metadata of the managed repositories: which are known, under which
//! locators, at which paths, and how they relate.
use crate::error::Error;
use crate::locator::{parsed_locator, parsed_url, Locator, LocatorView};
use crate::moves::{AliasPlan, MovePlan};
use crate::registry_relations::unknown_row;
use crate::text::{integer, integer_text, opt_view, rank_texts, text_less, trim_text, views, Rank};
use vstd::prelude::*;

verus! {

/// A known repository. Its identity is the key of the locator under which it
/// was first recorded.
#[derive(Debug)]
pub struct RepoRow {
    pub id: i64,
    pub identity: String,
    pub current: Locator,
    pub path: String,
    pub canonical_identity: Option<String>,
}

pub struct RepoView {
    pub id: i64,
    pub identity: Seq<char>,
    pub current: LocatorView,
    pub path: Seq<char>,
    pub canonical_identity: Option<Seq<char>>,
}

impl View for RepoRow {
    type V = RepoView;

    open spec fn view(&self) -> RepoView {
        RepoView {
            id: self.id,
            identity: self.identity@,
            current: self.current@,
            path: self.path@,
            canonical_identity: opt_view(self.canonical_identity),
        }
    }
}

pub open spec fn repo_views(v: Seq<RepoRow>) -> Seq<RepoView> {
    v.map_values(|r: RepoRow| r@)
}

/// A locator that a repository has or had.
#[derive(Debug)]
pub struct LocatorRow {
    pub repo_id: i64,
    pub locator: Locator,
    pub path: String,
    pub current: bool,
}

pub struct PlaceView {
    pub repo_id: i64,
    pub locator: LocatorView,
    pub path: Seq<char>,
    pub current: bool,
}

impl View for LocatorRow {
    type V = PlaceView;

    open spec fn view(&self) -> PlaceView {
        PlaceView {
            repo_id: self.repo_id,
            locator: self.locator@,
            path: self.path@,
            current: self.current,
        }
    }
}

pub open spec fn place_views(v: Seq<LocatorRow>) -> Seq<PlaceView> {
    v.map_values(|r: LocatorRow| r@)
}

/// An old path that points at the present one.
#[derive(Debug)]
pub struct AliasRow {
    pub repo_id: i64,
    pub alias_path: String,
    pub target_path: String,
}

pub struct AliasView {
    pub repo_id: i64,
    pub alias_path: Seq<char>,
    pub target_path: Seq<char>,
}

impl View for AliasRow {
    type V = AliasView;

    open spec fn view(&self) -> AliasView {
        AliasView {
            repo_id: self.repo_id,
            alias_path: self.alias_path@,
            target_path: self.target_path@,
        }
    }
}

pub open spec fn alias_row_views(v: Seq<AliasRow>) -> Seq<AliasView> {
    v.map_values(|r: AliasRow| r@)
}

#[derive(Debug, Clone, Copy)]
pub struct ForkRow {
    pub fork_repo_id: i64,
    pub canonical_repo_id: i64,
}

/// The source that continues another.
#[derive(Debug)]
pub struct SuccessorRow {
    pub old_ref: String,
    pub new_locator: Locator,
}

pub open spec fn successor_views(v: Seq<SuccessorRow>) -> Seq<(Seq<char>, LocatorView)> {
    v.map_values(|r: SuccessorRow| (r.old_ref@, r.new_locator@))
}

/// Two repositories that share history, and what the user said they are.
#[derive(Debug)]
pub struct RelatedRow {
    pub id: i64,
    pub repo_id: i64,
    pub related_repo_id: i64,
    pub shared_refs: Vec<String>,
    pub resolution: Option<String>,
}

pub struct RelatedView {
    pub id: i64,
    pub repo_id: i64,
    pub related_repo_id: i64,
    pub shared_refs: Seq<Seq<char>>,
    pub resolution: Option<Seq<char>>,
}

impl View for RelatedRow {
    type V = RelatedView;

    open spec fn view(&self) -> RelatedView {
        RelatedView {
            id: self.id,
            repo_id: self.repo_id,
            related_repo_id: self.related_repo_id,
            shared_refs: views(self.shared_refs@),
            resolution: opt_view(self.resolution),
        }
    }
}

pub open spec fn related_views(v: Seq<RelatedRow>) -> Seq<RelatedView> {
    v.map_values(|r: RelatedRow| r@)
}

#[derive(Debug)]
pub struct WorktreeRow {
    pub repo_id: i64,
    pub path: String,
    pub name: Option<String>,
    pub refs_prefix: Option<String>,
}

pub struct WorktreeView {
    pub repo_id: i64,
    pub path: Seq<char>,
    pub name: Option<Seq<char>>,
    pub refs_prefix: Option<Seq<char>>,
}

impl View for WorktreeRow {
    type V = WorktreeView;

    open spec fn view(&self) -> WorktreeView {
        WorktreeView {
            repo_id: self.repo_id,
            path: self.path@,
            name: opt_view(self.name),
            refs_prefix: opt_view(self.refs_prefix),
        }
    }
}

pub open spec fn worktree_views(v: Seq<WorktreeRow>) -> Seq<WorktreeView> {
    v.map_values(|r: WorktreeRow| r@)
}

/// What background fetches of a repository came to.
#[derive(Debug)]
pub struct FetchRow {
    pub repo_id: i64,
    pub last_fetch_at: Option<i64>,
    pub last_changed_at: Option<i64>,
    pub learned_interval_seconds: i64,
    pub last_status: Option<String>,
    pub last_error: Option<String>,
}

pub struct FetchView {
    pub repo_id: i64,
    pub last_fetch_at: Option<i64>,
    pub last_changed_at: Option<i64>,
    pub learned_interval_seconds: i64,
    pub last_status: Option<Seq<char>>,
    pub last_error: Option<Seq<char>>,
}

impl View for FetchRow {
    type V = FetchView;

    open spec fn view(&self) -> FetchView {
        FetchView {
            repo_id: self.repo_id,
            last_fetch_at: self.last_fetch_at,
            last_changed_at: self.last_changed_at,
            learned_interval_seconds: self.learned_interval_seconds,
            last_status: opt_view(self.last_status),
            last_error: opt_view(self.last_error),
        }
    }
}

pub open spec fn fetch_views(v: Seq<FetchRow>) -> Seq<FetchView> {
    v.map_values(|r: FetchRow| r@)
}

/// All metadata. The rows of each kind stand in the order in which they were
/// first recorded.
#[derive(Debug)]
pub struct Registry {
    pub repos: Vec<RepoRow>,
    pub locators: Vec<LocatorRow>,
    pub aliases: Vec<AliasRow>,
    pub forks: Vec<ForkRow>,
    pub successors: Vec<SuccessorRow>,
    pub related: Vec<RelatedRow>,
    pub worktrees: Vec<WorktreeRow>,
    pub fetches: Vec<FetchRow>,
}

pub struct RegistryView {
    pub repos: Seq<RepoView>,
    pub locators: Seq<PlaceView>,
    pub aliases: Seq<AliasView>,
    pub forks: Seq<ForkRow>,
    pub successors: Seq<(Seq<char>, LocatorView)>,
    pub related: Seq<RelatedView>,
    pub worktrees: Seq<WorktreeView>,
    pub fetches: Seq<FetchView>,
}

impl View for Registry {
    type V = RegistryView;

    open spec fn view(&self) -> RegistryView {
        RegistryView {
            repos: repo_views(self.repos@),
            locators: place_views(self.locators@),
            aliases: alias_row_views(self.aliases@),
            forks: self.forks@,
            successors: successor_views(self.successors@),
            related: related_views(self.related@),
            worktrees: worktree_views(self.worktrees@),
            fetches: fetch_views(self.fetches@),
        }
    }
}

/// The largest id of the repositories, and 0 where there is none.
pub open spec fn top_repo_id(repos: Seq<RepoView>) -> int
    decreases repos.len(),
{
    if repos.len() == 0 {
        0
    } else {
        let before = top_repo_id(repos.drop_last());
        if repos.last().id > before {
            repos.last().id as int
        } else {
            before
        }
    }
}

pub open spec fn top_related_id(related: Seq<RelatedView>) -> int
    decreases related.len(),
{
    if related.len() == 0 {
        0
    } else {
        let before = top_related_id(related.drop_last());
        if related.last().id > before {
            related.last().id as int
        } else {
            before
        }
    }
}

/// The first repository at or behind `i` with the identity; -1 where there is
/// none.
pub open spec fn with_identity(repos: Seq<RepoView>, identity: Seq<char>, i: int) -> int
    decreases repos.len() - i,
{
    if i >= repos.len() {
        -1
    } else if repos[i].identity == identity {
        i
    } else {
        with_identity(repos, identity, i + 1)
    }
}

/// The first repository at or behind `i` with the id; -1 where there is none.
pub open spec fn with_id(repos: Seq<RepoView>, id: i64, i: int) -> int
    decreases repos.len() - i,
{
    if i >= repos.len() {
        -1
    } else if repos[i].id == id {
        i
    } else {
        with_id(repos, id, i + 1)
    }
}

/// The first row at or behind `i` of the repository for the locator; -1 where
/// there is none.
pub open spec fn place_of(rows: Seq<PlaceView>, id: i64, locator: LocatorView, i: int) -> int
    decreases rows.len() - i,
{
    if i >= rows.len() {
        -1
    } else if rows[i].repo_id == id && rows[i].locator == locator {
        i
    } else {
        place_of(rows, id, locator, i + 1)
    }
}

/// The rows, with none of the repository the current one.
pub open spec fn none_current(rows: Seq<PlaceView>, id: i64) -> Seq<PlaceView> {
    rows.map_values(
        |r: PlaceView|
            if r.repo_id == id {
                PlaceView { current: false, ..r }
            } else {
                r
            },
    )
}

/// The rows once the repository has the locator at the path.
pub open spec fn located(
    rows: Seq<PlaceView>,
    id: i64,
    locator: LocatorView,
    path: Seq<char>,
    current: bool,
) -> Seq<PlaceView> {
    let base = if current {
        none_current(rows, id)
    } else {
        rows
    };
    let i = place_of(base, id, locator, 0);
    let row = PlaceView { repo_id: id, locator, path, current };
    if 0 <= i < base.len() {
        base.update(i, row)
    } else {
        base.push(row)
    }
}

/// The id that the repository with the identity has or gets.
pub open spec fn repo_id_for(repos: Seq<RepoView>, identity: Seq<char>) -> i64 {
    let i = with_identity(repos, identity, 0);
    if 0 <= i < repos.len() {
        repos[i].id
    } else {
        (top_repo_id(repos) + 1) as i64
    }
}

/// The repositories once the one that the locator identifies is at the path.
pub open spec fn upserted(
    repos: Seq<RepoView>,
    locator: LocatorView,
    path: Seq<char>,
    canonical_identity: Option<Seq<char>>,
) -> Seq<RepoView> {
    let identity = locator.key();
    let i = with_identity(repos, identity, 0);
    if 0 <= i < repos.len() {
        repos.update(
            i,
            RepoView {
                current: locator,
                path,
                canonical_identity: if canonical_identity is Some {
                    canonical_identity
                } else {
                    repos[i].canonical_identity
                },
                ..repos[i]
            },
        )
    } else {
        repos.push(
            RepoView {
                id: (top_repo_id(repos) + 1) as i64,
                identity,
                current: locator,
                path,
                canonical_identity,
            },
        )
    }
}

pub open spec fn known(repos: Seq<RepoView>, id: i64) -> bool {
    with_id(repos, id, 0) >= 0
}

impl Registry {
    pub fn new() -> (r: Registry)
        ensures
            r@.repos.len() == 0,
            r@.locators.len() == 0,
            r@.aliases.len() == 0,
            r@.forks.len() == 0,
            r@.successors.len() == 0,
            r@.related.len() == 0,
            r@.worktrees.len() == 0,
            r@.fetches.len() == 0,
    {
        Registry {
            repos: Vec::new(),
            locators: Vec::new(),
            aliases: Vec::new(),
            forks: Vec::new(),
            successors: Vec::new(),
            related: Vec::new(),
            worktrees: Vec::new(),
            fetches: Vec::new(),
        }
    }

    fn identity_index(&self, identity: &str) -> (r: Option<usize>)
        ensures
            match r {
                Some(i) => i < self.repos@.len() && with_identity(self@.repos, identity@, 0) == i,
                None => with_identity(self@.repos, identity@, 0) == -1,
            },
    {
        let mut i: usize = 0;
        while i < self.repos.len()
            invariant
                i <= self.repos@.len(),
                with_identity(self@.repos, identity@, i as int) == with_identity(
                    self@.repos,
                    identity@,
                    0,
                ),
            decreases self.repos@.len() - i,
        {
            proof {
                assert(self@.repos[i as int] == self.repos@[i as int]@);
            }
            if self.repos[i].identity.as_str().eq(identity) {
                return Some(i);
            }
            i += 1;
        }
        None
    }

    fn id_index(&self, id: i64) -> (r: Option<usize>)
        ensures
            match r {
                Some(i) => i < self.repos@.len() && with_id(self@.repos, id, 0) == i,
                None => with_id(self@.repos, id, 0) == -1,
            },
    {
        let mut i: usize = 0;
        while i < self.repos.len()
            invariant
                i <= self.repos@.len(),
                with_id(self@.repos, id, i as int) == with_id(self@.repos, id, 0),
            decreases self.repos@.len() - i,
        {
            proof {
                assert(self@.repos[i as int] == self.repos@[i as int]@);
            }
            if self.repos[i].id == id {
                return Some(i);
            }
            i += 1;
        }
        None
    }

    /// The largest id of a repository.
    pub fn last_repo_id(&self) -> (r: i64)
        ensures
            r == top_repo_id(self@.repos),
    {
        let mut top: i64 = 0;
        let mut i: usize = 0;
        while i < self.repos.len()
            invariant
                i <= self.repos@.len(),
                top == top_repo_id(self@.repos.take(i as int)),
            decreases self.repos@.len() - i,
        {
            if self.repos[i].id > top {
                top = self.repos[i].id;
            }
            i += 1;
            proof {
                assert(self@.repos.take(i as int).drop_last() =~= self@.repos.take(i - 1));
                assert(self@.repos.take(i as int).last() == self.repos@[i - 1]@);
            }
        }
        proof {
            assert(self@.repos.take(i as int) =~= self@.repos);
        }
        top
    }

    /// Records that the repository has, or had, the locator at the path. A
    /// repository that is not known has no locators.
    pub fn record_locator(
        &mut self,
        repo_id: i64,
        locator: &Locator,
        path: &str,
        current: bool,
    ) -> (r: Result<(), Error>)
        ensures
            r is Ok <==> known(old(self)@.repos, repo_id),
            r is Ok ==> final(self)@ == (RegistryView {
                locators: located(old(self)@.locators, repo_id, locator@, path@, current),
                ..old(self)@
            }),
            r matches Err(e) ==> final(self)@ == old(self)@ && e@ == unknown_row(),
    {
        if self.id_index(repo_id).is_none() {
            return Err(Error::fixed("FOREIGN KEY constraint failed"));
        }
        self.note_locator(repo_id, locator, path, current);
        Ok(())
    }

    fn note_locator(&mut self, repo_id: i64, locator: &Locator, path: &str, current: bool)
        ensures
            final(self)@ == (RegistryView {
                locators: located(old(self)@.locators, repo_id, locator@, path@, current),
                ..old(self)@
            }),
    {
        let ghost before = self@;
        let ghost rows = self.locators@;
        let ghost base = if current {
            none_current(before.locators, repo_id)
        } else {
            before.locators
        };
        if current {
            let mut i: usize = 0;
            while i < self.locators.len()
                invariant
                    i <= self.locators@.len(),
                    self.locators@.len() == rows.len(),
                    rows == old(self).locators@,
                    self.repos == old(self).repos,
                    self.aliases == old(self).aliases,
                    self.forks == old(self).forks,
                    self.successors == old(self).successors,
                    self.related == old(self).related,
                    self.worktrees == old(self).worktrees,
                    self.fetches == old(self).fetches,
                    forall|j: int| i <= j < rows.len() ==> self.locators@[j] == rows[j],
                    forall|j: int|
                        0 <= j < i ==> (#[trigger] self.locators@[j])@ == none_current(
                            place_views(rows),
                            repo_id,
                        )[j],
                decreases self.locators@.len() - i,
            {
                if self.locators[i].repo_id == repo_id {
                    self.locators[i].current = false;
                }
                i += 1;
            }
        }
        proof {
            assert(place_views(self.locators@) =~= base);
        }
        let mut i: usize = 0;
        let mut found = false;
        while i < self.locators.len() && !found
            invariant
                i <= self.locators@.len(),
                place_views(self.locators@) == base,
                place_of(base, repo_id, locator@, i as int) == place_of(base, repo_id, locator@, 0),
                found ==> i < self.locators@.len() && base[i as int].repo_id == repo_id
                    && base[i as int].locator == locator@,
            decreases self.locators@.len() - i, (if found { 0int } else { 1int }),
        {
            proof {
                assert(base[i as int] == self.locators@[i as int]@);
            }
            if self.locators[i].repo_id == repo_id && self.locators[i].locator.same(locator) {
                found = true;
            } else {
                i += 1;
            }
        }
        let row = LocatorRow {
            repo_id,
            locator: locator.clone(),
            path: path.to_owned(),
            current,
        };
        let ghost r = row@;
        if found {
            self.locators.set(i, row);
            proof {
                assert(place_views(self.locators@) =~= base.update(i as int, r));
            }
        } else {
            self.locators.push(row);
            proof {
                assert(place_views(self.locators@) =~= base.push(r));
            }
        }
    }

    /// Records the repository that the locator identifies, at the path, with the
    /// locator as its current one.
    pub fn upsert_repo(
        &mut self,
        locator: &Locator,
        path: &str,
        canonical_identity: Option<String>,
    ) -> (r: i64)
        requires
            top_repo_id(old(self)@.repos) < i64::MAX,
        ensures
            r == repo_id_for(old(self)@.repos, locator@.key()),
            final(self)@ == (RegistryView {
                repos: upserted(old(self)@.repos, locator@, path@, opt_view(canonical_identity)),
                locators: located(old(self)@.locators, r, locator@, path@, true),
                ..old(self)@
            }),
    {
        let ghost before = self@;
        let identity = locator.key();
        let id = match self.identity_index(&identity) {
            Some(i) => {
                let ghost row = before.repos[i as int];
                proof {
                    assert(row == self.repos@[i as int]@);
                }
                self.repos[i].current = locator.clone();
                self.repos[i].path = path.to_owned();
                if canonical_identity.is_some() {
                    self.repos[i].canonical_identity = canonical_identity;
                }
                proof {
                    assert(repo_views(self.repos@) =~= upserted(
                        before.repos,
                        locator@,
                        path@,
                        opt_view(canonical_identity),
                    ));
                }
                self.repos[i].id
            },
            None => {
                let id: i64 = self.last_repo_id() + 1;
                let row = RepoRow {
                    id,
                    identity,
                    current: locator.clone(),
                    path: path.to_owned(),
                    canonical_identity,
                };
                let ghost r = row@;
                self.repos.push(row);
                proof {
                    assert(repo_views(self.repos@) =~= before.repos.push(r));
                }
                id
            },
        };
        self.note_locator(id, locator, path, true);
        id
    }
}

/// The items of `s` that `p` accepts, in order.
pub open spec fn keep<T>(s: Seq<T>, p: spec_fn(T) -> bool) -> Seq<T>
    decreases s.len(),
{
    if s.len() == 0 {
        seq![]
    } else if p(s.last()) {
        keep(s.drop_last(), p).push(s.last())
    } else {
        keep(s.drop_last(), p)
    }
}

/// What `keep` keeps is in the sequence, and it keeps all that is accepted.
pub proof fn lemma_keep<T>(s: Seq<T>, p: spec_fn(T) -> bool)
    ensures
        keep(s, p).len() <= s.len(),
        forall|i: int| 0 <= i < keep(s, p).len() ==> p(#[trigger] keep(s, p)[i]),
        forall|i: int| 0 <= i < keep(s, p).len() ==> s.contains(#[trigger] keep(s, p)[i]),
        forall|x: T| s.contains(x) && p(x) ==> #[trigger] keep(s, p).contains(x),
    decreases s.len(),
{
    if s.len() > 0 {
        let t = s.drop_last();
        lemma_keep(t, p);
        assert forall|i: int| 0 <= i < keep(s, p).len() implies s.contains(
            #[trigger] keep(s, p)[i],
        ) by {
            if i < keep(t, p).len() {
                assert(t.contains(keep(t, p)[i]));
                let j = choose|j: int| 0 <= j < t.len() && t[j] == keep(t, p)[i];
                assert(s[j] == keep(s, p)[i]);
            } else {
                assert(s[s.len() - 1] == keep(s, p)[i]);
            }
        }
        assert forall|x: T| s.contains(x) && p(x) implies #[trigger] keep(s, p).contains(x) by {
            let j = choose|j: int| 0 <= j < s.len() && s[j] == x;
            if j < t.len() {
                assert(t[j] == x);
                assert(keep(t, p).contains(x));
                let i = choose|i: int| 0 <= i < keep(t, p).len() && keep(t, p)[i] == x;
                assert(keep(s, p)[i] == x);
            } else {
                assert(keep(s, p)[keep(s, p).len() - 1] == x);
            }
        }
    }
}

fn remove_repos(rows: &mut Vec<RepoRow>, id: i64)
    ensures
        repo_views(final(rows)@) == keep(repo_views(old(rows)@), |r: RepoView| r.id != id),
{
    let ghost all = repo_views(rows@);
    let ghost p = |r: RepoView| r.id != id;
    let ghost mut k: int = 0;
    let mut i: usize = 0;
    proof {
        assert(repo_views(rows@) =~= keep(all.take(0), p) + all.skip(0));
    }
    while i < rows.len()
        invariant
            p == (|r: RepoView| r.id != id),
            0 <= k <= all.len(),
            i <= rows@.len(),
            i == keep(all.take(k), p).len(),
            repo_views(rows@) == keep(all.take(k), p) + all.skip(k),
        decreases rows@.len() - i,
    {
        proof {
            assert(repo_views(rows@).len() == rows@.len());
            assert(repo_views(rows@)[i as int] == rows@[i as int]@);
            assert(all.skip(k)[0] == all[k]);
            assert(repo_views(rows@)[i as int] == all[k]);
            assert(all.take(k + 1).drop_last() =~= all.take(k));
            assert(all.take(k + 1).last() == all[k]);
        }
        let ghost before = repo_views(rows@);
        if rows[i].id == id {
            let _ = rows.remove(i);
            proof {
                assert(repo_views(rows@) =~= before.remove(i as int));
                assert(repo_views(rows@) =~= keep(all.take(k + 1), p) + all.skip(k + 1));
            }
        } else {
            i += 1;
            proof {
                assert(repo_views(rows@) =~= keep(all.take(k + 1), p) + all.skip(k + 1));
            }
        }
        proof {
            k = k + 1;
        }
    }
    proof {
        assert(repo_views(rows@).len() == rows@.len());
        assert(k == all.len());
        assert(all.take(k) =~= all);
        assert(keep(all, p) + all.skip(k) =~= keep(all, p));
    }
}

fn remove_places(rows: &mut Vec<LocatorRow>, id: i64)
    ensures
        place_views(final(rows)@) == keep(place_views(old(rows)@), |r: PlaceView| r.repo_id != id),
{
    let ghost all = place_views(rows@);
    let ghost p = |r: PlaceView| r.repo_id != id;
    let ghost mut k: int = 0;
    let mut i: usize = 0;
    proof {
        assert(place_views(rows@) =~= keep(all.take(0), p) + all.skip(0));
    }
    while i < rows.len()
        invariant
            p == (|r: PlaceView| r.repo_id != id),
            0 <= k <= all.len(),
            i <= rows@.len(),
            i == keep(all.take(k), p).len(),
            place_views(rows@) == keep(all.take(k), p) + all.skip(k),
        decreases rows@.len() - i,
    {
        proof {
            assert(place_views(rows@).len() == rows@.len());
            assert(place_views(rows@)[i as int] == rows@[i as int]@);
            assert(all.skip(k)[0] == all[k]);
            assert(place_views(rows@)[i as int] == all[k]);
            assert(all.take(k + 1).drop_last() =~= all.take(k));
            assert(all.take(k + 1).last() == all[k]);
        }
        let ghost before = place_views(rows@);
        if rows[i].repo_id == id {
            let _ = rows.remove(i);
            proof {
                assert(place_views(rows@) =~= before.remove(i as int));
                assert(place_views(rows@) =~= keep(all.take(k + 1), p) + all.skip(k + 1));
            }
        } else {
            i += 1;
            proof {
                assert(place_views(rows@) =~= keep(all.take(k + 1), p) + all.skip(k + 1));
            }
        }
        proof {
            k = k + 1;
        }
    }
    proof {
        assert(place_views(rows@).len() == rows@.len());
        assert(k == all.len());
        assert(all.take(k) =~= all);
        assert(keep(all, p) + all.skip(k) =~= keep(all, p));
    }
}

fn remove_aliases(rows: &mut Vec<AliasRow>, id: i64)
    ensures
        alias_row_views(final(rows)@) == keep(alias_row_views(old(rows)@), |r: AliasView| r.repo_id != id),
{
    let ghost all = alias_row_views(rows@);
    let ghost p = |r: AliasView| r.repo_id != id;
    let ghost mut k: int = 0;
    let mut i: usize = 0;
    proof {
        assert(alias_row_views(rows@) =~= keep(all.take(0), p) + all.skip(0));
    }
    while i < rows.len()
        invariant
            p == (|r: AliasView| r.repo_id != id),
            0 <= k <= all.len(),
            i <= rows@.len(),
            i == keep(all.take(k), p).len(),
            alias_row_views(rows@) == keep(all.take(k), p) + all.skip(k),
        decreases rows@.len() - i,
    {
        proof {
            assert(alias_row_views(rows@).len() == rows@.len());
            assert(alias_row_views(rows@)[i as int] == rows@[i as int]@);
            assert(all.skip(k)[0] == all[k]);
            assert(alias_row_views(rows@)[i as int] == all[k]);
            assert(all.take(k + 1).drop_last() =~= all.take(k));
            assert(all.take(k + 1).last() == all[k]);
        }
        let ghost before = alias_row_views(rows@);
        if rows[i].repo_id == id {
            let _ = rows.remove(i);
            proof {
                assert(alias_row_views(rows@) =~= before.remove(i as int));
                assert(alias_row_views(rows@) =~= keep(all.take(k + 1), p) + all.skip(k + 1));
            }
        } else {
            i += 1;
            proof {
                assert(alias_row_views(rows@) =~= keep(all.take(k + 1), p) + all.skip(k + 1));
            }
        }
        proof {
            k = k + 1;
        }
    }
    proof {
        assert(alias_row_views(rows@).len() == rows@.len());
        assert(k == all.len());
        assert(all.take(k) =~= all);
        assert(keep(all, p) + all.skip(k) =~= keep(all, p));
    }
}

fn remove_related(rows: &mut Vec<RelatedRow>, id: i64)
    ensures
        related_views(final(rows)@) == keep(related_views(old(rows)@), |r: RelatedView| r.repo_id != id && r.related_repo_id != id),
{
    let ghost all = related_views(rows@);
    let ghost p = |r: RelatedView| r.repo_id != id && r.related_repo_id != id;
    let ghost mut k: int = 0;
    let mut i: usize = 0;
    proof {
        assert(related_views(rows@) =~= keep(all.take(0), p) + all.skip(0));
    }
    while i < rows.len()
        invariant
            p == (|r: RelatedView| r.repo_id != id && r.related_repo_id != id),
            0 <= k <= all.len(),
            i <= rows@.len(),
            i == keep(all.take(k), p).len(),
            related_views(rows@) == keep(all.take(k), p) + all.skip(k),
        decreases rows@.len() - i,
    {
        proof {
            assert(related_views(rows@).len() == rows@.len());
            assert(related_views(rows@)[i as int] == rows@[i as int]@);
            assert(all.skip(k)[0] == all[k]);
            assert(related_views(rows@)[i as int] == all[k]);
            assert(all.take(k + 1).drop_last() =~= all.take(k));
            assert(all.take(k + 1).last() == all[k]);
        }
        let ghost before = related_views(rows@);
        if rows[i].repo_id == id || rows[i].related_repo_id == id {
            let _ = rows.remove(i);
            proof {
                assert(related_views(rows@) =~= before.remove(i as int));
                assert(related_views(rows@) =~= keep(all.take(k + 1), p) + all.skip(k + 1));
            }
        } else {
            i += 1;
            proof {
                assert(related_views(rows@) =~= keep(all.take(k + 1), p) + all.skip(k + 1));
            }
        }
        proof {
            k = k + 1;
        }
    }
    proof {
        assert(related_views(rows@).len() == rows@.len());
        assert(k == all.len());
        assert(all.take(k) =~= all);
        assert(keep(all, p) + all.skip(k) =~= keep(all, p));
    }
}

fn remove_worktrees(rows: &mut Vec<WorktreeRow>, id: i64)
    ensures
        worktree_views(final(rows)@) == keep(worktree_views(old(rows)@), |r: WorktreeView| r.repo_id != id),
{
    let ghost all = worktree_views(rows@);
    let ghost p = |r: WorktreeView| r.repo_id != id;
    let ghost mut k: int = 0;
    let mut i: usize = 0;
    proof {
        assert(worktree_views(rows@) =~= keep(all.take(0), p) + all.skip(0));
    }
    while i < rows.len()
        invariant
            p == (|r: WorktreeView| r.repo_id != id),
            0 <= k <= all.len(),
            i <= rows@.len(),
            i == keep(all.take(k), p).len(),
            worktree_views(rows@) == keep(all.take(k), p) + all.skip(k),
        decreases rows@.len() - i,
    {
        proof {
            assert(worktree_views(rows@).len() == rows@.len());
            assert(worktree_views(rows@)[i as int] == rows@[i as int]@);
            assert(all.skip(k)[0] == all[k]);
            assert(worktree_views(rows@)[i as int] == all[k]);
            assert(all.take(k + 1).drop_last() =~= all.take(k));
            assert(all.take(k + 1).last() == all[k]);
        }
        let ghost before = worktree_views(rows@);
        if rows[i].repo_id == id {
            let _ = rows.remove(i);
            proof {
                assert(worktree_views(rows@) =~= before.remove(i as int));
                assert(worktree_views(rows@) =~= keep(all.take(k + 1), p) + all.skip(k + 1));
            }
        } else {
            i += 1;
            proof {
                assert(worktree_views(rows@) =~= keep(all.take(k + 1), p) + all.skip(k + 1));
            }
        }
        proof {
            k = k + 1;
        }
    }
    proof {
        assert(worktree_views(rows@).len() == rows@.len());
        assert(k == all.len());
        assert(all.take(k) =~= all);
        assert(keep(all, p) + all.skip(k) =~= keep(all, p));
    }
}

fn remove_fetches(rows: &mut Vec<FetchRow>, id: i64)
    ensures
        fetch_views(final(rows)@) == keep(fetch_views(old(rows)@), |r: FetchView| r.repo_id != id),
{
    let ghost all = fetch_views(rows@);
    let ghost p = |r: FetchView| r.repo_id != id;
    let ghost mut k: int = 0;
    let mut i: usize = 0;
    proof {
        assert(fetch_views(rows@) =~= keep(all.take(0), p) + all.skip(0));
    }
    while i < rows.len()
        invariant
            p == (|r: FetchView| r.repo_id != id),
            0 <= k <= all.len(),
            i <= rows@.len(),
            i == keep(all.take(k), p).len(),
            fetch_views(rows@) == keep(all.take(k), p) + all.skip(k),
        decreases rows@.len() - i,
    {
        proof {
            assert(fetch_views(rows@).len() == rows@.len());
            assert(fetch_views(rows@)[i as int] == rows@[i as int]@);
            assert(all.skip(k)[0] == all[k]);
            assert(fetch_views(rows@)[i as int] == all[k]);
            assert(all.take(k + 1).drop_last() =~= all.take(k));
            assert(all.take(k + 1).last() == all[k]);
        }
        let ghost before = fetch_views(rows@);
        if rows[i].repo_id == id {
            let _ = rows.remove(i);
            proof {
                assert(fetch_views(rows@) =~= before.remove(i as int));
                assert(fetch_views(rows@) =~= keep(all.take(k + 1), p) + all.skip(k + 1));
            }
        } else {
            i += 1;
            proof {
                assert(fetch_views(rows@) =~= keep(all.take(k + 1), p) + all.skip(k + 1));
            }
        }
        proof {
            k = k + 1;
        }
    }
    proof {
        assert(fetch_views(rows@).len() == rows@.len());
        assert(k == all.len());
        assert(all.take(k) =~= all);
        assert(keep(all, p) + all.skip(k) =~= keep(all, p));
    }
}

fn remove_forks(rows: &mut Vec<ForkRow>, id: i64)
    ensures
        final(rows)@ == keep(old(rows)@, |r: ForkRow| r.fork_repo_id != id && r.canonical_repo_id != id),
{
    let ghost all = rows@;
    let ghost p = |r: ForkRow| r.fork_repo_id != id && r.canonical_repo_id != id;
    let ghost mut k: int = 0;
    let mut i: usize = 0;
    proof {
        assert(rows@ =~= keep(all.take(0), p) + all.skip(0));
    }
    while i < rows.len()
        invariant
            p == (|r: ForkRow| r.fork_repo_id != id && r.canonical_repo_id != id),
            0 <= k <= all.len(),
            i <= rows@.len(),
            i == keep(all.take(k), p).len(),
            rows@ == keep(all.take(k), p) + all.skip(k),
        decreases rows@.len() - i,
    {
        proof {
            assert(rows@.len() == rows@.len());
            assert(rows@[i as int] == rows@[i as int]);
            assert(all.skip(k)[0] == all[k]);
            assert(rows@[i as int] == all[k]);
            assert(all.take(k + 1).drop_last() =~= all.take(k));
            assert(all.take(k + 1).last() == all[k]);
        }
        let ghost before = rows@;
        if rows[i].fork_repo_id == id || rows[i].canonical_repo_id == id {
            let _ = rows.remove(i);
            proof {
                assert(rows@ =~= before.remove(i as int));
                assert(rows@ =~= keep(all.take(k + 1), p) + all.skip(k + 1));
            }
        } else {
            i += 1;
            proof {
                assert(rows@ =~= keep(all.take(k + 1), p) + all.skip(k + 1));
            }
        }
        proof {
            k = k + 1;
        }
    }
    proof {
        assert(rows@.len() == rows@.len());
        assert(k == all.len());
        assert(all.take(k) =~= all);
        assert(keep(all, p) + all.skip(k) =~= keep(all, p));
    }
}

fn remove_fork_parents(rows: &mut Vec<ForkRow>, id: i64)
    ensures
        final(rows)@ == keep(old(rows)@, |r: ForkRow| r.fork_repo_id != id),
{
    let ghost all = rows@;
    let ghost p = |r: ForkRow| r.fork_repo_id != id;
    let ghost mut k: int = 0;
    let mut i: usize = 0;
    proof {
        assert(rows@ =~= keep(all.take(0), p) + all.skip(0));
    }
    while i < rows.len()
        invariant
            p == (|r: ForkRow| r.fork_repo_id != id),
            0 <= k <= all.len(),
            i <= rows@.len(),
            i == keep(all.take(k), p).len(),
            rows@ == keep(all.take(k), p) + all.skip(k),
        decreases rows@.len() - i,
    {
        proof {
            assert(rows@.len() == rows@.len());
            assert(rows@[i as int] == rows@[i as int]);
            assert(all.skip(k)[0] == all[k]);
            assert(rows@[i as int] == all[k]);
            assert(all.take(k + 1).drop_last() =~= all.take(k));
            assert(all.take(k + 1).last() == all[k]);
        }
        let ghost before = rows@;
        if rows[i].fork_repo_id == id {
            let _ = rows.remove(i);
            proof {
                assert(rows@ =~= before.remove(i as int));
                assert(rows@ =~= keep(all.take(k + 1), p) + all.skip(k + 1));
            }
        } else {
            i += 1;
            proof {
                assert(rows@ =~= keep(all.take(k + 1), p) + all.skip(k + 1));
            }
        }
        proof {
            k = k + 1;
        }
    }
    proof {
        assert(rows@.len() == rows@.len());
        assert(k == all.len());
        assert(all.take(k) =~= all);
        assert(keep(all, p) + all.skip(k) =~= keep(all, p));
    }
}

fn remove_related_parents(rows: &mut Vec<RelatedRow>, id: i64)
    ensures
        related_views(final(rows)@) == keep(related_views(old(rows)@), |r: RelatedView| !(r.repo_id == id && dependent_resolution(r.resolution))),
{
    let ghost all = related_views(rows@);
    let ghost p = |r: RelatedView| !(r.repo_id == id && dependent_resolution(r.resolution));
    let ghost mut k: int = 0;
    let mut i: usize = 0;
    proof {
        assert(related_views(rows@) =~= keep(all.take(0), p) + all.skip(0));
    }
    while i < rows.len()
        invariant
            p == (|r: RelatedView| !(r.repo_id == id && dependent_resolution(r.resolution))),
            0 <= k <= all.len(),
            i <= rows@.len(),
            i == keep(all.take(k), p).len(),
            related_views(rows@) == keep(all.take(k), p) + all.skip(k),
        decreases rows@.len() - i,
    {
        proof {
            assert(related_views(rows@).len() == rows@.len());
            assert(related_views(rows@)[i as int] == rows@[i as int]@);
            assert(all.skip(k)[0] == all[k]);
            assert(related_views(rows@)[i as int] == all[k]);
            assert(all.take(k + 1).drop_last() =~= all.take(k));
            assert(all.take(k + 1).last() == all[k]);
        }
        let ghost before = related_views(rows@);
        if rows[i].repo_id == id && is_dependent_resolution(&rows[i].resolution) {
            let _ = rows.remove(i);
            proof {
                assert(related_views(rows@) =~= before.remove(i as int));
                assert(related_views(rows@) =~= keep(all.take(k + 1), p) + all.skip(k + 1));
            }
        } else {
            i += 1;
            proof {
                assert(related_views(rows@) =~= keep(all.take(k + 1), p) + all.skip(k + 1));
            }
        }
        proof {
            k = k + 1;
        }
    }
    proof {
        assert(related_views(rows@).len() == rows@.len());
        assert(k == all.len());
        assert(all.take(k) =~= all);
        assert(keep(all, p) + all.skip(k) =~= keep(all, p));
    }
}

/// The user said of two repositories that one is a fork or mirror of the other.
pub open spec fn dependent_resolution(resolution: Option<Seq<char>>) -> bool {
    resolution == Some("fork"@) || resolution == Some("mirror"@)
}

fn is_dependent_resolution(resolution: &Option<String>) -> (r: bool)
    ensures
        r == dependent_resolution(opt_view(*resolution)),
{
    match resolution {
        Some(text) => text.as_str().eq("fork") || text.as_str().eq("mirror"),
        None => false,
    }
}

/// All that is left once the repository is gone: no row that speaks of it.
pub open spec fn without_repo(before: RegistryView, id: i64) -> RegistryView {
    RegistryView {
        repos: keep(before.repos, |r: RepoView| r.id != id),
        locators: keep(before.locators, |r: PlaceView| r.repo_id != id),
        aliases: keep(before.aliases, |r: AliasView| r.repo_id != id),
        forks: keep(before.forks, |r: ForkRow| r.fork_repo_id != id && r.canonical_repo_id != id),
        successors: before.successors,
        related: keep(before.related, |r: RelatedView| r.repo_id != id && r.related_repo_id != id),
        worktrees: keep(before.worktrees, |r: WorktreeView| r.repo_id != id),
        fetches: keep(before.fetches, |r: FetchView| r.repo_id != id),
    }
}

/// The repository depends on no other any more.
pub open spec fn without_parents(before: RegistryView, id: i64) -> RegistryView {
    RegistryView {
        repos: before.repos.map_values(
            |r: RepoView|
                if r.id == id {
                    RepoView { canonical_identity: None, ..r }
                } else {
                    r
                },
        ),
        forks: keep(before.forks, |r: ForkRow| r.fork_repo_id != id),
        related: keep(
            before.related,
            |r: RelatedView| !(r.repo_id == id && dependent_resolution(r.resolution)),
        ),
        ..before
    }
}

/// A repository depends on the one with the id.
pub open spec fn has_dependents(view: RegistryView, id: i64) -> bool {
    ||| exists|i: int| 0 <= i < view.forks.len() && (#[trigger] view.forks[i]).canonical_repo_id == id
    ||| exists|i: int|
        0 <= i < view.related.len() && (#[trigger] view.related[i]).related_repo_id == id
            && dependent_resolution(view.related[i].resolution)
}

/// A repository answers to the locator: it has or had it, or is identified by
/// it and has or had some locator.
pub open spec fn answers_to(view: RegistryView, repo: RepoView, locator: LocatorView) -> bool {
    exists|i: int|
        0 <= i < view.locators.len() && (#[trigger] view.locators[i]).repo_id == repo.id && (
        repo.identity == locator.key() || view.locators[i].locator == locator)
}

/// The first repository at or behind `i` that answers to the locator; -1 where
/// none does.
pub open spec fn first_answering(view: RegistryView, locator: LocatorView, i: int) -> int
    decreases view.repos.len() - i,
{
    if i >= view.repos.len() {
        -1
    } else if answers_to(view, view.repos[i], locator) {
        i
    } else {
        first_answering(view, locator, i + 1)
    }
}

/// The locators that a repository has or had, in the order in which they were
/// first recorded.
pub open spec fn locators_of(rows: Seq<PlaceView>, id: i64) -> Seq<LocatorView> {
    keep(rows, |r: PlaceView| r.repo_id == id).map_values(|r: PlaceView| r.locator)
}

/// The first alias row at or behind `i` for the path; -1 where there is none.
pub open spec fn alias_at(rows: Seq<AliasView>, path: Seq<char>, i: int) -> int
    decreases rows.len() - i,
{
    if i >= rows.len() {
        -1
    } else if rows[i].alias_path == path {
        i
    } else {
        alias_at(rows, path, i + 1)
    }
}

/// The rows once the path is an alias. An alias that is there already keeps the
/// repository that it was recorded for.
pub open spec fn aliased(
    rows: Seq<AliasView>,
    id: i64,
    path: Seq<char>,
    target: Seq<char>,
) -> Seq<AliasView> {
    let i = alias_at(rows, path, 0);
    if 0 <= i < rows.len() {
        rows.update(i, AliasView { target_path: target, ..rows[i] })
    } else {
        rows.push(AliasView { repo_id: id, alias_path: path, target_path: target })
    }
}

pub open spec fn all_aliased(rows: Seq<AliasView>, id: i64, aliases: Seq<AliasPlan>) -> Seq<
    AliasView,
>
    decreases aliases.len(),
{
    if aliases.len() == 0 {
        rows
    } else {
        aliased(
            all_aliased(rows, id, aliases.drop_last()),
            id,
            aliases.last().alias_path@,
            aliases.last().target_path@,
        )
    }
}

/// The metadata once the repository has moved as planned.
pub open spec fn moved(before: RegistryView, id: i64, plan: MovePlan) -> RegistryView {
    RegistryView {
        repos: before.repos.map_values(
            |r: RepoView|
                if r.id == id {
                    RepoView { current: plan.new_locator@, path: plan.new_path@, ..r }
                } else {
                    r
                },
        ),
        locators: located(
            located(before.locators, id, plan.old_locator@, plan.old_path@, false),
            id,
            plan.new_locator@,
            plan.new_path@,
            true,
        ),
        aliases: all_aliased(before.aliases, id, plan.aliases@),
        ..before
    }
}

/// A repository as its row tells it.
#[derive(Debug)]
pub struct ManagedRepoRecord {
    pub id: i64,
    pub current: Locator,
    pub path: String,
}

pub struct RecordView {
    pub id: i64,
    pub current: LocatorView,
    pub path: Seq<char>,
}

impl View for ManagedRepoRecord {
    type V = RecordView;

    open spec fn view(&self) -> RecordView {
        RecordView { id: self.id, current: self.current@, path: self.path@ }
    }
}

impl Clone for ManagedRepoRecord {
    fn clone(&self) -> (r: Self)
        ensures
            r@ == self@,
    {
        ManagedRepoRecord { id: self.id, current: self.current.clone(), path: self.path.clone() }
    }
}

pub open spec fn record_of(repo: RepoView) -> RecordView {
    RecordView { id: repo.id, current: repo.current, path: repo.path }
}

pub open spec fn record_views(v: Seq<ManagedRepoRecord>) -> Seq<RecordView> {
    v.map_values(|r: ManagedRepoRecord| r@)
}

/// The order of locators: by authority, then by remote path.
pub open spec fn locator_less(a: LocatorView, b: LocatorView) -> bool {
    text_less(a.authority, b.authority) || (a.authority == b.authority && text_less(
        a.remote_path,
        b.remote_path,
    ))
}

pub fn locator_before(a: &Locator, b: &Locator) -> (r: bool)
    ensures
        r == locator_less(a@, b@),
{
    proof {
        crate::text::lemma_less_from_total(a@.authority, b@.authority, 0);
        crate::text::lemma_less_from_total(a@.remote_path, b@.remote_path, 0);
    }
    match rank_texts(&a.authority, &b.authority) {
        Rank::Before => true,
        Rank::After => false,
        Rank::Same => rank_texts(&a.remote_path, &b.remote_path) == Rank::Before,
    }
}

/// The first of `records` at or behind `i` that comes after the locator.
pub open spec fn record_slot(records: Seq<RecordView>, locator: LocatorView, i: int) -> int
    decreases records.len() - i,
{
    if i < records.len() && !locator_less(locator, records[i].current) {
        record_slot(records, locator, i + 1)
    } else {
        i
    }
}

/// The repositories in the order of their current locators.
pub open spec fn sorted_records(repos: Seq<RepoView>) -> Seq<RecordView>
    decreases repos.len(),
{
    if repos.len() == 0 {
        seq![]
    } else {
        let before = sorted_records(repos.drop_last());
        let last = record_of(repos.last());
        before.insert(record_slot(before, last.current, 0), last)
    }
}

pub fn insert_record(records: &mut Vec<ManagedRepoRecord>, record: ManagedRepoRecord)
    ensures
        record_views(final(records)@) == record_views(old(records)@).insert(
            record_slot(record_views(old(records)@), record@.current, 0),
            record@,
        ),
{
    let ghost before = record_views(records@);
    let ghost r = record@;
    let mut i: usize = 0;
    while i < records.len() && !locator_before(&record.current, &records[i].current)
        invariant
            i <= records@.len(),
            records@ == old(records)@,
            before == record_views(records@),
            r == record@,
            record_slot(before, r.current, i as int) == record_slot(before, r.current, 0),
        decreases records@.len() - i,
    {
        proof {
            assert(before[i as int] == records@[i as int]@);
        }
        i += 1;
    }
    proof {
        if i < records@.len() {
            assert(before[i as int] == records@[i as int]@);
        }
        assert(record_slot(before, r.current, 0) == i);
    }
    records.insert(i, record);
    proof {
        assert(record_views(records@) =~= before.insert(i as int, r));
    }
}

impl Registry {
    fn record_at(&self, i: usize) -> (r: ManagedRepoRecord)
        requires
            i < self.repos@.len(),
        ensures
            r@ == record_of(self@.repos[i as int]),
    {
        ManagedRepoRecord {
            id: self.repos[i].id,
            current: self.repos[i].current.clone(),
            path: self.repos[i].path.clone(),
        }
    }

    /// The repositories in the order of their current locators.
    pub fn current_repos(&self) -> (r: Vec<ManagedRepoRecord>)
        ensures
            record_views(r@) == sorted_records(self@.repos),
    {
        let mut r: Vec<ManagedRepoRecord> = Vec::new();
        proof {
            assert(record_views(r@) =~= sorted_records(self@.repos.take(0)));
        }
        let mut i: usize = 0;
        while i < self.repos.len()
            invariant
                i <= self.repos@.len(),
                record_views(r@) == sorted_records(self@.repos.take(i as int)),
            decreases self.repos@.len() - i,
        {
            insert_record(&mut r, self.record_at(i));
            i += 1;
            proof {
                assert(self@.repos.take(i as int).drop_last() =~= self@.repos.take(i - 1));
            }
        }
        proof {
            assert(self@.repos.take(i as int) =~= self@.repos);
        }
        r
    }

    pub fn repo_by_id(&self, repo_id: i64) -> (r: Option<ManagedRepoRecord>)
        ensures
            match r {
                Some(record) => known(self@.repos, repo_id) && record@ == record_of(
                    self@.repos[with_id(self@.repos, repo_id, 0)],
                ),
                None => !known(self@.repos, repo_id),
            },
    {
        match self.id_index(repo_id) {
            Some(i) => Some(self.record_at(i)),
            None => None,
        }
    }

    /// The first repository whose path is written so.
    pub fn repo_by_path(&self, path: &str) -> (r: Option<ManagedRepoRecord>)
        ensures
            match r {
                Some(record) => exists|i: int|
                    0 <= i < self@.repos.len() && record@ == record_of(#[trigger] self@.repos[i])
                        && self@.repos[i].path == path@ && forall|j: int|
                        0 <= j < i ==> (#[trigger] self@.repos[j]).path != path@,
                None => forall|i: int|
                    0 <= i < self@.repos.len() ==> (#[trigger] self@.repos[i]).path != path@,
            },
    {
        let mut i: usize = 0;
        while i < self.repos.len()
            invariant
                i <= self.repos@.len(),
                forall|j: int| 0 <= j < i ==> (#[trigger] self@.repos[j]).path != path@,
            decreases self.repos@.len() - i,
        {
            proof {
                assert(self@.repos[i as int] == self.repos@[i as int]@);
            }
            if self.repos[i].path.as_str().eq(path) {
                return Some(self.record_at(i));
            }
            i += 1;
        }
        None
    }

    fn answers(&self, i: usize, locator: &Locator) -> (r: bool)
        requires
            i < self.repos@.len(),
        ensures
            r == answers_to(self@, self@.repos[i as int], locator@),
    {
        proof {
            assert(self@.repos[i as int] == self.repos@[i as int]@);
        }
        let identified = self.repos[i].identity.as_str().eq(locator.key().as_str());
        let id = self.repos[i].id;
        let mut j: usize = 0;
        while j < self.locators.len()
            invariant
                j <= self.locators@.len(),
                i < self.repos@.len(),
                id == self@.repos[i as int].id,
                identified == (self@.repos[i as int].identity == locator@.key()),
                forall|m: int|
                    0 <= m < j ==> !((#[trigger] self@.locators[m]).repo_id == id && (identified
                        || self@.locators[m].locator == locator@)),
            decreases self.locators@.len() - j,
        {
            proof {
                assert(self@.locators[j as int] == self.locators@[j as int]@);
            }
            if self.locators[j].repo_id == id && (identified || self.locators[j].locator.same(
                locator,
            )) {
                return true;
            }
            j += 1;
        }
        false
    }

    /// The first repository that answers to the locator.
    pub fn find_locator(&self, locator: &Locator) -> (r: Option<ManagedRepoRecord>)
        ensures
            match r {
                Some(record) => 0 <= first_answering(self@, locator@, 0) < self@.repos.len()
                    && record@ == record_of(self@.repos[first_answering(self@, locator@, 0)]),
                None => first_answering(self@, locator@, 0) == -1,
            },
    {
        let mut i: usize = 0;
        while i < self.repos.len()
            invariant
                i <= self.repos@.len(),
                first_answering(self@, locator@, i as int) == first_answering(self@, locator@, 0),
            decreases self.repos@.len() - i,
        {
            if self.answers(i, locator) {
                return Some(self.record_at(i));
            }
            i += 1;
        }
        None
    }

    /// The repository that a URL or locator names.
    pub fn find_repo(&self, repo_ref: &str) -> (r: Result<Option<ManagedRepoRecord>, Error>)
        ensures
            match r {
                Ok(found) => parsed_locator(
                    repo_ref@,
                    parsed_url(trim_text(repo_ref@)),
                ) matches Ok(locator) && match found {
                    Some(record) => 0 <= first_answering(self@, locator, 0) < self@.repos.len()
                        && record@ == record_of(self@.repos[first_answering(self@, locator, 0)]),
                    None => first_answering(self@, locator, 0) == -1,
                },
                Err(e) => parsed_locator(repo_ref@, parsed_url(trim_text(repo_ref@))) == Err::<
                    LocatorView,
                    Seq<char>,
                >(e@),
            },
    {
        match Locator::parse(repo_ref) {
            Ok(locator) => Ok(self.find_locator(&locator)),
            Err(error) => Err(error),
        }
    }

    /// Forgets the repository and all rows that speak of it.
    pub fn delete_repo(&mut self, repo_id: i64) -> (r: Result<(), Error>)
        ensures
            r is Ok <==> known(old(self)@.repos, repo_id),
            r is Ok ==> final(self)@ == without_repo(old(self)@, repo_id),
            r matches Err(e) ==> final(self)@ == old(self)@ && e@ == "unknown repository id: "@
                + integer(repo_id as int),
    {
        if self.id_index(repo_id).is_none() {
            return Err(Error::about("unknown repository id: ", &integer_text(repo_id)));
        }
        remove_repos(&mut self.repos, repo_id);
        remove_places(&mut self.locators, repo_id);
        remove_aliases(&mut self.aliases, repo_id);
        remove_forks(&mut self.forks, repo_id);
        remove_related(&mut self.related, repo_id);
        remove_worktrees(&mut self.worktrees, repo_id);
        remove_fetches(&mut self.fetches, repo_id);
        Ok(())
    }

    pub fn historical_locators(&self, repo_id: i64) -> (r: Vec<Locator>)
        ensures
            crate::moves::locator_views(r@) == locators_of(self@.locators, repo_id),
    {
        let mut r: Vec<Locator> = Vec::new();
        let ghost all = self@.locators;
        proof {
            assert(crate::moves::locator_views(r@) =~= locators_of(all.take(0), repo_id));
        }
        let mut i: usize = 0;
        while i < self.locators.len()
            invariant
                i <= self.locators@.len(),
                all == self@.locators,
                crate::moves::locator_views(r@) == locators_of(all.take(i as int), repo_id),
            decreases self.locators@.len() - i,
        {
            let ghost before = crate::moves::locator_views(r@);
            proof {
                assert(all.take(i + 1).drop_last() =~= all.take(i as int));
                assert(all.take(i + 1).last() == self.locators@[i as int]@);
            }
            if self.locators[i].repo_id == repo_id {
                let locator = self.locators[i].locator.clone();
                let ghost l = locator@;
                r.push(locator);
                proof {
                    assert(crate::moves::locator_views(r@) =~= before.push(l));
                    assert(locators_of(all.take(i + 1), repo_id) =~= locators_of(
                        all.take(i as int),
                        repo_id,
                    ).push(l));
                }
            }
            i += 1;
        }
        proof {
            assert(all.take(i as int) =~= all);
        }
        r
    }

    fn record_alias(&mut self, repo_id: i64, alias: &AliasPlan)
        ensures
            final(self)@ == (RegistryView {
                aliases: aliased(
                    old(self)@.aliases,
                    repo_id,
                    alias.alias_path@,
                    alias.target_path@,
                ),
                ..old(self)@
            }),
    {
        let ghost before = self@;
        let mut i: usize = 0;
        while i < self.aliases.len()
            invariant
                i <= self.aliases@.len(),
                *self == *old(self),
                before == self@,
                alias_at(before.aliases, alias.alias_path@, i as int) == alias_at(
                    before.aliases,
                    alias.alias_path@,
                    0,
                ),
            decreases self.aliases@.len() - i,
        {
            proof {
                assert(before.aliases[i as int] == self.aliases@[i as int]@);
            }
            if self.aliases[i].alias_path == alias.alias_path {
                self.aliases[i].target_path = alias.target_path.clone();
                proof {
                    assert(self@.aliases =~= aliased(
                        before.aliases,
                        repo_id,
                        alias.alias_path@,
                        alias.target_path@,
                    ));
                }
                return ;
            }
            i += 1;
        }
        let row = AliasRow {
            repo_id,
            alias_path: alias.alias_path.clone(),
            target_path: alias.target_path.clone(),
        };
        let ghost r = row@;
        self.aliases.push(row);
        proof {
            assert(self@.aliases =~= before.aliases.push(r));
        }
    }

    /// Records that the repository moved as planned. One that is not known does
    /// not move.
    pub fn apply_move_metadata(&mut self, repo_id: i64, plan: &MovePlan) -> (r: Result<(), Error>)
        ensures
            r is Ok <==> known(old(self)@.repos, repo_id),
            r is Ok ==> final(self)@ == moved(old(self)@, repo_id, *plan),
            r matches Err(e) ==> final(self)@ == old(self)@ && e@ == unknown_row(),
    {
        if self.id_index(repo_id).is_none() {
            return Err(Error::fixed("FOREIGN KEY constraint failed"));
        }
        let ghost before = self@;
        let ghost rows = self.repos@;
        let mut i: usize = 0;
        while i < self.repos.len()
            invariant
                i <= self.repos@.len(),
                self.repos@.len() == rows.len(),
                rows == old(self).repos@,
                self.locators == old(self).locators,
                self.aliases == old(self).aliases,
                self.forks == old(self).forks,
                self.successors == old(self).successors,
                self.related == old(self).related,
                self.worktrees == old(self).worktrees,
                self.fetches == old(self).fetches,
                forall|j: int| i <= j < rows.len() ==> self.repos@[j] == rows[j],
                forall|j: int|
                    0 <= j < i ==> (#[trigger] self.repos@[j])@ == (if rows[j].id == repo_id {
                        RepoView { current: plan.new_locator@, path: plan.new_path@, ..rows[j]@ }
                    } else {
                        rows[j]@
                    }),
            decreases self.repos@.len() - i,
        {
            if self.repos[i].id == repo_id {
                self.repos[i].current = plan.new_locator.clone();
                self.repos[i].path = plan.new_path.clone();
            }
            i += 1;
        }
        proof {
            assert(self@.repos =~= moved(before, repo_id, *plan).repos);
        }
        self.note_locator(repo_id, &plan.old_locator, &plan.old_path, false);
        self.note_locator(repo_id, &plan.new_locator, &plan.new_path, true);
        let ghost mid = self@;
        proof {
            assert(plan.aliases@.take(0) =~= seq![]);
        }
        let mut i: usize = 0;
        while i < plan.aliases.len()
            invariant
                i <= plan.aliases@.len(),
                self@ == (RegistryView {
                    aliases: all_aliased(mid.aliases, repo_id, plan.aliases@.take(i as int)),
                    ..mid
                }),
            decreases plan.aliases@.len() - i,
        {
            self.record_alias(repo_id, &plan.aliases[i]);
            i += 1;
            proof {
                assert(plan.aliases@.take(i as int).drop_last() =~= plan.aliases@.take(i - 1));
            }
        }
        proof {
            assert(plan.aliases@.take(i as int) =~= plan.aliases@);
        }
        Ok(())
    }

    /// Records that the repository depends on no other.
    pub fn clear_dependent_relationships(&mut self, repo_id: i64)
        ensures
            final(self)@ == without_parents(old(self)@, repo_id),
    {
        let ghost before = self@;
        let ghost rows = self.repos@;
        remove_fork_parents(&mut self.forks, repo_id);
        remove_related_parents(&mut self.related, repo_id);
        let ghost mid = *self;
        let mut i: usize = 0;
        while i < self.repos.len()
            invariant
                i <= self.repos@.len(),
                self.repos@.len() == rows.len(),
                rows == mid.repos@,
                self.locators == mid.locators,
                self.aliases == mid.aliases,
                self.forks == mid.forks,
                self.successors == mid.successors,
                self.related == mid.related,
                self.worktrees == mid.worktrees,
                self.fetches == mid.fetches,
                forall|j: int| i <= j < rows.len() ==> self.repos@[j] == rows[j],
                forall|j: int|
                    0 <= j < i ==> (#[trigger] self.repos@[j])@ == (if rows[j].id == repo_id {
                        RepoView { canonical_identity: None, ..rows[j]@ }
                    } else {
                        rows[j]@
                    }),
            decreases self.repos@.len() - i,
        {
            if self.repos[i].id == repo_id {
                self.repos[i].canonical_identity = None;
            }
            i += 1;
        }
        proof {
            assert(self@.repos =~= without_parents(before, repo_id).repos);
        }
    }

    /// Refuses a repository that others depend on.
    pub fn ensure_no_dependents(&self, repo_id: i64) -> (r: Result<(), Error>)
        ensures
            r is Err <==> has_dependents(self@, repo_id),
            r matches Err(e) ==> e@
                == "repository is canonical for existing fork/mirror checkout(s)"@,
    {
        let mut i: usize = 0;
        while i < self.forks.len()
            invariant
                i <= self.forks@.len(),
                forall|j: int| 0 <= j < i ==> (#[trigger] self@.forks[j]).canonical_repo_id != repo_id,
            decreases self.forks@.len() - i,
        {
            if self.forks[i].canonical_repo_id == repo_id {
                proof {
                    assert(self@.forks[i as int].canonical_repo_id == repo_id);
                }
                return Err(
                    Error::fixed("repository is canonical for existing fork/mirror checkout(s)"),
                );
            }
            i += 1;
        }
        let mut i: usize = 0;
        while i < self.related.len()
            invariant
                i <= self.related@.len(),
                forall|j: int|
                    0 <= j < i ==> !((#[trigger] self@.related[j]).related_repo_id == repo_id
                        && dependent_resolution(self@.related[j].resolution)),
            decreases self.related@.len() - i,
        {
            proof {
                assert(self@.related[i as int] == self.related@[i as int]@);
            }
            if self.related[i].related_repo_id == repo_id && is_dependent_resolution(
                &self.related[i].resolution,
            ) {
                return Err(
                    Error::fixed("repository is canonical for existing fork/mirror checkout(s)"),
                );
            }
            i += 1;
        }
        Ok(())
    }
}

} // verus!
