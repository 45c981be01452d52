//! The metadata on how repositories relate: forks, shared history, successors,
//! old paths, worktrees.
use crate::error::Error;
use crate::locator::{parsed_locator, parsed_url, Locator, LocatorView};
use crate::moves::AliasPlan;
use crate::registry::{
    dependent_resolution, first_answering, known, locator_before, locator_less, top_related_id,
    with_id, AliasView, ForkRow, Registry, RegistryView, RelatedRow, RelatedView, RepoView,
    SuccessorRow, WorktreeRow, WorktreeView,
};
use crate::relations::{link_views, LinkView, SharedGitDirRelationship};
use crate::text::{
    clone_texts, integer, integer_text, opt_view, rank_texts, text_less, trim_text, views, Rank,
};
use vstd::prelude::*;

verus! {

/// What is refused where a row would speak of an unknown repository.
pub open spec fn unknown_row() -> Seq<char> {
    "FOREIGN KEY constraint failed"@
}

pub open spec fn forked(forks: Seq<ForkRow>, fork: i64, canonical: i64) -> Seq<ForkRow> {
    let row = ForkRow { fork_repo_id: fork, canonical_repo_id: canonical };
    if forks.contains(row) {
        forks
    } else {
        forks.push(row)
    }
}

/// The first row at or behind `i` for the pair; -1 where there is none.
pub open spec fn pair_at(rows: Seq<RelatedView>, a: i64, b: i64, i: int) -> int
    decreases rows.len() - i,
{
    if i >= rows.len() {
        -1
    } else if rows[i].repo_id == a && rows[i].related_repo_id == b {
        i
    } else {
        pair_at(rows, a, b, i + 1)
    }
}

/// The rows once the pair is known to share history.
pub open spec fn history_shared(rows: Seq<RelatedView>, a: i64, b: i64, refs: Seq<Seq<char>>)
    -> Seq<RelatedView> {
    let i = pair_at(rows, a, b, 0);
    if 0 <= i < rows.len() {
        rows.update(i, RelatedView { shared_refs: refs, ..rows[i] })
    } else {
        rows.push(
            RelatedView {
                id: (top_related_id(rows) + 1) as i64,
                repo_id: a,
                related_repo_id: b,
                shared_refs: refs,
                resolution: None,
            },
        )
    }
}

/// The rows once it is said what the pair is.
pub open spec fn pair_resolved(rows: Seq<RelatedView>, a: i64, b: i64, resolution: Seq<char>)
    -> Seq<RelatedView> {
    let i = pair_at(rows, a, b, 0);
    if 0 <= i < rows.len() {
        rows.update(i, RelatedView { resolution: Some(resolution), ..rows[i] })
    } else {
        rows.push(
            RelatedView {
                id: (top_related_id(rows) + 1) as i64,
                repo_id: a,
                related_repo_id: b,
                shared_refs: seq![],
                resolution: Some(resolution),
            },
        )
    }
}

pub open spec fn smaller(a: i64, b: i64) -> i64 {
    if a < b {
        a
    } else {
        b
    }
}

pub open spec fn larger(a: i64, b: i64) -> i64 {
    if a < b {
        b
    } else {
        a
    }
}

/// The first row at or behind `i` with the id; -1 where there is none.
pub open spec fn related_at(rows: Seq<RelatedView>, id: i64, i: int) -> int
    decreases rows.len() - i,
{
    if i >= rows.len() {
        -1
    } else if rows[i].id == id {
        i
    } else {
        related_at(rows, id, i + 1)
    }
}

/// The rows once something is said of the one with the number.
pub open spec fn row_resolved(rows: Seq<RelatedView>, id: i64, resolution: Seq<char>) -> Seq<
    RelatedView,
> {
    let k = related_at(rows, id, 0);
    rows.update(k, RelatedView { resolution: Some(resolution), ..rows[k] })
}

/// The registry once a repository depends on its parent, as a fork or as a mirror.
pub open spec fn with_dependent(
    view: RegistryView,
    dependent: i64,
    parent: i64,
    relationship: Seq<char>,
) -> RegistryView {
    if relationship == "fork"@ {
        RegistryView { forks: forked(view.forks, dependent, parent), ..view }
    } else {
        RegistryView {
            related: pair_resolved(view.related, dependent, parent, "mirror"@),
            ..view
        }
    }
}

pub open spec fn unresolved(rows: Seq<RelatedView>) -> nat
    decreases rows.len(),
{
    if rows.len() == 0 {
        0
    } else {
        unresolved(rows.drop_last()) + if rows.last().resolution is None {
            1nat
        } else {
            0nat
        }
    }
}

/// Two repositories that share history, with where they are.
#[derive(Debug)]
pub struct RelatedSuggestion {
    pub id: i64,
    pub repo_id: i64,
    pub repo_locator: Locator,
    pub repo_path: String,
    pub related_repo_id: i64,
    pub related_locator: Locator,
    pub related_path: String,
    pub shared_refs: Vec<String>,
    pub resolution: Option<String>,
}

pub struct SuggestionView {
    pub id: i64,
    pub repo_id: i64,
    pub repo_locator: LocatorView,
    pub repo_path: Seq<char>,
    pub related_repo_id: i64,
    pub related_locator: LocatorView,
    pub related_path: Seq<char>,
    pub shared_refs: Seq<Seq<char>>,
    pub resolution: Option<Seq<char>>,
}

impl View for RelatedSuggestion {
    type V = SuggestionView;

    open spec fn view(&self) -> SuggestionView {
        SuggestionView {
            id: self.id,
            repo_id: self.repo_id,
            repo_locator: self.repo_locator@,
            repo_path: self.repo_path@,
            related_repo_id: self.related_repo_id,
            related_locator: self.related_locator@,
            related_path: self.related_path@,
            shared_refs: views(self.shared_refs@),
            resolution: opt_view(self.resolution),
        }
    }
}

pub open spec fn suggestion_views(v: Seq<RelatedSuggestion>) -> Seq<SuggestionView> {
    v.map_values(|s: RelatedSuggestion| s@)
}

pub open spec fn suggestion_of(repos: Seq<RepoView>, row: RelatedView) -> SuggestionView {
    let a = repos[with_id(repos, row.repo_id, 0)];
    let b = repos[with_id(repos, row.related_repo_id, 0)];
    SuggestionView {
        id: row.id,
        repo_id: row.repo_id,
        repo_locator: a.current,
        repo_path: a.path,
        related_repo_id: row.related_repo_id,
        related_locator: b.current,
        related_path: b.path,
        shared_refs: row.shared_refs,
        resolution: row.resolution,
    }
}

/// The rows whose repositories are known, as suggestions.
pub open spec fn suggestions(repos: Seq<RepoView>, rows: Seq<RelatedView>, unresolved_only: bool)
    -> Seq<SuggestionView>
    decreases rows.len(),
{
    if rows.len() == 0 {
        seq![]
    } else {
        let before = suggestions(repos, rows.drop_last(), unresolved_only);
        let row = rows.last();
        if known(repos, row.repo_id) && known(repos, row.related_repo_id) && !(unresolved_only
            && row.resolution is Some) {
            before.push(suggestion_of(repos, row))
        } else {
            before
        }
    }
}

pub fn clone_text(o: &Option<String>) -> (r: Option<String>)
    ensures
        opt_view(r) == opt_view(*o),
{
    match o {
        Some(x) => Some(x.clone()),
        None => None,
    }
}

/// The same repositories in the same relationship.
pub open spec fn same_link(a: LinkView, b: LinkView) -> bool {
    a.relationship == b.relationship && a.dependent_repo_id == b.dependent_repo_id
        && a.controlling_repo_id == b.controlling_repo_id
}

pub open spec fn has_link(links: Seq<LinkView>, link: LinkView) -> bool {
    exists|i: int| 0 <= i < links.len() && same_link(#[trigger] links[i], link)
}

pub open spec fn add_link(links: Seq<LinkView>, link: LinkView) -> Seq<LinkView> {
    if has_link(links, link) {
        links
    } else {
        links.push(link)
    }
}

pub open spec fn suggestion_link(s: SuggestionView) -> LinkView {
    LinkView {
        relationship: s.resolution->0,
        dependent_repo_id: s.repo_id,
        dependent_locator: s.repo_locator,
        dependent_path: s.repo_path,
        controlling_repo_id: s.related_repo_id,
        controlling_locator: s.related_locator,
        controlling_path: s.related_path,
    }
}

/// The relationships that the user confirmed of shared history.
pub open spec fn confirmed_links(list: Seq<SuggestionView>) -> Seq<LinkView>
    decreases list.len(),
{
    if list.len() == 0 {
        seq![]
    } else {
        let before = confirmed_links(list.drop_last());
        if dependent_resolution(list.last().resolution) {
            add_link(before, suggestion_link(list.last()))
        } else {
            before
        }
    }
}

pub open spec fn fork_link(repos: Seq<RepoView>, row: ForkRow) -> LinkView {
    let a = repos[with_id(repos, row.fork_repo_id, 0)];
    let b = repos[with_id(repos, row.canonical_repo_id, 0)];
    LinkView {
        relationship: "fork"@,
        dependent_repo_id: row.fork_repo_id,
        dependent_locator: a.current,
        dependent_path: a.path,
        controlling_repo_id: row.canonical_repo_id,
        controlling_locator: b.current,
        controlling_path: b.path,
    }
}

/// The first of `links` at or behind `i` whose fork comes after the locator.
pub open spec fn link_slot(links: Seq<LinkView>, locator: LocatorView, i: int) -> int
    decreases links.len() - i,
{
    if i < links.len() && !locator_less(locator, links[i].dependent_locator) {
        link_slot(links, locator, i + 1)
    } else {
        i
    }
}

/// The recorded forks whose repositories are known, in the order of the forks'
/// locators.
pub open spec fn sorted_forks(repos: Seq<RepoView>, rows: Seq<ForkRow>) -> Seq<LinkView>
    decreases rows.len(),
{
    if rows.len() == 0 {
        seq![]
    } else {
        let before = sorted_forks(repos, rows.drop_last());
        let row = rows.last();
        if known(repos, row.fork_repo_id) && known(repos, row.canonical_repo_id) {
            let link = fork_link(repos, row);
            before.insert(link_slot(before, link.dependent_locator, 0), link)
        } else {
            before
        }
    }
}

pub open spec fn add_links(links: Seq<LinkView>, more: Seq<LinkView>) -> Seq<LinkView>
    decreases more.len(),
{
    if more.len() == 0 {
        links
    } else {
        add_link(add_links(links, more.drop_last()), more.last())
    }
}

/// All fork and mirror relationships, each once.
pub open spec fn all_links(view: RegistryView) -> Seq<LinkView> {
    add_links(
        confirmed_links(suggestions(view.repos, view.related, false)),
        sorted_forks(view.repos, view.forks),
    )
}

fn push_link(links: &mut Vec<SharedGitDirRelationship>, link: SharedGitDirRelationship)
    ensures
        link_views(final(links)@) == add_link(link_views(old(links)@), link@),
{
    let ghost before = link_views(links@);
    let ghost l = link@;
    let mut i: usize = 0;
    while i < links.len()
        invariant
            i <= links@.len(),
            links@ == old(links)@,
            before == link_views(links@),
            l == link@,
            forall|j: int| 0 <= j < i ==> !same_link(#[trigger] before[j], l),
        decreases links@.len() - i,
    {
        proof {
            assert(before[i as int] == links@[i as int]@);
        }
        if links[i].relationship == link.relationship && links[i].dependent_repo_id
            == link.dependent_repo_id && links[i].controlling_repo_id == link.controlling_repo_id {
            proof {
                assert(same_link(before[i as int], l));
            }
            return ;
        }
        i += 1;
    }
    links.push(link);
    proof {
        assert(link_views(links@) =~= before.push(l));
    }
}

fn insert_link(links: &mut Vec<SharedGitDirRelationship>, link: SharedGitDirRelationship)
    ensures
        link_views(final(links)@) == link_views(old(links)@).insert(
            link_slot(link_views(old(links)@), link@.dependent_locator, 0),
            link@,
        ),
{
    let ghost before = link_views(links@);
    let ghost l = link@;
    let mut i: usize = 0;
    while i < links.len() && !locator_before(&link.dependent_locator, &links[i].dependent_locator)
        invariant
            i <= links@.len(),
            links@ == old(links)@,
            before == link_views(links@),
            l == link@,
            link_slot(before, l.dependent_locator, i as int) == link_slot(
                before,
                l.dependent_locator,
                0,
            ),
        decreases links@.len() - i,
    {
        proof {
            assert(before[i as int] == links@[i as int]@);
        }
        i += 1;
    }
    proof {
        if i < links@.len() {
            assert(before[i as int] == links@[i as int]@);
        }
        assert(link_slot(before, l.dependent_locator, 0) == i);
    }
    links.insert(i, link);
    proof {
        assert(link_views(links@) =~= before.insert(i as int, l));
    }
}

/// The aliases of a repository in the order of their paths.
pub open spec fn alias_slot(rows: Seq<(Seq<char>, Seq<char>)>, path: Seq<char>, i: int) -> int
    decreases rows.len() - i,
{
    if i < rows.len() && !text_less(path, rows[i].0) {
        alias_slot(rows, path, i + 1)
    } else {
        i
    }
}

pub open spec fn sorted_aliases(rows: Seq<AliasView>, id: i64) -> Seq<(Seq<char>, Seq<char>)>
    decreases rows.len(),
{
    if rows.len() == 0 {
        seq![]
    } else {
        let before = sorted_aliases(rows.drop_last(), id);
        let row = rows.last();
        if row.repo_id == id {
            before.insert(
                alias_slot(before, row.alias_path, 0),
                (row.alias_path, row.target_path),
            )
        } else {
            before
        }
    }
}

pub open spec fn plan_views(v: Seq<AliasPlan>) -> Seq<(Seq<char>, Seq<char>)> {
    v.map_values(|a: AliasPlan| (a.alias_path@, a.target_path@))
}

fn insert_alias(list: &mut Vec<AliasPlan>, alias: AliasPlan)
    ensures
        plan_views(final(list)@) == plan_views(old(list)@).insert(
            alias_slot(plan_views(old(list)@), alias.alias_path@, 0),
            (alias.alias_path@, alias.target_path@),
        ),
{
    let ghost before = plan_views(list@);
    let ghost a = (alias.alias_path@, alias.target_path@);
    let mut i: usize = 0;
    while i < list.len() && rank_texts(&alias.alias_path, &list[i].alias_path) != Rank::Before
        invariant
            i <= list@.len(),
            list@ == old(list)@,
            before == plan_views(list@),
            a == (alias.alias_path@, alias.target_path@),
            alias_slot(before, a.0, i as int) == alias_slot(before, a.0, 0),
        decreases list@.len() - i,
    {
        proof {
            assert(before[i as int].0 == list@[i as int].alias_path@);
            crate::text::lemma_less_from_total(a.0, before[i as int].0, 0);
        }
        i += 1;
    }
    proof {
        if i < list@.len() {
            assert(before[i as int].0 == list@[i as int].alias_path@);
            crate::text::lemma_less_from_total(a.0, before[i as int].0, 0);
        }
        assert(alias_slot(before, a.0, 0) == i);
    }
    list.insert(i, alias);
    proof {
        assert(plan_views(list@) =~= before.insert(i as int, a));
    }
}

/// The rows once the old source has the successor.
pub open spec fn succeeded(
    rows: Seq<(Seq<char>, LocatorView)>,
    old_ref: Seq<char>,
    locator: LocatorView,
) -> Seq<(Seq<char>, LocatorView)> {
    let i = successor_at(rows, old_ref, 0);
    if 0 <= i < rows.len() {
        rows.update(i, (old_ref, locator))
    } else {
        rows.push((old_ref, locator))
    }
}

pub open spec fn successor_at(rows: Seq<(Seq<char>, LocatorView)>, old_ref: Seq<char>, i: int)
    -> int
    decreases rows.len() - i,
{
    if i >= rows.len() {
        -1
    } else if rows[i].0 == old_ref {
        i
    } else {
        successor_at(rows, old_ref, i + 1)
    }
}

pub open spec fn worktree_at(rows: Seq<WorktreeView>, path: Seq<char>, i: int) -> int
    decreases rows.len() - i,
{
    if i >= rows.len() {
        -1
    } else if rows[i].path == path {
        i
    } else {
        worktree_at(rows, path, i + 1)
    }
}

/// The rows once the worktree is recorded. A path has one row.
pub open spec fn with_worktree(rows: Seq<WorktreeView>, row: WorktreeView) -> Seq<WorktreeView> {
    let i = worktree_at(rows, row.path, 0);
    if 0 <= i < rows.len() {
        rows.update(i, row)
    } else {
        rows.push(row)
    }
}

impl Registry {
    fn is_known(&self, id: i64) -> (r: bool)
        ensures
            r == known(self@.repos, id),
    {
        self.repo_by_id(id).is_some()
    }

    /// Records that one repository is a fork of another.
    pub fn record_fork(&mut self, fork_repo_id: i64, canonical_repo_id: i64) -> (r: Result<
        (),
        Error,
    >)
        ensures
            r is Ok <==> known(old(self)@.repos, fork_repo_id) && known(
                old(self)@.repos,
                canonical_repo_id,
            ),
            r is Ok ==> final(self)@ == (RegistryView {
                forks: forked(old(self)@.forks, fork_repo_id, canonical_repo_id),
                ..old(self)@
            }),
            r matches Err(e) ==> final(self)@ == old(self)@ && e@ == unknown_row(),
    {
        if !self.is_known(fork_repo_id) || !self.is_known(canonical_repo_id) {
            return Err(Error::fixed("FOREIGN KEY constraint failed"));
        }
        let ghost row = ForkRow { fork_repo_id, canonical_repo_id };
        let mut i: usize = 0;
        while i < self.forks.len()
            invariant
                i <= self.forks@.len(),
                *self == *old(self),
                row == (ForkRow { fork_repo_id, canonical_repo_id }),
                known(self@.repos, fork_repo_id),
                known(self@.repos, canonical_repo_id),
                forall|j: int| 0 <= j < i ==> #[trigger] self.forks@[j] != row,
            decreases self.forks@.len() - i,
        {
            if self.forks[i].fork_repo_id == fork_repo_id && self.forks[i].canonical_repo_id
                == canonical_repo_id {
                proof {
                    assert(self.forks@[i as int] == row);
                    assert(self@.forks.contains(row));
                }
                return Ok(());
            }
            i += 1;
        }
        self.forks.push(ForkRow { fork_repo_id, canonical_repo_id });
        Ok(())
    }

    fn pair_index(&self, a: i64, b: i64) -> (r: Option<usize>)
        ensures
            match r {
                Some(i) => i < self.related@.len() && pair_at(self@.related, a, b, 0) == i,
                None => pair_at(self@.related, a, b, 0) == -1,
            },
    {
        let mut i: usize = 0;
        while i < self.related.len()
            invariant
                i <= self.related@.len(),
                pair_at(self@.related, a, b, i as int) == pair_at(self@.related, a, b, 0),
            decreases self.related@.len() - i,
        {
            proof {
                assert(self@.related[i as int] == self.related@[i as int]@);
            }
            if self.related[i].repo_id == a && self.related[i].related_repo_id == b {
                return Some(i);
            }
            i += 1;
        }
        None
    }

    /// The largest id of a row on shared history.
    pub fn last_related_id(&self) -> (r: i64)
        ensures
            r == top_related_id(self@.related),
    {
        let mut top: i64 = 0;
        let mut i: usize = 0;
        while i < self.related.len()
            invariant
                i <= self.related@.len(),
                top == top_related_id(self@.related.take(i as int)),
            decreases self.related@.len() - i,
        {
            if self.related[i].id > top {
                top = self.related[i].id;
            }
            i += 1;
            proof {
                assert(self@.related.take(i as int).drop_last() =~= self@.related.take(i - 1));
                assert(self@.related.take(i as int).last() == self.related@[i - 1]@);
            }
        }
        proof {
            assert(self@.related.take(i as int) =~= self@.related);
        }
        top
    }

    /// Records that two repositories share history. The pair is kept once,
    /// whichever of the two is named first.
    pub fn record_related_history(
        &mut self,
        repo_id: i64,
        related_repo_id: i64,
        shared_refs: &Vec<String>,
    ) -> (r: Result<(), Error>)
        requires
            top_related_id(old(self)@.related) < i64::MAX,
        ensures
            r is Ok <==> repo_id == related_repo_id || (known(old(self)@.repos, repo_id) && known(
                old(self)@.repos,
                related_repo_id,
            )),
            r is Ok ==> final(self)@ == (if repo_id == related_repo_id {
                old(self)@
            } else {
                RegistryView {
                    related: history_shared(
                        old(self)@.related,
                        smaller(repo_id, related_repo_id),
                        larger(repo_id, related_repo_id),
                        views(shared_refs@),
                    ),
                    ..old(self)@
                }
            }),
            r matches Err(e) ==> final(self)@ == old(self)@ && e@ == unknown_row(),
    {
        if repo_id == related_repo_id {
            return Ok(());
        }
        if !self.is_known(repo_id) || !self.is_known(related_repo_id) {
            return Err(Error::fixed("FOREIGN KEY constraint failed"));
        }
        let ghost before = self@;
        let (a, b) = if repo_id < related_repo_id {
            (repo_id, related_repo_id)
        } else {
            (related_repo_id, repo_id)
        };
        match self.pair_index(a, b) {
            Some(i) => {
                proof {
                    assert(before.related[i as int] == self.related@[i as int]@);
                }
                self.related[i].shared_refs = clone_texts(shared_refs);
                proof {
                    assert(self@.related =~= history_shared(
                        before.related,
                        a,
                        b,
                        views(shared_refs@),
                    ));
                }
            },
            None => {
                let row = RelatedRow {
                    id: self.last_related_id() + 1,
                    repo_id: a,
                    related_repo_id: b,
                    shared_refs: clone_texts(shared_refs),
                    resolution: None,
                };
                let ghost r = row@;
                self.related.push(row);
                proof {
                    assert(self@.related =~= before.related.push(r));
                }
            },
        }
        Ok(())
    }

    /// Records what one repository is to another.
    pub fn record_resolved_related(
        &mut self,
        dependent_repo_id: i64,
        controlling_repo_id: i64,
        resolution: &str,
    ) -> (r: Result<(), Error>)
        requires
            top_related_id(old(self)@.related) < i64::MAX,
        ensures
            r is Ok <==> known(old(self)@.repos, dependent_repo_id) && known(
                old(self)@.repos,
                controlling_repo_id,
            ),
            r is Ok ==> final(self)@ == (RegistryView {
                related: pair_resolved(
                    old(self)@.related,
                    dependent_repo_id,
                    controlling_repo_id,
                    resolution@,
                ),
                ..old(self)@
            }),
            r matches Err(e) ==> final(self)@ == old(self)@ && e@ == unknown_row(),
    {
        if !self.is_known(dependent_repo_id) || !self.is_known(controlling_repo_id) {
            return Err(Error::fixed("FOREIGN KEY constraint failed"));
        }
        let ghost before = self@;
        match self.pair_index(dependent_repo_id, controlling_repo_id) {
            Some(i) => {
                proof {
                    assert(before.related[i as int] == self.related@[i as int]@);
                }
                self.related[i].resolution = Some(resolution.to_owned());
                proof {
                    assert(self@.related =~= pair_resolved(
                        before.related,
                        dependent_repo_id,
                        controlling_repo_id,
                        resolution@,
                    ));
                }
            },
            None => {
                let row = RelatedRow {
                    id: self.last_related_id() + 1,
                    repo_id: dependent_repo_id,
                    related_repo_id: controlling_repo_id,
                    shared_refs: Vec::new(),
                    resolution: Some(resolution.to_owned()),
                };
                let ghost r = row@;
                proof {
                    assert(r.shared_refs =~= seq![]);
                }
                self.related.push(row);
                proof {
                    assert(self@.related =~= before.related.push(r));
                }
            },
        }
        Ok(())
    }

    /// Records that one repository is a fork or mirror of another.
    pub fn record_dependent_relationship(
        &mut self,
        dependent_repo_id: i64,
        parent_repo_id: i64,
        relationship: &str,
    ) -> (r: Result<(), Error>)
        requires
            top_related_id(old(self)@.related) < i64::MAX,
        ensures
            r is Ok <==> dependent_resolution(Some(relationship@)) && known(
                old(self)@.repos,
                dependent_repo_id,
            ) && known(old(self)@.repos, parent_repo_id),
            r is Ok ==> final(self)@ == with_dependent(
                old(self)@,
                dependent_repo_id,
                parent_repo_id,
                relationship@,
            ),
            r matches Err(e) ==> final(self)@ == old(self)@ && e@ == (if dependent_resolution(
                Some(relationship@),
            ) {
                unknown_row()
            } else {
                "invalid dependent relationship: "@ + relationship@
            }),
    {
        proof {
            reveal_strlit("fork");
            reveal_strlit("mirror");
            assert("fork"@.len() != "mirror"@.len());
        }
        if relationship.eq("fork") {
            self.record_fork(dependent_repo_id, parent_repo_id)
        } else if relationship.eq("mirror") {
            self.record_resolved_related(dependent_repo_id, parent_repo_id, "mirror")
        } else {
            Err(Error::about("invalid dependent relationship: ", relationship))
        }
    }

    /// How many pairs that share history the user has said nothing about.
    pub fn pending_related_count(&self) -> (r: usize)
        ensures
            r == unresolved(self@.related),
    {
        let ghost all = self@.related;
        let mut n: usize = 0;
        let mut i: usize = 0;
        while i < self.related.len()
            invariant
                i <= self.related@.len(),
                n <= i,
                all == self@.related,
                n == unresolved(all.take(i as int)),
            decreases self.related@.len() - i,
        {
            proof {
                assert(all.take(i + 1).drop_last() =~= all.take(i as int));
                assert(all.take(i + 1).last() == self.related@[i as int]@);
            }
            if self.related[i].resolution.is_none() {
                n += 1;
            }
            i += 1;
        }
        proof {
            assert(all.take(i as int) =~= all);
        }
        n
    }

    /// The pairs that share history, with where their repositories are.
    pub fn related_suggestions(&self, unresolved_only: bool) -> (r: Vec<RelatedSuggestion>)
        ensures
            suggestion_views(r@) == suggestions(self@.repos, self@.related, unresolved_only),
    {
        let ghost all = self@.related;
        let mut r: Vec<RelatedSuggestion> = Vec::new();
        proof {
            assert(suggestion_views(r@) =~= suggestions(
                self@.repos,
                all.take(0),
                unresolved_only,
            ));
        }
        let mut i: usize = 0;
        while i < self.related.len()
            invariant
                i <= self.related@.len(),
                all == self@.related,
                suggestion_views(r@) == suggestions(
                    self@.repos,
                    all.take(i as int),
                    unresolved_only,
                ),
            decreases self.related@.len() - i,
        {
            let row = &self.related[i];
            let ghost before = suggestion_views(r@);
            proof {
                assert(all.take(i + 1).drop_last() =~= all.take(i as int));
                assert(all.take(i + 1).last() == row@);
            }
            if let Some(repo) = self.repo_by_id(row.repo_id) {
                if let Some(related) = self.repo_by_id(row.related_repo_id) {
                    if !(unresolved_only && row.resolution.is_some()) {
                        let suggestion = RelatedSuggestion {
                            id: row.id,
                            repo_id: row.repo_id,
                            repo_locator: repo.current,
                            repo_path: repo.path,
                            related_repo_id: row.related_repo_id,
                            related_locator: related.current,
                            related_path: related.path,
                            shared_refs: clone_texts(&row.shared_refs),
                            resolution: clone_text(&row.resolution),
                        };
                        let ghost s = suggestion@;
                        r.push(suggestion);
                        proof {
                            assert(suggestion_views(r@) =~= before.push(s));
                        }
                    }
                }
            }
            i += 1;
        }
        proof {
            assert(all.take(i as int) =~= all);
        }
        r
    }

    /// The suggestion with the id.
    pub fn related_suggestion(&self, id: i64) -> (r: Result<RelatedSuggestion, Error>)
        ensures
            match r {
                Ok(s) => exists|i: int|
                    0 <= i < suggestions(self@.repos, self@.related, false).len() && s@
                        == #[trigger] suggestions(self@.repos, self@.related, false)[i] && s.id
                        == id && forall|j: int|
                        0 <= j < i ==> (#[trigger] suggestions(
                            self@.repos,
                            self@.related,
                            false,
                        )[j]).id != id,
                Err(e) => (forall|i: int|
                    0 <= i < suggestions(self@.repos, self@.related, false).len() ==> (
                    #[trigger] suggestions(self@.repos, self@.related, false)[i]).id != id) && e@
                    == "unknown related-history suggestion: "@ + integer(id as int),
            },
    {
        let mut list = self.related_suggestions(false);
        let ghost all = suggestions(self@.repos, self@.related, false);
        let ghost items = list@;
        proof {
            assert(all.len() == items.len());
        }
        let mut i: usize = 0;
        while i < list.len()
            invariant
                i <= list@.len(),
                items == list@,
                all == suggestions(self@.repos, self@.related, false),
                suggestion_views(items) == all,
                forall|j: int| 0 <= j < i ==> (#[trigger] all[j]).id != id,
            decreases list@.len() - i,
        {
            proof {
                assert(all[i as int] == items[i as int]@);
            }
            if list[i].id == id {
                let found = list.swap_remove(i);
                proof {
                    assert(found@ == all[i as int]);
                }
                return Ok(found);
            }
            i += 1;
        }
        Err(Error::about("unknown related-history suggestion: ", &integer_text(id)))
    }

    /// Records what the user said of a pair.
    pub fn resolve_related(&mut self, id: i64, resolution: &str) -> (r: Result<(), Error>)
        ensures
            r is Ok <==> related_at(old(self)@.related, id, 0) >= 0,
            r is Ok ==> final(self)@ == (RegistryView {
                related: row_resolved(old(self)@.related, id, resolution@),
                ..old(self)@
            }),
            r matches Err(e) ==> final(self)@ == old(self)@ && e@
                == "unknown related-history suggestion: "@ + integer(id as int),
    {
        let ghost before = self@;
        let mut i: usize = 0;
        while i < self.related.len()
            invariant
                i <= self.related@.len(),
                *self == *old(self),
                before == self@,
                related_at(before.related, id, i as int) == related_at(before.related, id, 0),
            decreases self.related@.len() - i,
        {
            proof {
                assert(before.related[i as int] == self.related@[i as int]@);
            }
            if self.related[i].id == id {
                self.related[i].resolution = Some(resolution.to_owned());
                proof {
                    assert(self@.related =~= before.related.update(
                        i as int,
                        RelatedView {
                            resolution: Some(resolution@),
                            ..before.related[i as int]
                        },
                    ));
                }
                return Ok(());
            }
            i += 1;
        }
        Err(Error::about("unknown related-history suggestion: ", &integer_text(id)))
    }

    fn confirmed(&self) -> (r: Vec<SharedGitDirRelationship>)
        ensures
            link_views(r@) == confirmed_links(suggestions(self@.repos, self@.related, false)),
    {
        let list = self.related_suggestions(false);
        let ghost all = suggestion_views(list@);
        let mut r: Vec<SharedGitDirRelationship> = Vec::new();
        proof {
            assert(link_views(r@) =~= confirmed_links(all.take(0)));
        }
        let mut i: usize = 0;
        while i < list.len()
            invariant
                i <= list@.len(),
                all == suggestion_views(list@),
                link_views(r@) == confirmed_links(all.take(i as int)),
            decreases list@.len() - i,
        {
            let s = &list[i];
            proof {
                assert(all.take(i + 1).drop_last() =~= all.take(i as int));
                assert(all.take(i + 1).last() == s@);
            }
            if let Some(resolution) = &s.resolution {
                if resolution.as_str().eq("fork") || resolution.as_str().eq("mirror") {
                    push_link(
                        &mut r,
                        SharedGitDirRelationship {
                            relationship: resolution.clone(),
                            dependent_repo_id: s.repo_id,
                            dependent_locator: s.repo_locator.clone(),
                            dependent_path: s.repo_path.clone(),
                            controlling_repo_id: s.related_repo_id,
                            controlling_locator: s.related_locator.clone(),
                            controlling_path: s.related_path.clone(),
                        },
                    );
                }
            }
            i += 1;
        }
        proof {
            assert(all.take(i as int) =~= all);
        }
        r
    }

    fn recorded_forks(&self) -> (r: Vec<SharedGitDirRelationship>)
        ensures
            link_views(r@) == sorted_forks(self@.repos, self@.forks),
    {
        let ghost all = self@.forks;
        let mut r: Vec<SharedGitDirRelationship> = Vec::new();
        proof {
            assert(link_views(r@) =~= sorted_forks(self@.repos, all.take(0)));
        }
        let mut i: usize = 0;
        while i < self.forks.len()
            invariant
                i <= self.forks@.len(),
                all == self@.forks,
                link_views(r@) == sorted_forks(self@.repos, all.take(i as int)),
            decreases self.forks@.len() - i,
        {
            let row = self.forks[i];
            proof {
                assert(all.take(i + 1).drop_last() =~= all.take(i as int));
                assert(all.take(i + 1).last() == row);
            }
            if let Some(fork) = self.repo_by_id(row.fork_repo_id) {
                if let Some(canonical) = self.repo_by_id(row.canonical_repo_id) {
                    insert_link(
                        &mut r,
                        SharedGitDirRelationship {
                            relationship: "fork".to_owned(),
                            dependent_repo_id: row.fork_repo_id,
                            dependent_locator: fork.current,
                            dependent_path: fork.path,
                            controlling_repo_id: row.canonical_repo_id,
                            controlling_locator: canonical.current,
                            controlling_path: canonical.path,
                        },
                    );
                }
            }
            i += 1;
        }
        proof {
            assert(all.take(i as int) =~= all);
        }
        r
    }

    /// All fork and mirror relationships, each once.
    pub fn shared_git_dir_relationships(&self) -> (r: Vec<SharedGitDirRelationship>)
        ensures
            link_views(r@) == all_links(self@),
    {
        let mut r = self.confirmed();
        let mut forks = self.recorded_forks();
        let ghost start = link_views(r@);
        let ghost all = link_views(forks@);
        let n: usize = forks.len();
        proof {
            assert(all.take(0) =~= seq![]);
        }
        let mut i: usize = 0;
        while i < n
            invariant
                i <= n,
                n == all.len(),
                forks@.len() == n - i,
                link_views(forks@) == all.skip(i as int),
                link_views(r@) == add_links(start, all.take(i as int)),
            decreases n - i,
        {
            let ghost before = link_views(forks@);
            let link = forks.remove(0);
            proof {
                assert(before[0] == link@);
                assert(all.skip(i as int)[0] == all[i as int]);
                assert(link_views(forks@) =~= before.remove(0));
                assert(before.remove(0) =~= all.skip(i + 1));
                assert(all.take(i + 1).drop_last() =~= all.take(i as int));
            }
            push_link(&mut r, link);
            i += 1;
        }
        proof {
            assert(all.take(i as int) =~= all);
        }
        r
    }

    /// Records that a source continues at another locator. Nothing else changes:
    /// no path moves, no alias comes, no repositories are merged.
    pub fn record_successor(&mut self, old_ref: &str, new_locator: &Locator)
        ensures
            final(self)@ == (RegistryView {
                successors: succeeded(old(self)@.successors, old_ref@, new_locator@),
                ..old(self)@
            }),
    {
        let ghost before = self@;
        let row = SuccessorRow { old_ref: old_ref.to_owned(), new_locator: new_locator.clone() };
        let mut i: usize = 0;
        while i < self.successors.len()
            invariant
                i <= self.successors@.len(),
                *self == *old(self),
                before == self@,
                row.old_ref@ == old_ref@,
                row.new_locator@ == new_locator@,
                successor_at(before.successors, old_ref@, i as int) == successor_at(
                    before.successors,
                    old_ref@,
                    0,
                ),
            decreases self.successors@.len() - i,
        {
            proof {
                assert(before.successors[i as int].0 == self.successors@[i as int].old_ref@);
            }
            if self.successors[i].old_ref.as_str().eq(old_ref) {
                self.successors.set(i, row);
                proof {
                    assert(self@.successors =~= before.successors.update(
                        i as int,
                        (old_ref@, new_locator@),
                    ));
                }
                return ;
            }
            i += 1;
        }
        self.successors.push(row);
        proof {
            assert(self@.successors =~= before.successors.push((old_ref@, new_locator@)));
        }
    }

    /// The old paths of the repository with the id.
    pub fn aliases_of(&self, repo_id: i64) -> (r: Vec<AliasPlan>)
        ensures
            plan_views(r@) == sorted_aliases(self@.aliases, repo_id),
    {
        let ghost all = self@.aliases;
        let mut r: Vec<AliasPlan> = Vec::new();
        proof {
            assert(plan_views(r@) =~= sorted_aliases(all.take(0), repo_id));
        }
        let mut i: usize = 0;
        while i < self.aliases.len()
            invariant
                i <= self.aliases@.len(),
                all == self@.aliases,
                plan_views(r@) == sorted_aliases(all.take(i as int), repo_id),
            decreases self.aliases@.len() - i,
        {
            let row = &self.aliases[i];
            proof {
                assert(all.take(i + 1).drop_last() =~= all.take(i as int));
                assert(all.take(i + 1).last() == row@);
            }
            if row.repo_id == repo_id {
                insert_alias(
                    &mut r,
                    AliasPlan {
                        alias_path: row.alias_path.clone(),
                        target_path: row.target_path.clone(),
                    },
                );
            }
            i += 1;
        }
        proof {
            assert(all.take(i as int) =~= all);
        }
        r
    }

    /// The old paths of the repository that a URL or locator names.
    pub fn aliases(&self, repo_ref: &str) -> (r: Result<Vec<AliasPlan>, Error>)
        ensures
            match parsed_locator(repo_ref@, parsed_url(trim_text(repo_ref@))) {
                Err(text) => r matches Err(e) && e@ == text,
                Ok(locator) => {
                    let i = first_answering(self@, locator, 0);
                    if i < 0 {
                        r matches Err(e) && e@ == "unknown repository: "@ + repo_ref@
                    } else {
                        r matches Ok(list) && plan_views(list@) == sorted_aliases(
                            self@.aliases,
                            self@.repos[i].id,
                        )
                    }
                },
            },
    {
        match self.find_repo(repo_ref) {
            Err(error) => Err(error),
            Ok(None) => Err(Error::about("unknown repository: ", repo_ref)),
            Ok(Some(record)) => Ok(self.aliases_of(record.id)),
        }
    }

    /// Records a development worktree of the repository.
    pub fn record_worktree(
        &mut self,
        repo_id: i64,
        path: &str,
        name: Option<String>,
        refs_prefix: Option<String>,
    ) -> (r: Result<(), Error>)
        ensures
            r is Ok <==> known(old(self)@.repos, repo_id),
            r is Ok ==> final(self)@ == (RegistryView {
                worktrees: with_worktree(
                    old(self)@.worktrees,
                    WorktreeView {
                        repo_id,
                        path: path@,
                        name: opt_view(name),
                        refs_prefix: opt_view(refs_prefix),
                    },
                ),
                ..old(self)@
            }),
            r matches Err(e) ==> final(self)@ == old(self)@ && e@ == unknown_row(),
    {
        if !self.is_known(repo_id) {
            return Err(Error::fixed("FOREIGN KEY constraint failed"));
        }
        let ghost before = self@;
        let row = WorktreeRow { repo_id, path: path.to_owned(), name, refs_prefix };
        let ghost w = row@;
        let mut i: usize = 0;
        while i < self.worktrees.len()
            invariant
                i <= self.worktrees@.len(),
                *self == *old(self),
                before == self@,
                w == row@,
                w == (WorktreeView {
                    repo_id,
                    path: path@,
                    name: opt_view(name),
                    refs_prefix: opt_view(refs_prefix),
                }),
                known(self@.repos, repo_id),
                worktree_at(before.worktrees, path@, i as int) == worktree_at(
                    before.worktrees,
                    path@,
                    0,
                ),
            decreases self.worktrees@.len() - i,
        {
            proof {
                assert(before.worktrees[i as int] == self.worktrees@[i as int]@);
            }
            if self.worktrees[i].path.as_str().eq(path) {
                self.worktrees.set(i, row);
                proof {
                    assert(self@.worktrees =~= before.worktrees.update(i as int, w));
                }
                return Ok(());
            }
            i += 1;
        }
        self.worktrees.push(row);
        proof {
            assert(self@.worktrees =~= before.worktrees.push(w));
        }
        Ok(())
    }
}

} // verus!
