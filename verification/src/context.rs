//! What a command works on, and the small decisions around commands.
use crate::error::{outcome, Error};
use crate::history::{relationship_kind, validate_relationship_kind};
use crate::locator::{parsed_locator, parsed_url, Locator, LocatorView};
use crate::registry::{
    first_answering, known, record_of, with_id, ManagedRepoRecord, RecordView, Registry,
    RegistryView, RepoView, WorktreeView,
};
use crate::registry_relations::{
    clone_text, suggestions, RelatedSuggestion, SuggestionView,
};
use crate::repair::{needs_repair, repair_report_needs_repair, RepairReport};
use crate::text::{
    decimal, decimal_text, integer, integer_text, lemma_less_from_total, opt_view, rank_texts,
    text_less, trim_text, views, words, words_of, Rank,
};
use crate::views::{RepoViewMetadata, RepoViewView};
use vstd::prelude::*;

verus! {

broadcast use crate::text::lemma_views_push;

/// The repository that a command works on.
#[derive(Debug)]
pub enum RepoContext {
    Managed(ManagedRepoRecord),
    View(RepoViewMetadata),
}

pub enum ContextView {
    Managed(RecordView),
    View(RepoViewView),
}

impl View for RepoContext {
    type V = ContextView;

    open spec fn view(&self) -> ContextView {
        match self {
            RepoContext::Managed(record) => ContextView::Managed(record@),
            RepoContext::View(view) => ContextView::View(view@),
        }
    }
}

/// What is found of the directory that a command is run in.
#[derive(Debug)]
pub struct ContextFacts {
    /// The directory, as the disk resolves it.
    pub dir: String,
    /// The description of the view that it is.
    pub view: Option<RepoViewMetadata>,
    /// Whether it lies under the root of all clones.
    pub under_clone_root: bool,
    /// The locator of its origin.
    pub origin: Option<Locator>,
}

/// The first repository at a path.
pub open spec fn repo_at(repos: Seq<RepoView>, path: Seq<char>, i: int) -> int
    decreases repos.len() - i,
{
    if i < 0 || i >= repos.len() {
        -1
    } else if repos[i].path == path {
        i
    } else {
        repo_at(repos, path, i + 1)
    }
}

proof fn lemma_repo_at(repos: Seq<RepoView>, path: Seq<char>, i: int, k: int)
    requires
        0 <= i <= k < repos.len(),
        repos[k].path == path,
        forall|j: int| i <= j < k ==> (#[trigger] repos[j]).path != path,
    ensures
        repo_at(repos, path, i) == k,
    decreases repos.len() - i,
{
    if i < k {
        assert(repos[i].path != path);
        lemma_repo_at(repos, path, i + 1, k);
    }
}

proof fn lemma_no_repo_at(repos: Seq<RepoView>, path: Seq<char>, i: int)
    requires
        0 <= i,
        forall|j: int| i <= j < repos.len() ==> (#[trigger] repos[j]).path != path,
    ensures
        repo_at(repos, path, i) == -1,
    decreases repos.len() - i,
{
    if i < repos.len() {
        lemma_no_repo_at(repos, path, i + 1);
    }
}

pub open spec fn no_context(dir: Seq<char>) -> Seq<char> {
    "could not resolve repo context for "@ + dir
        + "; pass --dir pointing at a managed repo or repo-manager view"@
}

/// A directory is a view, or the place of a managed repository, or a checkout under
/// the root of all clones whose origin is managed.
pub open spec fn context_for(view: RegistryView, facts: ContextFacts) -> Result<
    ContextView,
    Seq<char>,
> {
    let at = repo_at(view.repos, facts.dir@, 0);
    if facts.view is Some {
        Ok(ContextView::View(facts.view->0@))
    } else if 0 <= at < view.repos.len() {
        Ok(ContextView::Managed(record_of(view.repos[at])))
    } else if facts.under_clone_root && facts.origin is Some {
        let key = facts.origin->0@.key();
        match parsed_locator(key, parsed_url(trim_text(key))) {
            Err(message) => Err(message),
            Ok(locator) => {
                let i = first_answering(view, locator, 0);
                if 0 <= i < view.repos.len() {
                    Ok(
                        ContextView::Managed(
                            RecordView {
                                id: view.repos[i].id,
                                current: view.repos[i].current,
                                path: facts.dir@,
                            },
                        ),
                    )
                } else {
                    Err(no_context(facts.dir@))
                }
            },
        }
    } else {
        Err(no_context(facts.dir@))
    }
}

fn unresolved_context(dir: &str) -> (r: Error)
    ensures
        r@ == no_context(dir@),
{
    let mut text = "could not resolve repo context for ".to_owned();
    text.append(dir);
    text.append("; pass --dir pointing at a managed repo or repo-manager view");
    Error::new(text)
}

pub fn repo_context(registry: &Registry, facts: ContextFacts) -> (r: Result<RepoContext, Error>)
    ensures
        outcome(r) == context_for(registry@, facts),
{
    match facts.view {
        Some(view) => {
            return Ok(RepoContext::View(view));
        },
        None => {},
    }
    match registry.repo_by_path(facts.dir.as_str()) {
        Some(record) => {
            proof {
                let k = choose|k: int|
                    0 <= k < registry@.repos.len() && record@ == record_of(
                        #[trigger] registry@.repos[k],
                    ) && registry@.repos[k].path == facts.dir@ && forall|j: int|
                        0 <= j < k ==> (#[trigger] registry@.repos[j]).path != facts.dir@;
                lemma_repo_at(registry@.repos, facts.dir@, 0, k);
            }
            return Ok(RepoContext::Managed(record));
        },
        None => {
            proof {
                lemma_no_repo_at(registry@.repos, facts.dir@, 0);
            }
        },
    }
    if facts.under_clone_root {
        match &facts.origin {
            Some(origin) => {
                return match registry.find_repo(origin.key().as_str()) {
                    Err(error) => Err(error),
                    Ok(Some(record)) => Ok(
                        RepoContext::Managed(
                            ManagedRepoRecord {
                                id: record.id,
                                current: record.current,
                                path: facts.dir,
                            },
                        ),
                    ),
                    Ok(None) => Err(unresolved_context(facts.dir.as_str())),
                };
            },
            None => {},
        }
    }
    Err(unresolved_context(facts.dir.as_str()))
}

/// The first suggestion with a number.
pub open spec fn suggestion_at(list: Seq<SuggestionView>, id: i64, i: int) -> int
    decreases list.len() - i,
{
    if i < 0 || i >= list.len() {
        -1
    } else if list[i].id == id {
        i
    } else {
        suggestion_at(list, id, i + 1)
    }
}

proof fn lemma_suggestion_at(list: Seq<SuggestionView>, id: i64, i: int, k: int)
    requires
        0 <= i <= k <= list.len(),
        k < list.len() ==> list[k].id == id,
        forall|j: int| i <= j < k ==> (#[trigger] list[j]).id != id,
    ensures
        suggestion_at(list, id, i) == if k < list.len() {
            k
        } else {
            -1
        },
    decreases list.len() - i,
{
    if i < k {
        assert(list[i].id != id);
        lemma_suggestion_at(list, id, i + 1, k);
    }
}

/// A resolution as a fork or mirror has the two repositories share a Git directory;
/// a suggestion that was resolved before is not resolved so again.
pub open spec fn resolution_start(view: RegistryView, id: i64, kind: Seq<char>) -> Result<
    Option<SuggestionView>,
    Seq<char>,
> {
    if !relationship_kind(kind) {
        Err(
            "invalid relationship kind: "@ + kind
                + "; expected mirror, fork, canonical, moved, successor, or unrelated"@,
        )
    } else if kind == "fork"@ || kind == "mirror"@ {
        let list = suggestions(view.repos, view.related, false);
        let i = suggestion_at(list, id, 0);
        if 0 <= i < list.len() {
            let suggestion = list[i];
            match suggestion.resolution {
                Some(resolution) => Err(
                    "related-history suggestion #"@ + integer(id as int)
                        + " is already resolved as "@ + resolution,
                ),
                None => Ok(Some(suggestion)),
            }
        } else {
            Err("unknown related-history suggestion: "@ + integer(id as int))
        }
    } else {
        Ok(None)
    }
}

pub open spec fn start_outcome(r: Result<Option<RelatedSuggestion>, Error>) -> Result<
    Option<SuggestionView>,
    Seq<char>,
> {
    match r {
        Ok(Some(suggestion)) => Ok(Some(suggestion@)),
        Ok(None) => Ok(None),
        Err(error) => Err(error@),
    }
}

/// The suggestion whose repositories are to share a Git directory, if they are.
pub fn begin_related_resolve(registry: &Registry, id: i64, kind: &str) -> (r: Result<
    Option<RelatedSuggestion>,
    Error,
>)
    ensures
        start_outcome(r) == resolution_start(registry@, id, kind@),
{
    match validate_relationship_kind(kind) {
        Ok(()) => {},
        Err(error) => {
            return Err(error);
        },
    }
    if !kind.eq("fork") && !kind.eq("mirror") {
        return Ok(None);
    }
    let ghost list = suggestions(registry@.repos, registry@.related, false);
    match registry.related_suggestion(id) {
        Err(error) => {
            proof {
                lemma_suggestion_at(list, id, 0, list.len() as int);
            }
            Err(error)
        },
        Ok(suggestion) => {
            proof {
                let k = choose|k: int|
                    0 <= k < list.len() && suggestion@ == #[trigger] list[k] && suggestion.id == id
                        && forall|j: int| 0 <= j < k ==> (#[trigger] list[j]).id != id;
                lemma_suggestion_at(list, id, 0, k);
            }
            match &suggestion.resolution {
            Some(resolution) => {
                let mut text = "related-history suggestion #".to_owned();
                text.append(integer_text(id).as_str());
                text.append(" is already resolved as ");
                text.append(resolution.as_str());
                Err(Error::new(text))
            },
            None => Ok(Some(suggestion)),
            }
        },
    }
}

/// The warning about suggestions that nobody has resolved yet.
pub fn pending_warning(count: usize) -> (r: Option<String>)
    ensures
        opt_view(r) == if count > 0 {
            Some(
                "repo-manager: "@ + decimal(count as nat)
                    + " unresolved shared-history suggestion(s); run `repo related list`"@,
            )
        } else {
            None
        },
{
    if count == 0 {
        return None;
    }
    let mut text = "repo-manager: ".to_owned();
    text.append(decimal_text(count as u128).as_str());
    text.append(" unresolved shared-history suggestion(s); run `repo related list`");
    Some(text)
}

/// The editor that the environment names, with its arguments: the first of the two
/// variables that is set, or `vi`; a value of white space alone is `vi` too.
pub open spec fn editor_words(visual: Option<Seq<char>>, editor: Option<Seq<char>>) -> Seq<
    Seq<char>,
> {
    let text = match visual {
        Some(text) => text,
        None => match editor {
            Some(text) => text,
            None => "vi"@,
        },
    };
    if words(text).len() == 0 {
        seq!["vi"@]
    } else {
        words(text)
    }
}

pub fn editor_command(visual: &Option<String>, editor: &Option<String>) -> (r: Vec<String>)
    ensures
        views(r@) == editor_words(opt_view(*visual), opt_view(*editor)),
        r@.len() > 0,
{
    let mut found = match visual {
        Some(text) => words_of(text.as_str()),
        None => match editor {
            Some(text) => words_of(text.as_str()),
            None => words_of("vi"),
        },
    };
    if found.len() == 0 {
        let ghost before = found@;
        found.push("vi".to_owned());
        proof {
            assert(views(before) =~= Seq::empty());
            assert(views(found@) =~= seq!["vi"@]);
        }
    }
    found
}

/// A check that found something to repair fails, once it has reported it; a repair
/// does not.
pub fn check_outcome(report: &RepairReport, check: bool) -> (r: Result<(), Error>)
    ensures
        outcome(r) == if check && needs_repair(report@) {
            Err::<(), Seq<char>>(
                "repo check found repairable issues; run `repo check --repair`"@,
            )
        } else {
            Ok(())
        },
{
    if check && repair_report_needs_repair(report) {
        Err(Error::fixed("repo check found repairable issues; run `repo check --repair`"))
    } else {
        Ok(())
    }
}

/// How many operations were picked, and how many were not.
pub fn selection_text(selected: usize, all: usize) -> (r: String)
    ensures
        r@ == "selected "@ + decimal(selected as nat) + " repair operation(s), skipped "@ + decimal(
            if all >= selected {
                (all - selected) as nat
            } else {
                0
            },
        ),
{
    let skipped: usize = if all >= selected {
        all - selected
    } else {
        0
    };
    let mut text = "selected ".to_owned();
    text.append(decimal_text(selected as u128).as_str());
    text.append(" repair operation(s), skipped ");
    text.append(decimal_text(skipped as u128).as_str());
    text
}

/// The daemon belongs to a user, and is not run through `sudo`.
pub fn reject_sudo_repod(sudo_user_set: bool) -> (r: Result<(), Error>)
    ensures
        outcome(r) == if sudo_user_set {
            Err::<(), Seq<char>>(
                "repod is a user daemon; run it without sudo so it uses the same config, state DB, and notification bus as repo"@,
            )
        } else {
            Ok(())
        },
{
    if sudo_user_set {
        Err(
            Error::fixed(
                "repod is a user daemon; run it without sudo so it uses the same config, state DB, and notification bus as repo",
            ),
        )
    } else {
        Ok(())
    }
}

/// A worktree that is managed, with the locator of its repository.
#[derive(Debug)]
pub struct ManagedWorktreeRecord {
    pub repo_id: i64,
    pub repo_locator: Locator,
    pub path: String,
    pub name: Option<String>,
    pub refs_prefix: Option<String>,
}

#[verifier::ext_equal]
pub struct ManagedWorktreeView {
    pub repo_id: i64,
    pub repo_locator: LocatorView,
    pub path: Seq<char>,
    pub name: Option<Seq<char>>,
    pub refs_prefix: Option<Seq<char>>,
}

impl View for ManagedWorktreeRecord {
    type V = ManagedWorktreeView;

    open spec fn view(&self) -> ManagedWorktreeView {
        ManagedWorktreeView {
            repo_id: self.repo_id,
            repo_locator: self.repo_locator@,
            path: self.path@,
            name: opt_view(self.name),
            refs_prefix: opt_view(self.refs_prefix),
        }
    }
}

pub open spec fn managed_views(v: Seq<ManagedWorktreeRecord>) -> Seq<ManagedWorktreeView> {
    v.map_values(|row: ManagedWorktreeRecord| row@)
}

pub open spec fn managed_slot(rows: Seq<ManagedWorktreeView>, path: Seq<char>, i: int) -> int
    decreases rows.len() - i,
{
    if i < 0 || i >= rows.len() || text_less(path, rows[i].path) {
        i
    } else {
        managed_slot(rows, path, i + 1)
    }
}

/// The worktrees of known repositories, in the order of their paths.
pub open spec fn managed_rows(repos: Seq<RepoView>, rows: Seq<WorktreeView>) -> Seq<
    ManagedWorktreeView,
>
    decreases rows.len(),
{
    if rows.len() == 0 {
        Seq::empty()
    } else {
        let before = managed_rows(repos, rows.drop_last());
        let row = rows.last();
        if known(repos, row.repo_id) {
            before.insert(
                managed_slot(before, row.path, 0),
                ManagedWorktreeView {
                    repo_id: row.repo_id,
                    repo_locator: repos[with_id(repos, row.repo_id, 0)].current,
                    path: row.path,
                    name: row.name,
                    refs_prefix: row.refs_prefix,
                },
            )
        } else {
            before
        }
    }
}

fn insert_managed(rows: &mut Vec<ManagedWorktreeRecord>, row: ManagedWorktreeRecord)
    ensures
        managed_views(final(rows)@) == managed_views(old(rows)@).insert(
            managed_slot(managed_views(old(rows)@), row@.path, 0),
            row@,
        ),
{
    let ghost before = managed_views(rows@);
    let mut i: usize = 0;
    while i < rows.len()
        invariant_except_break
            managed_slot(before, row@.path, i as int) == managed_slot(before, row@.path, 0),
        invariant
            before == managed_views(rows@),
            i <= rows@.len(),
        ensures
            i == managed_slot(before, row@.path, 0),
        decreases rows@.len() - i,
    {
        proof {
            assert(before[i as int] == rows@[i as int]@);
            lemma_less_from_total(row@.path, before[i as int].path, 0);
        }
        match rank_texts(row.path.as_str(), rows[i].path.as_str()) {
            Rank::Before => {
                break;
            },
            _ => {},
        }
        i += 1;
    }
    let ghost added = row@;
    rows.insert(i, row);
    proof {
        assert(managed_views(rows@) =~= before.insert(i as int, added));
    }
}

impl Registry {
    pub fn managed_worktrees(&self) -> (r: Vec<ManagedWorktreeRecord>)
        ensures
            managed_views(r@) == managed_rows(self@.repos, self@.worktrees),
    {
        let ghost all = self@.worktrees;
        let mut rows: Vec<ManagedWorktreeRecord> = Vec::new();
        proof {
            assert(managed_views(rows@) =~= managed_rows(self@.repos, all.take(0)));
        }
        let mut i: usize = 0;
        while i < self.worktrees.len()
            invariant
                i <= self.worktrees@.len(),
                all == self@.worktrees,
                all.len() == self.worktrees@.len(),
                managed_views(rows@) == managed_rows(self@.repos, all.take(i as int)),
            decreases self.worktrees@.len() - i,
        {
            let worktree = &self.worktrees[i];
            proof {
                assert(all.take(i + 1).drop_last() =~= all.take(i as int));
                assert(all.take(i + 1).last() == worktree@);
            }
            match self.repo_by_id(worktree.repo_id) {
                Some(record) => {
                    insert_managed(
                        &mut rows,
                        ManagedWorktreeRecord {
                            repo_id: worktree.repo_id,
                            repo_locator: record.current,
                            path: worktree.path.clone(),
                            name: clone_text(&worktree.name),
                            refs_prefix: clone_text(&worktree.refs_prefix),
                        },
                    );
                },
                None => {},
            }
            i += 1;
        }
        proof {
            assert(all.take(i as int) =~= all);
        }
        rows
    }
}

} // verus!
