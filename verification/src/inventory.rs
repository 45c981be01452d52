//! The report on everything under the roots: the managed repositories, with what
//! background fetches of them came to, and the Git directories.
use crate::context::{managed_rows, managed_views, ManagedWorktreeRecord, ManagedWorktreeView};
use crate::dump::{
    checkout_kind, describes, directory_kind, directory_views, dumps, found_views,
    git_directory_dump, inventory_paths, linked_directories, linked_worktree_directory_links,
    managed_repository_dumps, once_each, path_id, repository_path_id, row_for, sorted_found,
    tracked_directories, tracked_directory_links, worktree_directories, worktree_directory_links,
    DirectoryFacts, DirectoryView, FoundDirectory, GitDirectoryDump, GitDirectoryLink, KindFacts,
    ManagedRepositoryDump, TrackedFacts, WorktreeFacts,
};
use crate::error::Error;
use crate::fetch::fetch_at;
use crate::registry::{record_views, sorted_records, FetchRow, FetchView, Registry, RegistryView};
use crate::registry_relations::{all_links, clone_text};
use crate::relations::{link_views, one_parent_each, summaries_refused, unrefused};
use crate::text::{clone_texts, opt_view, views};
use vstd::prelude::*;

verus! {

/// What a managed repository shows at its path.
#[derive(Debug)]
pub struct RepositoryFacts {
    pub exists: bool,
    /// The path with its links resolved.
    pub comparable: String,
    /// The namespace of the view that stands at the path.
    pub namespace: Option<String>,
    /// The worktrees that Git lists for the repository, with links resolved;
    /// none where it does not exist or they could not be read.
    pub worktrees: Vec<String>,
    pub kind: KindFacts,
}

/// A managed repository in the report.
#[derive(Debug)]
pub struct TrackedRepositoryDump {
    pub repository: ManagedRepositoryDump,
    pub exists: bool,
    pub background_fetch: Option<FetchRow>,
}

/// The managed repositories and the directories that are known to belong to
/// them.
#[derive(Debug)]
pub struct Inventory {
    pub repositories: Vec<TrackedRepositoryDump>,
    pub own: Vec<GitDirectoryLink>,
    pub managed: Vec<GitDirectoryLink>,
    pub linked: Vec<GitDirectoryLink>,
}

/// The report.
#[derive(Debug)]
pub struct CheckDump {
    pub tracked_repositories: Vec<TrackedRepositoryDump>,
    pub git_directories: Vec<GitDirectoryDump>,
}

/// The name of the kind of checkout that stands at a path.
pub open spec fn kind_named(exists: bool, facts: KindFacts) -> Seq<char> {
    if !exists {
        "missing"@
    } else {
        match directory_kind(facts) {
            Ok(kind) => kind,
            Err(_) => "unknown"@,
        }
    }
}

/// What was fetched for the repository with the id.
pub open spec fn fetched(rows: Seq<FetchView>, id: i64) -> Option<FetchView> {
    let i = fetch_at(rows, id, 0);
    if 0 <= i < rows.len() {
        Some(rows[i])
    } else {
        None
    }
}

pub open spec fn opt_fetch(o: Option<FetchRow>) -> Option<FetchView> {
    match o {
        Some(row) => Some(row@),
        None => None,
    }
}

/// `d` is the entry of the managed repository number `i`.
pub open spec fn reports_repository(
    d: TrackedRepositoryDump,
    root: Seq<char>,
    registry: RegistryView,
    i: int,
    seen: RepositoryFacts,
) -> bool {
    &&& dumps(
        d.repository,
        root,
        sorted_records(registry.repos)[i],
        all_links(registry),
        kind_named(seen.exists, seen.kind),
    )
    &&& d.exists == seen.exists
    &&& opt_fetch(d.background_fetch) == fetched(registry.fetches, d.repository.db_id)
}

/// `t` is what the directories of the repository go by.
pub open spec fn tracked_as(
    t: TrackedFacts,
    d: ManagedRepositoryDump,
    seen: RepositoryFacts,
) -> bool {
    &&& t.db_id == d.db_id
    &&& t.id@ == d.id@
    &&& t.repo_type@ == d.repo_type@
    &&& t.locator@ == d.locator@
    &&& t.comparable@ == seen.comparable@
    &&& opt_view(t.namespace) == opt_view(seen.namespace)
    &&& views(t.worktrees@) == views(seen.worktrees@)
}

/// `w` is what the directory of the recorded worktree goes by.
pub open spec fn worktree_as(
    w: WorktreeFacts,
    root: Seq<char>,
    row: ManagedWorktreeView,
    comparable: Seq<char>,
) -> bool {
    &&& w.repo_id == row.repo_id
    &&& w.id@ == path_id(root, row.path)
    &&& w.locator@ == row.repo_locator
    &&& w.comparable@ == comparable
    &&& opt_view(w.name) == row.name
    &&& opt_view(w.refs_prefix) == row.refs_prefix
}

/// The rows stand for the reported repositories and the recorded worktrees.
pub open spec fn rows_stand_for(
    tracked_rows: Seq<TrackedFacts>,
    worktree_rows: Seq<WorktreeFacts>,
    repositories: Seq<TrackedRepositoryDump>,
    root: Seq<char>,
    registry: RegistryView,
    seen: Seq<RepositoryFacts>,
    places: Seq<Seq<char>>,
) -> bool {
    let recorded = managed_rows(registry.repos, registry.worktrees);
    &&& tracked_rows.len() == repositories.len()
    &&& forall|i: int|
        0 <= i < tracked_rows.len() ==> tracked_as(
            #[trigger] tracked_rows[i],
            repositories[i].repository,
            seen[i],
        )
    &&& worktree_rows.len() == recorded.len()
    &&& forall|i: int|
        0 <= i < worktree_rows.len() ==> worktree_as(
            #[trigger] worktree_rows[i],
            root,
            recorded[i],
            places[i],
        )
}

/// The inventory holds the directories of the rows.
pub open spec fn holds_rows(
    inventory: Inventory,
    tracked_rows: Seq<TrackedFacts>,
    worktree_rows: Seq<WorktreeFacts>,
) -> bool {
    let own = tracked_directories(tracked_rows);
    let managed = worktree_directories(tracked_rows, worktree_rows);
    &&& directory_views(inventory.own@) == own
    &&& directory_views(inventory.managed@) == managed
    &&& directory_views(inventory.linked@) == linked_directories(tracked_rows, own, managed)
}

fn kinds_of(seen: &Vec<RepositoryFacts>) -> (r: Vec<String>)
    ensures
        r@.len() == seen@.len(),
        forall|i: int|
            0 <= i < r@.len() ==> (#[trigger] r@[i])@ == kind_named(seen@[i].exists, seen@[i].kind),
{
    let mut r: Vec<String> = Vec::new();
    let mut i: usize = 0;
    while i < seen.len()
        invariant
            i <= seen@.len(),
            r@.len() == i,
            forall|j: int|
                0 <= j < i ==> (#[trigger] r@[j])@ == kind_named(seen@[j].exists, seen@[j].kind),
        decreases seen@.len() - i,
    {
        r.push(checkout_kind(seen[i].exists, &seen[i].kind));
        i += 1;
    }
    r
}

fn tracked_rows_of(repositories: &Vec<ManagedRepositoryDump>, seen: &Vec<RepositoryFacts>) -> (r:
    Vec<TrackedFacts>)
    requires
        seen@.len() == repositories@.len(),
    ensures
        r@.len() == repositories@.len(),
        forall|i: int|
            0 <= i < r@.len() ==> tracked_as(#[trigger] r@[i], repositories@[i], seen@[i]),
{
    let mut r: Vec<TrackedFacts> = Vec::new();
    let mut i: usize = 0;
    while i < repositories.len()
        invariant
            i <= repositories@.len(),
            seen@.len() == repositories@.len(),
            r@.len() == i,
            forall|j: int|
                0 <= j < i ==> tracked_as(#[trigger] r@[j], repositories@[j], seen@[j]),
        decreases repositories@.len() - i,
    {
        let d = &repositories[i];
        r.push(
            TrackedFacts {
                db_id: d.db_id,
                id: d.id.clone(),
                repo_type: d.repo_type.clone(),
                locator: d.locator.clone(),
                comparable: seen[i].comparable.clone(),
                namespace: clone_text(&seen[i].namespace),
                worktrees: clone_texts(&seen[i].worktrees),
            },
        );
        i += 1;
    }
    r
}

fn worktree_rows_of(root: &str, recorded: &Vec<ManagedWorktreeRecord>, places: &Vec<String>) -> (r:
    Vec<WorktreeFacts>)
    requires
        places@.len() == recorded@.len(),
    ensures
        r@.len() == recorded@.len(),
        forall|i: int|
            0 <= i < r@.len() ==> worktree_as(
                #[trigger] r@[i],
                root@,
                recorded@[i]@,
                places@[i]@,
            ),
{
    let mut r: Vec<WorktreeFacts> = Vec::new();
    let mut i: usize = 0;
    while i < recorded.len()
        invariant
            i <= recorded@.len(),
            places@.len() == recorded@.len(),
            r@.len() == i,
            forall|j: int|
                0 <= j < i ==> worktree_as(#[trigger] r@[j], root@, recorded@[j]@, places@[j]@),
        decreases recorded@.len() - i,
    {
        let w = &recorded[i];
        r.push(
            WorktreeFacts {
                repo_id: w.repo_id,
                id: repository_path_id(root, &w.path),
                locator: w.repo_locator.clone(),
                comparable: places[i].clone(),
                name: clone_text(&w.name),
                refs_prefix: clone_text(&w.refs_prefix),
            },
        );
        i += 1;
    }
    r
}

/// Takes stock of the managed repositories. `seen` tells, for each repository in
/// the order of [`Registry::current_repos`], what it shows at its path; `places`
/// tells where each worktree of [`Registry::managed_worktrees`] lies, links
/// resolved.
pub fn take_inventory(
    root: &str,
    registry: &Registry,
    seen: &Vec<RepositoryFacts>,
    places: &Vec<String>,
) -> (r: Result<Inventory, Error>)
    requires
        seen@.len() == sorted_records(registry@.repos).len(),
        places@.len() == managed_rows(registry@.repos, registry@.worktrees).len(),
    ensures
        match r {
            Ok(inventory) => {
                &&& one_parent_each(all_links(registry@))
                &&& unrefused(all_links(registry@))
                &&& inventory.repositories@.len() == seen@.len()
                &&& forall|i: int|
                    0 <= i < seen@.len() ==> reports_repository(
                        #[trigger] inventory.repositories@[i],
                        root@,
                        registry@,
                        i,
                        seen@[i],
                    )
                &&& exists|t: Seq<TrackedFacts>, w: Seq<WorktreeFacts>| #[trigger]
                    rows_stand_for(
                        t,
                        w,
                        inventory.repositories@,
                        root@,
                        registry@,
                        seen@,
                        views(places@),
                    ) && holds_rows(inventory, t, w)
            },
            Err(e) => summaries_refused(all_links(registry@), e@),
        },
{
    let repos = registry.current_repos();
    let links = registry.shared_git_dir_relationships();
    let kinds = kinds_of(seen);
    proof {
        assert(record_views(repos@).len() == repos@.len());
    }
    let mut entries = match managed_repository_dumps(root, &repos, &links, &kinds) {
        Ok(entries) => entries,
        Err(error) => return Err(error),
    };
    proof {
        assert forall|i: int| 0 <= i < repos@.len() implies (#[trigger] repos@[i])@
            == sorted_records(registry@.repos)[i] by {
            assert(record_views(repos@)[i] == repos@[i]@);
        }
    }
    let recorded = registry.managed_worktrees();
    proof {
        assert(managed_views(recorded@).len() == recorded@.len());
    }
    let tracked_rows = tracked_rows_of(&entries, seen);
    let worktree_rows = worktree_rows_of(root, &recorded, places);
    let own = tracked_directory_links(&tracked_rows);
    let managed = worktree_directory_links(&tracked_rows, &worktree_rows);
    let linked = linked_worktree_directory_links(&tracked_rows, &own, &managed);
    let ghost all = entries@;
    let mut repositories: Vec<TrackedRepositoryDump> = Vec::new();
    let n: usize = entries.len();
    let mut i: usize = 0;
    while i < n
        invariant
            i <= n,
            n == all.len(),
            seen@.len() == n,
            entries@ == all.skip(i as int),
            repositories@.len() == i,
            forall|j: int|
                0 <= j < i ==> (#[trigger] repositories@[j]).repository == all[j]
                    && repositories@[j].exists == seen@[j].exists && opt_fetch(
                    repositories@[j].background_fetch,
                ) == fetched(registry@.fetches, all[j].db_id),
        decreases n - i,
    {
        let entry = entries.remove(0);
        proof {
            assert(entry == all[i as int]);
            assert(entries@ =~= all.skip(i + 1));
        }
        let background_fetch = registry.background_fetch_state(entry.db_id);
        repositories.push(
            TrackedRepositoryDump { repository: entry, exists: seen[i].exists, background_fetch },
        );
        i += 1;
    }
    let inventory = Inventory { repositories, own, managed, linked };
    proof {
        assert forall|i: int| 0 <= i < seen@.len() implies reports_repository(
            #[trigger] inventory.repositories@[i],
            root@,
            registry@,
            i,
            seen@[i],
        ) by {
            assert(dumps(
                all[i],
                root@,
                repos@[i]@,
                link_views(links@),
                kinds@[i]@,
            ));
        }
        assert forall|i: int| 0 <= i < worktree_rows@.len() implies worktree_as(
            #[trigger] worktree_rows@[i],
            root@,
            managed_rows(registry@.repos, registry@.worktrees)[i],
            views(places@)[i],
        ) by {
            assert(managed_views(recorded@)[i] == recorded@[i]@);
            assert(views(places@)[i] == places@[i]@);
        }
        assert(rows_stand_for(
            tracked_rows@,
            worktree_rows@,
            inventory.repositories@,
            root@,
            registry@,
            seen@,
            views(places@),
        ));
        assert(holds_rows(inventory, tracked_rows@, worktree_rows@));
    }
    Ok(inventory)
}

/// The linked directories, as directories that were found.
pub open spec fn linked_found(rows: Seq<DirectoryView>) -> Seq<(Seq<char>, Seq<char>)> {
    rows.map_values(|row: DirectoryView| (row.path, row.path))
}

impl Inventory {
    /// The directories to look at: those that were found below the roots, and the
    /// worktrees that Git lists for the managed repositories.
    pub fn directories(&self, found: Vec<FoundDirectory>) -> (r: Vec<FoundDirectory>)
        ensures
            found_views(r@) == once_each(
                sorted_found(
                    found_views(found@) + linked_found(directory_views(self.linked@)),
                ),
            ),
    {
        let ghost start = found_views(found@);
        let ghost rows = linked_found(directory_views(self.linked@));
        let mut all = found;
        proof {
            assert(start + rows.take(0) =~= start);
        }
        let mut i: usize = 0;
        while i < self.linked.len()
            invariant
                i <= self.linked@.len(),
                rows == linked_found(directory_views(self.linked@)),
                found_views(all@) == start + rows.take(i as int),
            decreases self.linked@.len() - i,
        {
            let path = &self.linked[i].path;
            let ghost before = found_views(all@);
            all.push(FoundDirectory { path: path.clone(), comparable: path.clone() });
            proof {
                assert(directory_views(self.linked@)[i as int] == self.linked@[i as int]@);
                assert(found_views(all@) =~= before.push((path@, path@)));
                assert(rows.take(i + 1) =~= rows.take(i as int).push((path@, path@)));
                assert(found_views(all@) =~= start + rows.take(i + 1));
            }
            i += 1;
        }
        proof {
            assert(rows.take(i as int) =~= rows);
        }
        inventory_paths(&all)
    }
}

/// The report, where `facts` tells what each of the directories shows.
pub fn check_dump_report(root: &str, inventory: Inventory, facts: &Vec<DirectoryFacts>) -> (r:
    CheckDump)
    ensures
        r.tracked_repositories@ == inventory.repositories@,
        r.git_directories@.len() == facts@.len(),
        forall|i: int|
            0 <= i < facts@.len() ==> describes(
                #[trigger] r.git_directories@[i],
                root@,
                facts@[i],
                row_for(
                    facts@[i].comparable@,
                    directory_views(inventory.own@),
                    directory_views(inventory.managed@),
                    directory_views(inventory.linked@),
                ),
            ),
{
    let mut git_directories: Vec<GitDirectoryDump> = Vec::new();
    let mut i: usize = 0;
    while i < facts.len()
        invariant
            i <= facts@.len(),
            git_directories@.len() == i,
            forall|j: int|
                0 <= j < i ==> describes(
                    #[trigger] git_directories@[j],
                    root@,
                    facts@[j],
                    row_for(
                        facts@[j].comparable@,
                        directory_views(inventory.own@),
                        directory_views(inventory.managed@),
                        directory_views(inventory.linked@),
                    ),
                ),
        decreases facts@.len() - i,
    {
        git_directories.push(
            git_directory_dump(
                root,
                &facts[i],
                &inventory.own,
                &inventory.managed,
                &inventory.linked,
            ),
        );
        i += 1;
    }
    CheckDump { tracked_repositories: inventory.repositories, git_directories }
}

} // verus!
