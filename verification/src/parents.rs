//! Parents: which repository a fork or mirror depends on, where the Git directory
//! that it shares is kept, and how a repository becomes a fork, a mirror or
//! canonical.
use crate::config::Config;
use crate::error::{outcome, Error};
use crate::locator::{
    locator_path, parse_scp_like, parsed_locator, parsed_url, placed, scp_like, Locator, LocatorView,
};
use crate::naming::{fork_remote_name, remote_name, remote_url, remote_url_for_locator};
use crate::paths::{path_eq, same_path};
use crate::registry::{
    dependent_resolution, first_answering, has_dependents, keep, known, record_of, repo_id_for,
    top_related_id, top_repo_id, with_id, without_parents, ManagedRepoRecord, RecordView, Registry,
    RegistryView, RelatedView, RepoView,
};
use crate::registry_relations::{all_links, forked, pair_resolved, unknown_row};
use crate::relations::{
    is_summary, link_of, link_views, relationship_summaries, summaries_refused, unrefused,
    LinkView,
    SummaryView,
};
use crate::share::{lemma_upserted, with_repo, Placed};
use crate::steps::{
    ensure_remote, git, one_stage, one_step, plain_stage, plainly, stage_views, Stage, StageView,
    Step, StepView,
};
use crate::text::{contains_str, contains_text, lower, lowercase, opt_view, trim, trim_text};
use crate::views::{RepoViewMetadata, RepoViewView};
use vstd::prelude::*;

verus! {

broadcast use {
    crate::text::lemma_views_push,
    crate::steps::lemma_step_views_push,
    crate::steps::lemma_stage_views_push,
};

/// The first place that is the one looked for, where each is given as the disk
/// resolves it.
pub open spec fn place_at(places: Seq<String>, expected: Seq<char>, i: int) -> int
    decreases places.len() - i,
{
    if i < 0 || i >= places.len() {
        -1
    } else if path_eq(places[i]@, expected) {
        i
    } else {
        place_at(places, expected, i + 1)
    }
}

/// The managed repository at a path. `places` gives the place of each repository,
/// and `expected` the place looked for, as the disk resolves them.
pub fn managed_repo_by_path_id(
    repos: &Vec<ManagedRepoRecord>,
    places: &Vec<String>,
    expected: &str,
    repo_path: &str,
) -> (r: Result<ManagedRepoRecord, Error>)
    requires
        places@.len() == repos@.len(),
    ensures
        ({
            let i = place_at(places@, expected@, 0);
            outcome(r) == if 0 <= i < repos@.len() {
                Ok::<RecordView, Seq<char>>(repos@[i]@)
            } else {
                Err("unknown managed repository path: "@ + repo_path@)
            }
        }),
{
    let mut i: usize = 0;
    while i < repos.len()
        invariant
            places@.len() == repos@.len(),
            i <= repos@.len(),
            place_at(places@, expected@, i as int) == place_at(places@, expected@, 0),
        decreases repos@.len() - i,
    {
        if same_path(places[i].as_str(), expected) {
            return Ok(repos[i].clone());
        }
        i += 1;
    }
    Err(Error::about("unknown managed repository path: ", repo_path))
}

/// A parent, and the canonical repository whose Git directory holds it.
#[derive(Debug)]
pub struct RelationshipParent {
    pub parent: ManagedRepoRecord,
    pub storage: ManagedRepoRecord,
}

impl View for RelationshipParent {
    type V = (RecordView, RecordView);

    open spec fn view(&self) -> (RecordView, RecordView) {
        (self.parent@, self.storage@)
    }
}

/// The canonical repository of a summary, by the number that it is found under.
pub open spec fn summary_storage(view: RegistryView, s: SummaryView) -> Result<
    RecordView,
    Seq<char>,
> {
    let key = s.canonical_locator.key();
    match parsed_locator(key, parsed_url(trim_text(key))) {
        Err(message) => Err(message),
        Ok(locator) => {
            let i = first_answering(view, locator, 0);
            Ok(
                RecordView {
                    id: if 0 <= i < view.repos.len() {
                        view.repos[i].id
                    } else {
                        s.canonical_repo_id
                    },
                    current: s.canonical_locator,
                    path: s.canonical_path,
                },
            )
        },
    }
}

/// A refusal of chains of parents that do not end, or that part.
pub open spec fn chain_refused(links: Seq<LinkView>, r: Result<RecordView, Seq<char>>) -> bool {
    r matches Err(text) && summaries_refused(links, text)
}

/// The storage of a parent that is no view: that of the canonical repository at
/// the end of its chain of parents, or the parent itself where it has none. Where
/// any chain of parents is refused, so is the storage of every parent.
pub open spec fn storage_result(
    view: RegistryView,
    parent: RecordView,
    r: Result<RecordView, Seq<char>>,
) -> bool {
    let links = all_links(view);
    let k = link_of(links, parent.id, 0);
    if !unrefused(links) {
        chain_refused(links, r)
    } else if k < 0 {
        r == Ok::<RecordView, Seq<char>>(parent)
    } else {
        exists|s: SummaryView| #[trigger] is_summary(links, k, s) && r == summary_storage(view, s)
    }
}

fn chain_storage(registry: &Registry, parent: &ManagedRepoRecord) -> (r: Result<
    ManagedRepoRecord,
    Error,
>)
    ensures
        storage_result(registry@, parent@, outcome(r)),
{
    let links = registry.shared_git_dir_relationships();
    let ghost all = all_links(registry@);
    let summaries = match relationship_summaries(&links) {
        Ok(summaries) => summaries,
        Err(error) => {
            return Err(error);
        },
    };
    let mut i: usize = 0;
    while i < links.len()
        invariant
            i <= links@.len(),
            all == link_views(links@),
            all == all_links(registry@),
            unrefused(all),
            summaries@.len() == links@.len(),
            forall|k: int|
                0 <= k < links@.len() ==> is_summary(all, k, (#[trigger] summaries@[k])@),
            link_of(all, parent.id, i as int) == link_of(all, parent.id, 0),
        decreases links@.len() - i,
    {
        proof {
            assert(all[i as int] == links@[i as int]@);
        }
        if links[i].dependent_repo_id == parent.id {
            let summary = &summaries[i];
            let ghost s = summary@;
            proof {
                assert(is_summary(all, i as int, summaries@[i as int]@));
            }
            return match registry.find_repo(summary.canonical_locator.key().as_str()) {
                Err(error) => Err(error),
                Ok(found) => {
                    let id = match found {
                        Some(record) => record.id,
                        None => summary.canonical_repo_id,
                    };
                    Ok(
                        ManagedRepoRecord {
                            id,
                            current: summary.canonical_locator.clone(),
                            path: summary.canonical_path.clone(),
                        },
                    )
                },
            };
        }
        i += 1;
    }
    Ok(parent.clone())
}

pub open spec fn opt_repo_view(o: Option<RepoViewMetadata>) -> Option<RepoViewView> {
    match o {
        Some(view) => Some(view@),
        None => None,
    }
}

/// Finds where the Git directory of a parent is kept. `view` is the description of
/// the view at the parent's place, where there is one; its canonical repository is
/// then recorded.
pub fn resolve_relationship_parent_storage(
    registry: &mut Registry,
    parent: ManagedRepoRecord,
    view: &Option<RepoViewMetadata>,
) -> (r: Result<RelationshipParent, Error>)
    requires
        top_repo_id(old(registry)@.repos) < i64::MAX,
    ensures
        match opt_repo_view(*view) {
            Some(view) => {
                &&& outcome(r) == Ok::<(RecordView, RecordView), Seq<char>>(
                    (
                        parent@,
                        RecordView {
                            id: repo_id_for(old(registry)@.repos, view.canonical_locator.key()),
                            current: view.canonical_locator,
                            path: view.canonical_path,
                        },
                    ),
                )
                &&& final(registry)@ == with_repo(
                    old(registry)@,
                    view.canonical_locator,
                    view.canonical_path,
                    None,
                )
            },
            None => {
                &&& final(registry)@ == old(registry)@
                &&& match outcome(r) {
                    Ok((p, storage)) => p == parent@ && storage_result(
                        old(registry)@,
                        parent@,
                        Ok(storage),
                    ),
                    Err(message) => storage_result(old(registry)@, parent@, Err(message)),
                }
            },
        },
{
    match view {
        Some(view) => {
            let id = registry.upsert_repo(
                &view.canonical_locator,
                view.canonical_path.as_str(),
                None,
            );
            let storage = ManagedRepoRecord {
                id,
                current: view.canonical_locator.clone(),
                path: view.canonical_path.clone(),
            };
            Ok(RelationshipParent { parent, storage })
        },
        None => match chain_storage(registry, &parent) {
            Ok(storage) => Ok(RelationshipParent { parent, storage }),
            Err(error) => Err(error),
        },
    }
}

/// What is found at a path that a parent is given by.
#[derive(Debug)]
pub struct ParentPath {
    pub path: String,
    pub view: Option<RepoViewMetadata>,
    pub is_repository: bool,
    /// The locator of its origin.
    pub origin: Option<Locator>,
}

/// Where a parent comes from.
#[derive(Debug)]
pub enum ParentSource {
    Managed(ManagedRepoRecord),
    View(RepoViewMetadata),
    Checkout { locator: Locator, path: String },
    /// A bare clone that is to be there first.
    Remote { locator: Locator, path: String, url: String },
}

pub enum ParentSourceView {
    Managed(RecordView),
    View(RepoViewView),
    Checkout { locator: LocatorView, path: Seq<char> },
    Remote { locator: LocatorView, path: Seq<char>, url: Seq<char> },
}

impl View for ParentSource {
    type V = ParentSourceView;

    open spec fn view(&self) -> ParentSourceView {
        match self {
            ParentSource::Managed(record) => ParentSourceView::Managed(record@),
            ParentSource::View(view) => ParentSourceView::View(view@),
            ParentSource::Checkout { locator, path } => ParentSourceView::Checkout {
                locator: locator@,
                path: path@,
            },
            ParentSource::Remote { locator, path, url } => ParentSourceView::Remote {
                locator: locator@,
                path: path@,
                url: url@,
            },
        }
    }
}

/// The repository that a reference names in the registry, if it names one.
pub open spec fn referenced(view: RegistryView, reference: Seq<char>) -> Option<RecordView> {
    match parsed_locator(reference, parsed_url(trim_text(reference))) {
        Err(_) => None,
        Ok(locator) => {
            let i = first_answering(view, locator, 0);
            if 0 <= i < view.repos.len() && known(view.repos, view.repos[i].id) {
                Some(record_of(view.repos[with_id(view.repos, view.repos[i].id, 0)]))
            } else {
                None
            }
        },
    }
}

/// A parent that is cloned from where it is hosted.
pub open spec fn remote_parent(clone_root: Seq<char>, reference: Seq<char>) -> Result<
    ParentSourceView,
    Seq<char>,
> {
    match parsed_locator(reference, parsed_url(trim_text(reference))) {
        Err(message) => Err(message),
        Ok(locator) => Ok(
            ParentSourceView::Remote {
                locator,
                path: placed(clone_root, locator),
                url: if contains_text(reference, "://"@) || scp_like(reference) is Some {
                    reference
                } else {
                    remote_url(None, locator)
                },
            },
        ),
    }
}

/// What a path that a parent is given by makes it.
pub open spec fn path_parent(found: ParentPath) -> Result<ParentSourceView, Seq<char>> {
    if found.view is Some {
        Ok(ParentSourceView::View(found.view->0@))
    } else if !found.is_repository {
        Err("parent path is not a Git repository: "@ + found.path@)
    } else {
        match found.origin {
            Some(locator) => Ok(
                ParentSourceView::Checkout { locator: locator@, path: found.path@ },
            ),
            None => Err(
                "parent path has no locator-compatible origin remote: "@ + found.path@,
            ),
        }
    }
}

/// A reference to a parent is taken as the path of a managed repository, then as a
/// locator that the registry knows, then as a path, and last as a repository to be
/// cloned.
pub open spec fn parent_source(
    view: RegistryView,
    managed: Option<RecordView>,
    found: Option<ParentPath>,
    clone_root: Seq<char>,
    reference: Seq<char>,
) -> Result<ParentSourceView, Seq<char>> {
    if managed is Some {
        Ok(ParentSourceView::Managed(managed->0))
    } else if referenced(view, reference) is Some {
        Ok(ParentSourceView::Managed(referenced(view, reference)->0))
    } else {
        match found {
            Some(found) => path_parent(found),
            None => remote_parent(clone_root, reference),
        }
    }
}

pub open spec fn opt_record(o: Option<ManagedRepoRecord>) -> Option<RecordView> {
    match o {
        Some(record) => Some(record@),
        None => None,
    }
}

/// `managed` is the managed repository at the path that the reference is, and
/// `found` what stands at that path.
pub fn choose_parent(
    registry: &Registry,
    managed: Option<ManagedRepoRecord>,
    found: Option<ParentPath>,
    clone_root: &str,
    reference: &str,
) -> (r: Result<ParentSource, Error>)
    ensures
        outcome(r) == parent_source(
            registry@,
            opt_record(managed),
            found,
            clone_root@,
            reference@,
        ),
{
    match managed {
        Some(record) => {
            return Ok(ParentSource::Managed(record));
        },
        None => {},
    }
    match registry.find_repo(reference) {
        Ok(Some(record)) => match registry.repo_by_id(record.id) {
            Some(record) => {
                return Ok(ParentSource::Managed(record));
            },
            None => {},
        },
        _ => {},
    }
    match found {
        Some(found) => match found.view {
            Some(view) => Ok(ParentSource::View(view)),
            None => if !found.is_repository {
                Err(Error::about("parent path is not a Git repository: ", found.path.as_str()))
            } else {
                match found.origin {
                    Some(locator) => Ok(ParentSource::Checkout { locator, path: found.path }),
                    None => Err(
                        Error::about(
                            "parent path has no locator-compatible origin remote: ",
                            found.path.as_str(),
                        ),
                    ),
                }
            },
        },
        None => {
            let locator = match Locator::parse(reference) {
                Ok(locator) => locator,
                Err(error) => {
                    return Err(error);
                },
            };
            let path = locator_path(clone_root, &locator);
            let url = if contains_str(reference, "://") || parse_scp_like(reference).is_some() {
                reference.to_owned()
            } else {
                remote_url_for_locator(None, &locator)
            };
            Ok(ParentSource::Remote { locator, path, url })
        },
    }
}

/// Records a parent that is a view, and its canonical repository.
pub fn record_view_parent(registry: &mut Registry, view: &RepoViewMetadata) -> (r:
    RelationshipParent)
    requires
        top_repo_id(old(registry)@.repos) < i64::MAX - 1,
    ensures
        ({
            let first = with_repo(
                old(registry)@,
                view@.locator,
                view@.path,
                Some(view@.canonical_locator.key()),
            );
            &&& final(registry)@ == with_repo(
                first,
                view@.canonical_locator,
                view@.canonical_path,
                None,
            )
            &&& r@ == (
                RecordView {
                    id: repo_id_for(old(registry)@.repos, view@.locator.key()),
                    current: view@.locator,
                    path: view@.path,
                },
                RecordView {
                    id: repo_id_for(first.repos, view@.canonical_locator.key()),
                    current: view@.canonical_locator,
                    path: view@.canonical_path,
                },
            )
        }),
{
    proof {
        lemma_upserted(
            registry@.repos,
            view@.locator,
            view@.path,
            Some(view@.canonical_locator.key()),
        );
    }
    let id = registry.upsert_repo(
        &view.locator,
        view.path.as_str(),
        Some(view.canonical_locator.key()),
    );
    let storage_id = registry.upsert_repo(
        &view.canonical_locator,
        view.canonical_path.as_str(),
        None,
    );
    RelationshipParent {
        parent: ManagedRepoRecord {
            id,
            current: view.locator.clone(),
            path: view.path.clone(),
        },
        storage: ManagedRepoRecord {
            id: storage_id,
            current: view.canonical_locator.clone(),
            path: view.canonical_path.clone(),
        },
    }
}

/// Records a parent that is a repository of its own.
pub fn record_parent(registry: &mut Registry, locator: &Locator, path: &str) -> (r:
    ManagedRepoRecord)
    requires
        top_repo_id(old(registry)@.repos) < i64::MAX,
    ensures
        final(registry)@ == with_repo(old(registry)@, locator@, path@, None),
        r@ == (RecordView {
            id: repo_id_for(old(registry)@.repos, locator@.key()),
            current: locator@,
            path: path@,
        }),
{
    let id = registry.upsert_repo(locator, path, None);
    ManagedRepoRecord { id, current: locator.clone(), path: path.to_owned() }
}

/// What is to be done so that a canonical repository is bare.
#[derive(Debug, Clone, Copy, PartialEq, Eq, Structural)]
pub enum BareNeed {
    Nothing,
    Convert,
}

/// A canonical repository that a dependent shares has to be bare. A view cannot be
/// one; a checkout is converted; a place with nothing there is refused.
pub open spec fn bare_need(
    path: Seq<char>,
    has_view: bool,
    exists: bool,
    is_bare: bool,
) -> Result<BareNeed, Seq<char>> {
    if has_view {
        Err("canonical repository cannot be a repo-manager namespace view: "@ + path)
    } else if is_bare {
        Ok(BareNeed::Nothing)
    } else if exists {
        Ok(BareNeed::Convert)
    } else {
        Err("repository is not bare: "@ + path)
    }
}

pub open spec fn need_outcome(r: Result<BareNeed, Error>) -> Result<BareNeed, Seq<char>> {
    match r {
        Ok(need) => Ok(need),
        Err(error) => Err(error@),
    }
}

pub fn ensure_managed_canonical_is_bare(
    path: &str,
    has_view: bool,
    exists: bool,
    is_bare: bool,
) -> (r: Result<BareNeed, Error>)
    ensures
        need_outcome(r) == bare_need(path@, has_view, exists, is_bare),
{
    if has_view {
        Err(
            Error::about(
                "canonical repository cannot be a repo-manager namespace view: ",
                path,
            ),
        )
    } else if is_bare {
        Ok(BareNeed::Nothing)
    } else if exists {
        Ok(BareNeed::Convert)
    } else {
        Err(Error::about("repository is not bare: ", path))
    }
}

/// What a fork is made of. `fork_remote` is the remote that its checkout has of it:
/// a view's own `origin`, or the remote that the canonical checkout gets.
#[derive(Debug)]
pub struct ForkPlan {
    pub fork_locator: Locator,
    pub fork_path: String,
    pub fork_remote: String,
    pub stages: Vec<Stage>,
}

#[verifier::ext_equal]
pub struct ForkPlanView {
    pub fork_locator: LocatorView,
    pub fork_path: Seq<char>,
    pub fork_remote: Seq<char>,
    pub stages: Seq<StageView>,
}

impl View for ForkPlan {
    type V = ForkPlanView;

    open spec fn view(&self) -> ForkPlanView {
        ForkPlanView {
            fork_locator: self.fork_locator@,
            fork_path: self.fork_path@,
            fork_remote: self.fork_remote@,
            stages: stage_views(self.stages@),
        }
    }
}

/// A repository depends neither on itself nor on one that depends on it.
pub open spec fn fork_refusal(
    fork: LocatorView,
    parent: LocatorView,
    storage: LocatorView,
) -> Option<Seq<char>> {
    if parent == fork {
        Some("repository cannot be its own parent repository"@)
    } else if storage == fork {
        Some("repository cannot depend on one of its own descendants"@)
    } else {
        None
    }
}

/// A fork next to a checkout is a linked worktree at the head of the fork's remote.
/// Next to a bare repository it is a view, which is set up once the repository is
/// known to be bare.
pub open spec fn fork_stages(
    fork_path: Seq<char>,
    fork_url: Seq<char>,
    remote: Seq<char>,
    storage_path: Seq<char>,
    canonical_url: Seq<char>,
    as_bare: bool,
) -> Seq<StageView> {
    let dir = storage_path;
    seq![
        plain_stage(
            if as_bare {
                seq![StepView::MakeParent { path: fork_path }, StepView::MakeBare { path: dir }]
            } else {
                seq![
                    StepView::MakeParent { path: fork_path },
                    StepView::EnsureRemote { dir, name: "origin"@, url: canonical_url },
                    StepView::EnsureRemote { dir, name: remote, url: fork_url },
                    StepView::Git { dir, args: seq!["fetch"@, remote] },
                    StepView::FindHead {
                        dir,
                        remote,
                        warning: "could not determine fork default branch; using "@ + remote
                            + "/HEAD"@,
                    },
                    StepView::Git {
                        dir,
                        args: seq!["worktree"@, "add"@, fork_path, remote + "/HEAD"@],
                    },
                ]
            },
        ),
    ]
}

pub open spec fn fork_plan(
    clone_root: Seq<char>,
    fork_url: Seq<char>,
    canonical_url: Seq<char>,
    fork: LocatorView,
    parent: (RecordView, RecordView),
    as_bare: bool,
) -> Result<ForkPlanView, Seq<char>> {
    match fork_refusal(fork, parent.0.current, parent.1.current) {
        Some(message) => Err(message),
        None => {
            let path = placed(clone_root, fork);
            let remote = remote_name("fork"@, fork);
            Ok(
                ForkPlanView {
                    fork_locator: fork,
                    fork_path: path,
                    fork_remote: if as_bare {
                        "origin"@
                    } else {
                        remote
                    },
                    stages: fork_stages(
                        path,
                        fork_url,
                        remote,
                        parent.1.path,
                        canonical_url,
                        as_bare,
                    ),
                },
            )
        },
    }
}

pub fn plan_fork(
    config: &Config,
    fork_url: &str,
    canonical_url: &str,
    fork_locator: Locator,
    parent: &RelationshipParent,
) -> (r: Result<ForkPlan, Error>)
    ensures
        outcome(r) == fork_plan(
            config@.clone_root,
            fork_url@,
            canonical_url@,
            fork_locator@,
            parent@,
            config.clone_as_bare,
        ),
{
    if parent.parent.current.same(&fork_locator) {
        return Err(Error::fixed("repository cannot be its own parent repository"));
    }
    if parent.storage.current.same(&fork_locator) {
        return Err(Error::fixed("repository cannot depend on one of its own descendants"));
    }
    let fork_path = locator_path(config.clone_root.as_str(), &fork_locator);
    let fork_remote = fork_remote_name(&fork_locator);
    let ghost remote_of_fork = fork_remote@;
    let dir = parent.storage.path.as_str();
    let mut steps = one_step(Step::MakeParent { path: fork_path.clone() });
    if config.clone_as_bare {
        steps.push(Step::MakeBare { path: dir.to_owned() });
    } else {
        let remote = fork_remote.as_str();
        let mut head = fork_remote.clone();
        head.append("/HEAD");
        let mut warning = "could not determine fork default branch; using ".to_owned();
        warning.append(remote);
        warning.append("/HEAD");
        steps.push(ensure_remote(dir, "origin", canonical_url));
        steps.push(ensure_remote(dir, remote, fork_url));
        steps.push(git(dir, &["fetch", remote]));
        steps.push(
            Step::FindHead { dir: dir.to_owned(), remote: fork_remote.clone(), warning },
        );
        steps.push(git(dir, &["worktree", "add", fork_path.as_str(), head.as_str()]));
    }
    let stages = one_stage(plainly(steps));
    proof {
        assert(stage_views(stages@) =~~= fork_stages(
            fork_path@,
            fork_url@,
            remote_of_fork,
            dir@,
            canonical_url@,
            config.clone_as_bare,
        ));
    }
    let fork_remote = if config.clone_as_bare {
        "origin".to_owned()
    } else {
        fork_remote
    };
    Ok(ForkPlan { fork_locator, fork_path, fork_remote, stages })
}

/// The registry once the canonical repository of a fork is recorded, and the fork.
pub open spec fn with_both(
    view: RegistryView,
    fork: (LocatorView, Seq<char>),
    parent: (RecordView, RecordView),
) -> RegistryView {
    with_repo(
        with_repo(view, parent.1.current, parent.1.path, None),
        fork.0,
        fork.1,
        Some(parent.1.current.key()),
    )
}

/// The registry once a fork is recorded: its canonical repository, itself, and
/// whose fork it is.
pub open spec fn with_fork(
    view: RegistryView,
    fork: (LocatorView, Seq<char>),
    parent: (RecordView, RecordView),
) -> RegistryView {
    let first = with_repo(view, parent.1.current, parent.1.path, None);
    let second = with_both(view, fork, parent);
    RegistryView {
        forks: forked(second.forks, repo_id_for(first.repos, fork.0.key()), parent.0.id),
        ..second
    }
}

pub fn record_new_fork(registry: &mut Registry, fork: &Placed, parent: &RelationshipParent) -> (r:
    Result<(), Error>)
    requires
        top_repo_id(old(registry)@.repos) < i64::MAX - 1,
        top_related_id(old(registry)@.related) < i64::MAX,
    ensures
        known(old(registry)@.repos, parent@.0.id) ==> r is Ok,
        r is Ok ==> final(registry)@ == with_fork(old(registry)@, fork.place(), parent@),
        r is Ok <==> known(with_both(old(registry)@, fork.place(), parent@).repos, parent@.0.id),
        r matches Err(e) ==> final(registry)@ == with_both(old(registry)@, fork.place(), parent@)
            && e@ == unknown_row(),
{
    let ghost before = registry@;
    proof {
        lemma_upserted(before.repos, parent@.1.current, parent@.1.path, None);
    }
    registry.upsert_repo(&parent.storage.current, parent.storage.path.as_str(), None);
    let ghost first = registry@;
    proof {
        lemma_upserted(
            first.repos,
            fork.locator@,
            fork.path@,
            Some(parent@.1.current.key()),
        );
    }
    let fork_id = registry.upsert_repo(
        fork.locator,
        fork.path,
        Some(parent.storage.current.key()),
    );
    registry.record_dependent_relationship(fork_id, parent.parent.id, "fork")
}

/// The types that a repository can be given.
#[derive(Debug, Clone, Copy, PartialEq, Eq, Structural)]
pub enum RepoType {
    Canonical,
    Fork,
    Mirror,
}

impl RepoType {
    pub open spec fn name(self) -> Seq<char> {
        match self {
            RepoType::Canonical => "canonical"@,
            RepoType::Fork => "fork"@,
            RepoType::Mirror => "mirror"@,
        }
    }

    pub fn as_str(self) -> (r: &'static str)
        ensures
            r@ == self.name(),
    {
        match self {
            RepoType::Canonical => "canonical",
            RepoType::Fork => "fork",
            RepoType::Mirror => "mirror",
        }
    }
}

/// A type is read without regard to case and to white space around it.
pub open spec fn read_type(text: Seq<char>) -> Result<RepoType, Seq<char>> {
    let name = lower(trim_text(text));
    if name == "canonical"@ {
        Ok(RepoType::Canonical)
    } else if name == "fork"@ {
        Ok(RepoType::Fork)
    } else if name == "mirror"@ {
        Ok(RepoType::Mirror)
    } else {
        Err(
            "invalid repository type: "@ + text + "; expected canonical, fork, or mirror"@,
        )
    }
}

pub open spec fn type_outcome(r: Result<RepoType, Error>) -> Result<RepoType, Seq<char>> {
    match r {
        Ok(repo_type) => Ok(repo_type),
        Err(error) => Err(error@),
    }
}

pub fn parse_repo_type(text: &str) -> (r: Result<RepoType, Error>)
    ensures
        type_outcome(r) == read_type(text@),
{
    let name = lowercase(trim(text).as_str());
    if name.as_str().eq("canonical") {
        Ok(RepoType::Canonical)
    } else if name.as_str().eq("fork") {
        Ok(RepoType::Fork)
    } else if name.as_str().eq("mirror") {
        Ok(RepoType::Mirror)
    } else {
        let mut message = "invalid repository type: ".to_owned();
        message.append(text);
        message.append("; expected canonical, fork, or mirror");
        Err(Error::new(message))
    }
}

/// What a change of type leads to.
#[derive(Debug)]
pub enum TypeChange {
    /// The repository is canonical now.
    Done,
    /// It depends on the repository that the reference names.
    NeedsParent { repo_type: RepoType, reference: String },
}

pub enum TypeChangeView {
    Done,
    NeedsParent { repo_type: RepoType, reference: Seq<char> },
}

impl View for TypeChange {
    type V = TypeChangeView;

    open spec fn view(&self) -> TypeChangeView {
        match self {
            TypeChange::Done => TypeChangeView::Done,
            TypeChange::NeedsParent { repo_type, reference } => TypeChangeView::NeedsParent {
                repo_type: *repo_type,
                reference: reference@,
            },
        }
    }
}

/// A repository that others depend on keeps its type, and a view cannot be
/// canonical. A fork or mirror needs a canonical repository to be named, and a
/// canonical one must not name any.
pub open spec fn type_change(
    view: RegistryView,
    repo: RecordView,
    repo_type: RepoType,
    canonical: Option<Seq<char>>,
    is_view: bool,
) -> Result<TypeChangeView, Seq<char>> {
    if has_dependents(view, repo.id) {
        Err("repository is canonical for existing fork/mirror checkout(s)"@)
    } else if repo_type == RepoType::Canonical {
        if is_view {
            Err(
                "cannot mark repo-manager namespace view as canonical without a canonical checkout: "@
                    + repo.path,
            )
        } else if canonical is Some {
            Err("--canonical is only valid when setting type to fork or mirror"@)
        } else {
            Ok(TypeChangeView::Done)
        }
    } else {
        match canonical {
            Some(reference) => Ok(TypeChangeView::NeedsParent { repo_type, reference }),
            None => Err("--canonical is required when setting type to "@ + repo_type.name()),
        }
    }
}

/// The registry once a change of type has begun.
pub open spec fn with_type_begun(
    view: RegistryView,
    repo: RecordView,
    repo_type: RepoType,
    canonical: Option<Seq<char>>,
    is_view: bool,
) -> RegistryView {
    if type_change(view, repo, repo_type, canonical, is_view) == Ok::<TypeChangeView, Seq<char>>(
        TypeChangeView::Done,
    ) {
        without_parents(view, repo.id)
    } else {
        view
    }
}

/// Begins a change of type. A repository that becomes canonical loses its parents
/// at once; nothing else is changed yet.
pub fn begin_set_type(
    registry: &mut Registry,
    repo: &ManagedRepoRecord,
    repo_type: RepoType,
    canonical: &Option<String>,
    is_view: bool,
) -> (r: Result<TypeChange, Error>)
    ensures
        outcome(r) == type_change(
            old(registry)@,
            repo@,
            repo_type,
            opt_view(*canonical),
            is_view,
        ),
        final(registry)@ == with_type_begun(
            old(registry)@,
            repo@,
            repo_type,
            opt_view(*canonical),
            is_view,
        ),
{
    match registry.ensure_no_dependents(repo.id) {
        Ok(()) => {},
        Err(error) => {
            return Err(error);
        },
    }
    match repo_type {
        RepoType::Canonical => {
            if is_view {
                return Err(
                    Error::about(
                        "cannot mark repo-manager namespace view as canonical without a canonical checkout: ",
                        repo.path.as_str(),
                    ),
                );
            }
            if canonical.is_some() {
                return Err(
                    Error::fixed(
                        "--canonical is only valid when setting type to fork or mirror",
                    ),
                );
            }
            registry.clear_dependent_relationships(repo.id);
            Ok(TypeChange::Done)
        },
        _ => match canonical {
            Some(reference) => Ok(
                TypeChange::NeedsParent { repo_type, reference: reference.clone() },
            ),
            None => Err(
                Error::about(
                    "--canonical is required when setting type to ",
                    repo_type.as_str(),
                ),
            ),
        },
    }
}

/// What keeps a repository from a parent that it comes to depend on.
pub open spec fn parent_refusal(id: i64, parent: (RecordView, RecordView)) -> Option<Seq<char>> {
    if parent.0.id == id {
        Some("repository cannot be its own parent repository"@)
    } else if parent.1.id == id {
        Some("repository cannot depend on one of its own descendants"@)
    } else {
        None
    }
}

/// The registry once the parent is accepted, or refused.
pub open spec fn with_accepted(
    view: RegistryView,
    id: i64,
    parent: (RecordView, RecordView),
) -> RegistryView {
    if parent_refusal(id, parent) is None {
        without_parents(view, id)
    } else {
        view
    }
}

/// A repository that becomes a fork or mirror loses its parents, unless it would
/// come to depend on itself.
pub fn accept_parent(
    registry: &mut Registry,
    repo: &ManagedRepoRecord,
    parent: &RelationshipParent,
) -> (r: Result<(), Error>)
    ensures
        outcome(r) == match parent_refusal(repo.id, parent@) {
            Some(message) => Err::<(), Seq<char>>(message),
            None => Ok(()),
        },
        final(registry)@ == with_accepted(old(registry)@, repo.id, parent@),
{
    if parent.parent.id == repo.id {
        return Err(Error::fixed("repository cannot be its own parent repository"));
    }
    if parent.storage.id == repo.id {
        return Err(Error::fixed("repository cannot depend on one of its own descendants"));
    }
    registry.clear_dependent_relationships(repo.id);
    Ok(())
}

/// The registry once the repository is recorded anew, below the repository that
/// keeps its Git directory, and without a parent.
pub open spec fn orphaned(
    view: RegistryView,
    repo: RecordView,
    parent: (RecordView, RecordView),
) -> RegistryView {
    without_parents(
        with_repo(view, repo.current, repo.path, Some(parent.1.current.key())),
        repo_id_for(view.repos, repo.current.key()),
    )
}

/// The registry once the parent is recorded of a repository whose Git directory is
/// kept elsewhere than in the parent.
pub open spec fn with_parent(
    view: RegistryView,
    repo: RecordView,
    parent: (RecordView, RecordView),
    repo_type: RepoType,
) -> RegistryView {
    let id = repo_id_for(view.repos, repo.current.key());
    let cleared = orphaned(view, repo, parent);
    if repo_type == RepoType::Fork {
        RegistryView { forks: forked(cleared.forks, id, parent.0.id), ..cleared }
    } else {
        RegistryView {
            related: pair_resolved(cleared.related, id, parent.0.id, "mirror"@),
            ..cleared
        }
    }
}

proof fn lemma_same_ids(a: Seq<RepoView>, b: Seq<RepoView>, id: i64, i: int)
    requires
        a.len() == b.len(),
        0 <= i,
        forall|k: int| 0 <= k < a.len() ==> (#[trigger] a[k]).id == b[k].id,
    ensures
        with_id(a, id, i) == with_id(b, id, i),
    decreases a.len() - i,
{
    if i < a.len() {
        assert(a[i].id == b[i].id);
        lemma_same_ids(a, b, id, i + 1);
    }
}

proof fn lemma_top_kept(rows: Seq<RelatedView>, p: spec_fn(RelatedView) -> bool)
    ensures
        top_related_id(keep(rows, p)) <= top_related_id(rows),
    decreases rows.len(),
{
    if rows.len() > 0 {
        lemma_top_kept(rows.drop_last(), p);
        let before = keep(rows.drop_last(), p);
        if p(rows.last()) {
            assert(keep(rows, p).drop_last() =~= before);
        }
    }
}

/// A repository that loses its parents is forgotten no more than any other, and no
/// number is given out.
proof fn lemma_cleared(view: RegistryView, cleared: i64, id: i64)
    ensures
        known(without_parents(view, cleared).repos, id) == known(view.repos, id),
        top_related_id(without_parents(view, cleared).related) <= top_related_id(view.related),
{
    lemma_same_ids(without_parents(view, cleared).repos, view.repos, id, 0);
    lemma_top_kept(
        view.related,
        |r: RelatedView| !(r.repo_id == cleared && dependent_resolution(r.resolution)),
    );
}

/// Records a fork of a fork, or a mirror of one, after its Git directory has been
/// shared with the canonical repository of them all. Where the parent is that
/// repository, there is nothing more to record.
pub fn finish_set_type(
    registry: &mut Registry,
    repo: &ManagedRepoRecord,
    parent: &RelationshipParent,
    repo_type: RepoType,
) -> (r: Result<(), Error>)
    requires
        repo_type != RepoType::Canonical,
        top_repo_id(old(registry)@.repos) < i64::MAX,
        top_related_id(old(registry)@.related) < i64::MAX,
    ensures
        known(old(registry)@.repos, parent@.0.id) ==> r is Ok,
        parent@.0.id == parent@.1.id ==> r is Ok && final(registry)@ == old(registry)@,
        parent@.0.id != parent@.1.id && r is Ok ==> final(registry)@ == with_parent(
            old(registry)@,
            repo@,
            parent@,
            repo_type,
        ),
        r is Ok <==> parent@.0.id == parent@.1.id || known(
            orphaned(old(registry)@, repo@, parent@).repos,
            parent@.0.id,
        ),
        r matches Err(e) ==> final(registry)@ == orphaned(old(registry)@, repo@, parent@) && e@
            == unknown_row(),
{
    if parent.parent.id == parent.storage.id {
        return Ok(());
    }
    proof {
        lemma_upserted(
            registry@.repos,
            repo@.current,
            repo@.path,
            Some(parent@.1.current.key()),
        );
    }
    let id = registry.upsert_repo(
        &repo.current,
        repo.path.as_str(),
        Some(parent.storage.current.key()),
    );
    let ghost upserted = registry@;
    registry.clear_dependent_relationships(id);
    proof {
        lemma_cleared(upserted, id, id);
        lemma_cleared(upserted, id, parent@.0.id);
        reveal_strlit("fork");
        reveal_strlit("mirror");
        assert("mirror"@[0] != "fork"@[0]);
    }
    registry.record_dependent_relationship(id, parent.parent.id, repo_type.as_str())
}

} // verus!
