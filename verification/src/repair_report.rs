//! The check of the managed repositories: what the recorded rows, the
//! repositories under the clone root and the fork and mirror relationships
//! amount to.
use crate::locator::{Locator, LocatorView};
use crate::paths::{path_eq, path_starts_with, path_under, same_path};
use crate::repair::{
    dependent_views, format_views, opt_locator, relationship_views, skip_views, stale_views,
    untracked_views, DependentView, FormatView, RelationshipView, RepairRelationship,
    RepairReport, RepairRepositoryFormat, RepairRepositoryFormatStatus, RepairSkip,
    RepairStaleDependent, RepairStalePath, RepairStalePathStatus, RepairStatus,
    RepairUntrackedCheckout, RepairUntrackedCheckoutStatus, ReportView, SharedGitDirResolution,
    SkipView, StaleView, UntrackedView,
};
use crate::text::{clone_texts, one_text, views};
use vstd::prelude::*;

verus! {

/// A managed repository and what the disk shows of it.
#[derive(Debug)]
pub struct RepoFacts {
    pub id: i64,
    pub locator: Locator,
    pub path: String,
    /// The path with its links resolved, where it exists.
    pub comparable: String,
    pub exists: bool,
    /// It is a fork or mirror view, not a repository of its own.
    pub view: bool,
    /// Whether it is bare, or why that could not be told.
    pub bare: Result<bool, String>,
    /// Its Git directory is not the one inside it.
    pub shares_git_dir: bool,
    /// What came of converting it to a bare repository, where that was done.
    pub conversion: Result<(), String>,
}

/// A repository found under the clone root.
#[derive(Debug)]
pub struct CheckoutFacts {
    pub path: String,
    pub comparable: String,
    /// The locator that its origin remote names.
    pub locator: Option<Locator>,
}

/// A recorded fork or mirror relationship and what the disk shows of it.
#[derive(Debug)]
pub struct RelationFacts {
    pub relationship: String,
    pub dependent_repo_id: i64,
    pub dependent_locator: Locator,
    pub dependent_path: String,
    pub dependent_exists: bool,
    pub controlling_repo_id: i64,
    pub controlling_locator: Locator,
    pub controlling_path: String,
    pub controlling_exists: bool,
    /// What is wrong with it, or why that could not be told.
    pub reasons: Result<Vec<String>, String>,
    /// What came of repairing it, where that was done.
    pub materialized: Result<SharedGitDirResolution, String>,
}

/// All that a check goes by.
#[derive(Debug)]
pub struct RepairFacts {
    pub clone_as_bare: bool,
    /// The clone root with its links resolved.
    pub clone_root: String,
    pub repos: Vec<RepoFacts>,
    pub checkouts: Vec<CheckoutFacts>,
    /// The relationships before anything was repaired.
    pub snapshot: Vec<RelationFacts>,
    /// The relationships once checkouts are tracked and stale rows are gone.
    pub relationships: Vec<RelationFacts>,
}

/// A managed repository stands at the path.
pub open spec fn managed_path(repos: Seq<RepoFacts>, comparable: Seq<char>) -> bool {
    exists|i: int| 0 <= i < repos.len() && path_eq((#[trigger] repos[i]).comparable@, comparable)
}

/// The last of the first `n` repositories with the locator key; -1 where there
/// is none.
pub open spec fn last_with_key(repos: Seq<RepoFacts>, key: Seq<char>, n: int) -> int
    decreases n,
{
    if n <= 0 {
        -1
    } else if repos[n - 1].locator@.key() == key {
        n - 1
    } else {
        last_with_key(repos, key, n - 1)
    }
}

pub open spec fn untracked(
    locator: Option<LocatorView>,
    path: Seq<char>,
    status: RepairUntrackedCheckoutStatus,
    reason: Seq<char>,
) -> UntrackedView {
    UntrackedView { locator, path, status, reasons: seq![reason] }
}

/// What a repository under the clone root amounts to: nothing, where a row
/// tracks its path.
pub open spec fn checkout_finding(repos: Seq<RepoFacts>, c: CheckoutFacts, check: bool) -> Option<
    UntrackedView,
> {
    if managed_path(repos, c.comparable@) {
        None
    } else {
        match c.locator {
            None => Some(
                untracked(
                    None,
                    c.path@,
                    RepairUntrackedCheckoutStatus::Skipped,
                    "origin remote is missing or is not a parseable repository locator"@,
                ),
            ),
            Some(locator) => {
                let k = last_with_key(repos, locator@.key(), repos.len() as int);
                if k >= 0 && repos[k].exists {
                    Some(
                        untracked(
                            Some(locator@),
                            c.path@,
                            RepairUntrackedCheckoutStatus::Skipped,
                            "locator is already tracked at existing path "@ + repos[k].path@,
                        ),
                    )
                } else if k >= 0 && check {
                    Some(
                        untracked(
                            Some(locator@),
                            c.path@,
                            RepairUntrackedCheckoutStatus::NeedsTracking,
                            "matches stale managed locator previously recorded at "@
                                + repos[k].path@,
                        ),
                    )
                } else if k >= 0 {
                    Some(
                        untracked(
                            Some(locator@),
                            c.path@,
                            RepairUntrackedCheckoutStatus::NowTracked,
                            "updated stale managed locator previously recorded at "@
                                + repos[k].path@,
                        ),
                    )
                } else if check {
                    Some(
                        untracked(
                            Some(locator@),
                            c.path@,
                            RepairUntrackedCheckoutStatus::NeedsTracking,
                            "checkout is under the managed clone root but absent from metadata"@,
                        ),
                    )
                } else {
                    Some(
                        untracked(
                            Some(locator@),
                            c.path@,
                            RepairUntrackedCheckoutStatus::NowTracked,
                            "recorded previously unmanaged clone-root checkout"@,
                        ),
                    )
                }
            },
        }
    }
}

pub open spec fn checkout_findings(
    repos: Seq<RepoFacts>,
    checkouts: Seq<CheckoutFacts>,
    check: bool,
) -> Seq<UntrackedView>
    decreases checkouts.len(),
{
    if checkouts.len() == 0 {
        seq![]
    } else {
        let before = checkout_findings(repos, checkouts.drop_last(), check);
        match checkout_finding(repos, checkouts.last(), check) {
            Some(finding) => before.push(finding),
            None => before,
        }
    }
}

/// The checkout is a managed repository that moved: its recorded path is gone.
pub open spec fn relocates(repos: Seq<RepoFacts>, c: CheckoutFacts, key: Seq<char>) -> bool {
    &&& !managed_path(repos, c.comparable@)
    &&& c.locator is Some
    &&& c.locator->0@.key() == key
    &&& last_with_key(repos, key, repos.len() as int) >= 0
    &&& !repos[last_with_key(repos, key, repos.len() as int)].exists
}

pub open spec fn relocated(
    repos: Seq<RepoFacts>,
    checkouts: Seq<CheckoutFacts>,
    key: Seq<char>,
) -> bool {
    exists|i: int| 0 <= i < checkouts.len() && relocates(repos, #[trigger] checkouts[i], key)
}

/// Whether a managed repository is at the path.
pub fn at_managed_path(repos: &Vec<RepoFacts>, comparable: &str) -> (r: bool)
    ensures
        r == managed_path(repos@, comparable@),
{
    let mut i: usize = 0;
    while i < repos.len()
        invariant
            i <= repos@.len(),
            forall|j: int|
                0 <= j < i ==> !path_eq((#[trigger] repos@[j]).comparable@, comparable@),
        decreases repos@.len() - i,
    {
        if same_path(&repos[i].comparable, comparable) {
            return true;
        }
        i += 1;
    }
    false
}

fn find_key(repos: &Vec<RepoFacts>, key: &str) -> (r: Option<usize>)
    ensures
        match r {
            Some(k) => k < repos@.len() && last_with_key(repos@, key@, repos@.len() as int) == k,
            None => last_with_key(repos@, key@, repos@.len() as int) == -1,
        },
{
    let mut n: usize = repos.len();
    while n > 0
        invariant
            n <= repos@.len(),
            last_with_key(repos@, key@, n as int) == last_with_key(
                repos@,
                key@,
                repos@.len() as int,
            ),
        decreases n,
    {
        if repos[n - 1].locator.key().as_str().eq(key) {
            return Some(n - 1);
        }
        n -= 1;
    }
    None
}

fn untracked_checkout(
    locator: Option<Locator>,
    path: &str,
    status: RepairUntrackedCheckoutStatus,
    reason: &str,
) -> (r: RepairUntrackedCheckout)
    ensures
        r@ == untracked(opt_locator(locator), path@, status, reason@),
{
    RepairUntrackedCheckout {
        locator,
        path: path.to_owned(),
        status,
        reasons: one_text(reason.to_owned()),
    }
}

fn with_path(before: &str, path: &str) -> (r: String)
    ensures
        r@ == before@ + path@,
{
    let mut r = before.to_owned();
    r.append(path);
    r
}

fn survey_checkout(repos: &Vec<RepoFacts>, c: &CheckoutFacts, check: bool) -> (r: Option<
    RepairUntrackedCheckout,
>)
    ensures
        match r {
            Some(finding) => checkout_finding(repos@, *c, check) == Some(finding@),
            None => checkout_finding(repos@, *c, check) is None,
        },
{
    if at_managed_path(repos, &c.comparable) {
        return None;
    }
    let locator = match &c.locator {
        Some(locator) => locator,
        None => return Some(
            untracked_checkout(
                None,
                &c.path,
                RepairUntrackedCheckoutStatus::Skipped,
                "origin remote is missing or is not a parseable repository locator",
            ),
        ),
    };
    match find_key(repos, &locator.key()) {
        Some(k) => {
            let path = repos[k].path.as_str();
            if repos[k].exists {
                let reason = with_path("locator is already tracked at existing path ", path);
                Some(
                    untracked_checkout(
                        Some(locator.clone()),
                        &c.path,
                        RepairUntrackedCheckoutStatus::Skipped,
                        &reason,
                    ),
                )
            } else if check {
                let reason = with_path(
                    "matches stale managed locator previously recorded at ",
                    path,
                );
                Some(
                    untracked_checkout(
                        Some(locator.clone()),
                        &c.path,
                        RepairUntrackedCheckoutStatus::NeedsTracking,
                        &reason,
                    ),
                )
            } else {
                let reason = with_path(
                    "updated stale managed locator previously recorded at ",
                    path,
                );
                Some(
                    untracked_checkout(
                        Some(locator.clone()),
                        &c.path,
                        RepairUntrackedCheckoutStatus::NowTracked,
                        &reason,
                    ),
                )
            }
        },
        None => if check {
            Some(
                untracked_checkout(
                    Some(locator.clone()),
                    &c.path,
                    RepairUntrackedCheckoutStatus::NeedsTracking,
                    "checkout is under the managed clone root but absent from metadata",
                ),
            )
        } else {
            Some(
                untracked_checkout(
                    Some(locator.clone()),
                    &c.path,
                    RepairUntrackedCheckoutStatus::NowTracked,
                    "recorded previously unmanaged clone-root checkout",
                ),
            )
        },
    }
}

/// The repositories under the clone root that no row tracks.
pub fn survey_checkouts(facts: &RepairFacts, check: bool) -> (r: Vec<RepairUntrackedCheckout>)
    ensures
        untracked_views(r@) == checkout_findings(facts.repos@, facts.checkouts@, check),
{
    let mut r: Vec<RepairUntrackedCheckout> = Vec::new();
    let ghost all = facts.checkouts@;
    proof {
        assert(untracked_views(r@) =~= checkout_findings(facts.repos@, all.take(0), check));
    }
    let mut i: usize = 0;
    while i < facts.checkouts.len()
        invariant
            i <= facts.checkouts@.len(),
            all == facts.checkouts@,
            untracked_views(r@) == checkout_findings(facts.repos@, all.take(i as int), check),
        decreases facts.checkouts@.len() - i,
    {
        let ghost before = untracked_views(r@);
        proof {
            assert(all.take(i + 1).drop_last() =~= all.take(i as int));
        }
        if let Some(finding) = survey_checkout(&facts.repos, &facts.checkouts[i], check) {
            let ghost f = finding@;
            r.push(finding);
            proof {
                assert(untracked_views(r@) =~= before.push(f));
            }
        }
        i += 1;
    }
    proof {
        assert(all.take(i as int) =~= all);
    }
    r
}

/// Whether a checkout shows that the repository with the key moved.
fn is_relocated(repos: &Vec<RepoFacts>, checkouts: &Vec<CheckoutFacts>, key: &str) -> (r: bool)
    ensures
        r == relocated(repos@, checkouts@, key@),
{
    let gone = match find_key(repos, key) {
        Some(k) => !repos[k].exists,
        None => false,
    };
    if !gone {
        return false;
    }
    let mut i: usize = 0;
    while i < checkouts.len()
        invariant
            i <= checkouts@.len(),
            last_with_key(repos@, key@, repos@.len() as int) >= 0,
            !repos@[last_with_key(repos@, key@, repos@.len() as int)].exists,
            forall|j: int| 0 <= j < i ==> !relocates(repos@, #[trigger] checkouts@[j], key@),
        decreases checkouts@.len() - i,
    {
        let same = match &checkouts[i].locator {
            Some(locator) => locator.key().as_str().eq(key),
            None => false,
        };
        if same && !at_managed_path(repos, &checkouts[i].comparable) {
            proof {
                assert(relocates(repos@, checkouts@[i as int], key@));
            }
            return true;
        }
        i += 1;
    }
    false
}

/// A relationship whose fork or mirror is the repository.
pub open spec fn depends(relations: Seq<RelationFacts>, id: i64) -> bool {
    exists|i: int| 0 <= i < relations.len() && (#[trigger] relations[i]).dependent_repo_id == id
}

fn is_dependent(relations: &Vec<RelationFacts>, id: i64) -> (r: bool)
    ensures
        r == depends(relations@, id),
{
    let mut i: usize = 0;
    while i < relations.len()
        invariant
            i <= relations@.len(),
            forall|j: int| 0 <= j < i ==> (#[trigger] relations@[j]).dependent_repo_id != id,
        decreases relations@.len() - i,
    {
        if relations[i].dependent_repo_id == id {
            return true;
        }
        i += 1;
    }
    false
}

/// The repository is to be bare, and its format is a matter of its own.
pub open spec fn format_matters(facts: RepairFacts, repo: RepoFacts) -> bool {
    facts.clone_as_bare && repo.exists && path_under(repo.comparable@, facts.clone_root@)
        && !repo.view
}

/// The repository is to be converted to a bare one.
pub open spec fn wants_conversion(facts: RepairFacts, repo: RepoFacts) -> bool {
    &&& format_matters(facts, repo)
    &&& repo.bare == Ok::<bool, String>(false)
    &&& !(depends(facts.snapshot@, repo.id) && repo.shares_git_dir)
}

pub open spec fn format_finding(
    id: i64,
    locator: LocatorView,
    path: Seq<char>,
    status: RepairRepositoryFormatStatus,
    reason: Seq<char>,
) -> FormatView {
    FormatView { repo_id: id, locator, path, status, reasons: seq![reason] }
}

/// What a conversion to a bare repository reports.
pub open spec fn conversion_finding(
    id: i64,
    locator: LocatorView,
    path: Seq<char>,
    outcome: Result<(), Seq<char>>,
) -> FormatView {
    match outcome {
        Ok(()) => format_finding(
            id,
            locator,
            path,
            RepairRepositoryFormatStatus::ConvertedToBare,
            "converted clean managed clone-root checkout to a bare repository"@,
        ),
        Err(text) => format_finding(
            id,
            locator,
            path,
            RepairRepositoryFormatStatus::Skipped,
            text,
        ),
    }
}

pub open spec fn done_view(outcome: Result<(), String>) -> Result<(), Seq<char>> {
    match outcome {
        Ok(()) => Ok(()),
        Err(text) => Err(text@),
    }
}

pub open spec fn repo_format(facts: RepairFacts, repo: RepoFacts, check: bool) -> Option<
    FormatView,
> {
    if !format_matters(facts, repo) {
        None
    } else if wants_conversion(facts, repo) {
        if check {
            Some(
                format_finding(
                    repo.id,
                    repo.locator@,
                    repo.path@,
                    RepairRepositoryFormatStatus::NeedsBareConversion,
                    "clone-as-bare is enabled but this managed clone-root repository is non-bare"@,
                ),
            )
        } else {
            Some(
                conversion_finding(
                    repo.id,
                    repo.locator@,
                    repo.path@,
                    done_view(repo.conversion),
                ),
            )
        }
    } else {
        match repo.bare {
            Err(text) => Some(
                format_finding(
                    repo.id,
                    repo.locator@,
                    repo.path@,
                    RepairRepositoryFormatStatus::Skipped,
                    text@,
                ),
            ),
            Ok(_) => None,
        }
    }
}

pub open spec fn repo_formats(facts: RepairFacts, repos: Seq<RepoFacts>, check: bool) -> Seq<
    FormatView,
>
    decreases repos.len(),
{
    if repos.len() == 0 {
        seq![]
    } else {
        let before = repo_formats(facts, repos.drop_last(), check);
        match repo_format(facts, repos.last(), check) {
            Some(finding) => before.push(finding),
            None => before,
        }
    }
}

fn repository_format(
    id: i64,
    locator: &Locator,
    path: &str,
    status: RepairRepositoryFormatStatus,
    reason: &str,
) -> (r: RepairRepositoryFormat)
    ensures
        r@ == format_finding(id, locator@, path@, status, reason@),
{
    RepairRepositoryFormat {
        repo_id: id,
        locator: locator.clone(),
        path: path.to_owned(),
        status,
        reasons: one_text(reason.to_owned()),
    }
}

pub fn bare_conversion_needed(id: i64, locator: &Locator, path: &str) -> (r: RepairRepositoryFormat)
    ensures
        r@ == format_finding(
            id,
            locator@,
            path@,
            RepairRepositoryFormatStatus::NeedsBareConversion,
            "clone-as-bare is enabled but this managed clone-root repository is non-bare"@,
        ),
{
    repository_format(
        id,
        locator,
        path,
        RepairRepositoryFormatStatus::NeedsBareConversion,
        "clone-as-bare is enabled but this managed clone-root repository is non-bare",
    )
}

/// What converting the repository to a bare one reports, where `outcome` is
/// what came of it.
pub fn convert_repo_format_to_bare(
    id: i64,
    locator: &Locator,
    path: &str,
    outcome: &Result<(), String>,
) -> (r: RepairRepositoryFormat)
    ensures
        r@ == conversion_finding(id, locator@, path@, done_view(*outcome)),
{
    match outcome {
        Ok(_) => repository_format(
            id,
            locator,
            path,
            RepairRepositoryFormatStatus::ConvertedToBare,
            "converted clean managed clone-root checkout to a bare repository",
        ),
        Err(text) => repository_format(
            id,
            locator,
            path,
            RepairRepositoryFormatStatus::Skipped,
            text,
        ),
    }
}

fn is_format_matter(facts: &RepairFacts, repo: &RepoFacts) -> (r: bool)
    ensures
        r == format_matters(*facts, *repo),
{
    facts.clone_as_bare && repo.exists && path_starts_with(&repo.comparable, &facts.clone_root)
        && !repo.view
}

/// Whether the repository is to be converted to a bare one.
pub fn conversion_wanted(facts: &RepairFacts, repo: &RepoFacts) -> (r: bool)
    ensures
        r == wants_conversion(*facts, *repo),
{
    let not_bare = match &repo.bare {
        Ok(bare) => !*bare,
        Err(_) => false,
    };
    is_format_matter(facts, repo) && not_bare && !(is_dependent(&facts.snapshot, repo.id)
        && repo.shares_git_dir)
}

fn survey_format(facts: &RepairFacts, repo: &RepoFacts, check: bool) -> (r: Option<
    RepairRepositoryFormat,
>)
    ensures
        match r {
            Some(finding) => repo_format(*facts, *repo, check) == Some(finding@),
            None => repo_format(*facts, *repo, check) is None,
        },
{
    if !is_format_matter(facts, repo) {
        None
    } else if conversion_wanted(facts, repo) {
        if check {
            Some(bare_conversion_needed(repo.id, &repo.locator, &repo.path))
        } else {
            Some(convert_repo_format_to_bare(repo.id, &repo.locator, &repo.path, &repo.conversion))
        }
    } else {
        match &repo.bare {
            Err(text) => Some(
                repository_format(
                    repo.id,
                    &repo.locator,
                    &repo.path,
                    RepairRepositoryFormatStatus::Skipped,
                    text,
                ),
            ),
            Ok(_) => None,
        }
    }
}

/// The managed repositories whose format is not the one that is asked for.
pub fn survey_formats(facts: &RepairFacts, check: bool) -> (r: Vec<RepairRepositoryFormat>)
    ensures
        format_views(r@) == repo_formats(*facts, facts.repos@, check),
{
    let mut r: Vec<RepairRepositoryFormat> = Vec::new();
    let ghost all = facts.repos@;
    proof {
        assert(format_views(r@) =~= repo_formats(*facts, all.take(0), check));
    }
    let mut i: usize = 0;
    while i < facts.repos.len()
        invariant
            i <= facts.repos@.len(),
            all == facts.repos@,
            format_views(r@) == repo_formats(*facts, all.take(i as int), check),
        decreases facts.repos@.len() - i,
    {
        let ghost before = format_views(r@);
        proof {
            assert(all.take(i + 1).drop_last() =~= all.take(i as int));
        }
        if let Some(finding) = survey_format(facts, &facts.repos[i], check) {
            let ghost f = finding@;
            r.push(finding);
            proof {
                assert(format_views(r@) =~= before.push(f));
            }
        }
        i += 1;
    }
    proof {
        assert(all.take(i as int) =~= all);
    }
    r
}

/// The repository is gone: its path does not exist and nothing shows where it
/// went.
pub open spec fn stale(facts: RepairFacts, repo: RepoFacts) -> bool {
    !repo.exists && !relocated(facts.repos@, facts.checkouts@, repo.locator@.key())
}

pub open spec fn stale_id(facts: RepairFacts, id: i64) -> bool {
    exists|i: int|
        0 <= i < facts.repos@.len() && stale(facts, #[trigger] facts.repos@[i])
            && facts.repos@[i].id == id
}

/// The existing forks and mirrors of the repository.
pub open spec fn blocking(relations: Seq<RelationFacts>, id: i64) -> Seq<DependentView>
    decreases relations.len(),
{
    if relations.len() == 0 {
        seq![]
    } else {
        let before = blocking(relations.drop_last(), id);
        let last = relations.last();
        if last.controlling_repo_id == id && last.dependent_exists {
            before.push(
                DependentView {
                    relationship: last.relationship@,
                    locator: last.dependent_locator@,
                    path: last.dependent_path@,
                },
            )
        } else {
            before
        }
    }
}

pub open spec fn blocking_reasons(dependents: Seq<DependentView>) -> Seq<Seq<char>>
    decreases dependents.len(),
{
    if dependents.len() == 0 {
        seq!["recorded checkout path does not exist"@]
    } else {
        let d = dependents.last();
        blocking_reasons(dependents.drop_last()).push(
            "stale checkout is canonical for existing "@ + d.relationship + " checkout "@
                + d.locator.key() + "; choose a new canonical before pruning this row"@,
        )
    }
}

pub open spec fn stale_finding(facts: RepairFacts, repo: RepoFacts, check: bool) -> StaleView {
    let dependents = blocking(facts.snapshot@, repo.id);
    StaleView {
        repo_id: repo.id,
        locator: repo.locator@,
        path: repo.path@,
        status: if dependents.len() > 0 {
            RepairStalePathStatus::Blocked
        } else if check {
            RepairStalePathStatus::NeedsPrune
        } else {
            RepairStalePathStatus::Pruned
        },
        reasons: blocking_reasons(dependents),
        blocking_dependents: dependents,
    }
}

pub open spec fn stale_findings(facts: RepairFacts, repos: Seq<RepoFacts>, check: bool) -> Seq<
    StaleView,
>
    decreases repos.len(),
{
    if repos.len() == 0 {
        seq![]
    } else {
        let before = stale_findings(facts, repos.drop_last(), check);
        if stale(facts, repos.last()) {
            before.push(stale_finding(facts, repos.last(), check))
        } else {
            before
        }
    }
}

fn is_stale(facts: &RepairFacts, repo: &RepoFacts) -> (r: bool)
    ensures
        r == stale(*facts, *repo),
{
    !repo.exists && !is_relocated(&facts.repos, &facts.checkouts, &repo.locator.key())
}

fn blocking_dependents(relations: &Vec<RelationFacts>, id: i64) -> (r: Vec<RepairStaleDependent>)
    ensures
        dependent_views(r@) == blocking(relations@, id),
{
    let mut r: Vec<RepairStaleDependent> = Vec::new();
    proof {
        assert(dependent_views(r@) =~= blocking(relations@.take(0), id));
    }
    let mut i: usize = 0;
    while i < relations.len()
        invariant
            i <= relations@.len(),
            dependent_views(r@) == blocking(relations@.take(i as int), id),
        decreases relations@.len() - i,
    {
        let ghost before = dependent_views(r@);
        let relation = &relations[i];
        proof {
            assert(relations@.take(i + 1).drop_last() =~= relations@.take(i as int));
        }
        if relation.controlling_repo_id == id && relation.dependent_exists {
            let dependent = RepairStaleDependent {
                relationship: relation.relationship.clone(),
                locator: relation.dependent_locator.clone(),
                path: relation.dependent_path.clone(),
            };
            let ghost d = dependent@;
            r.push(dependent);
            proof {
                assert(dependent_views(r@) =~= before.push(d));
            }
        }
        i += 1;
    }
    proof {
        assert(relations@.take(i as int) =~= relations@);
    }
    r
}

fn reasons_of(dependents: &Vec<RepairStaleDependent>) -> (r: Vec<String>)
    ensures
        views(r@) == blocking_reasons(dependent_views(dependents@)),
{
    broadcast use crate::text::lemma_views_push;

    let ghost all = dependent_views(dependents@);
    let mut r = one_text("recorded checkout path does not exist".to_owned());
    let mut i: usize = 0;
    while i < dependents.len()
        invariant
            i <= dependents@.len(),
            all == dependent_views(dependents@),
            views(r@) == blocking_reasons(all.take(i as int)),
        decreases dependents@.len() - i,
    {
        let dependent = &dependents[i];
        let mut text = "stale checkout is canonical for existing ".to_owned();
        text.append(&dependent.relationship);
        text.append(" checkout ");
        text.append(&dependent.locator.key());
        text.append("; choose a new canonical before pruning this row");
        r.push(text);
        i += 1;
        proof {
            assert(all.take(i as int).drop_last() =~= all.take(i - 1));
            assert(all.take(i as int).last() == dependent@);
        }
    }
    proof {
        assert(all.take(i as int) =~= all);
    }
    r
}

fn survey_stale_repo(facts: &RepairFacts, repo: &RepoFacts, check: bool) -> (r: RepairStalePath)
    ensures
        r@ == stale_finding(*facts, *repo, check),
{
    let dependents = blocking_dependents(&facts.snapshot, repo.id);
    proof {
        assert(dependent_views(dependents@).len() == dependents@.len());
    }
    let status = if dependents.len() > 0 {
        RepairStalePathStatus::Blocked
    } else if check {
        RepairStalePathStatus::NeedsPrune
    } else {
        RepairStalePathStatus::Pruned
    };
    RepairStalePath {
        repo_id: repo.id,
        locator: repo.locator.clone(),
        path: repo.path.clone(),
        status,
        reasons: reasons_of(&dependents),
        blocking_dependents: dependents,
    }
}

/// The managed repositories that are gone.
pub fn survey_stale(facts: &RepairFacts, check: bool) -> (r: Vec<RepairStalePath>)
    ensures
        stale_views(r@) == stale_findings(*facts, facts.repos@, check),
{
    let mut r: Vec<RepairStalePath> = Vec::new();
    let ghost all = facts.repos@;
    proof {
        assert(stale_views(r@) =~= stale_findings(*facts, all.take(0), check));
    }
    let mut i: usize = 0;
    while i < facts.repos.len()
        invariant
            i <= facts.repos@.len(),
            all == facts.repos@,
            stale_views(r@) == stale_findings(*facts, all.take(i as int), check),
        decreases facts.repos@.len() - i,
    {
        let ghost before = stale_views(r@);
        proof {
            assert(all.take(i + 1).drop_last() =~= all.take(i as int));
        }
        if is_stale(facts, &facts.repos[i]) {
            let finding = survey_stale_repo(facts, &facts.repos[i], check);
            let ghost f = finding@;
            r.push(finding);
            proof {
                assert(stale_views(r@) =~= before.push(f));
            }
        }
        i += 1;
    }
    proof {
        assert(all.take(i as int) =~= all);
    }
    r
}

fn is_stale_id(facts: &RepairFacts, id: i64) -> (r: bool)
    ensures
        r == stale_id(*facts, id),
{
    let mut i: usize = 0;
    while i < facts.repos.len()
        invariant
            i <= facts.repos@.len(),
            forall|j: int|
                0 <= j < i ==> !(stale(*facts, #[trigger] facts.repos@[j]) && facts.repos@[j].id
                    == id),
        decreases facts.repos@.len() - i,
    {
        if facts.repos[i].id == id && is_stale(facts, &facts.repos[i]) {
            return true;
        }
        i += 1;
    }
    false
}

/// What a relationship amounts to: nothing where one side is gone, or why it
/// could not be looked at or repaired, or how it is.
pub enum RelationFinding {
    Nothing,
    Skip(SkipView),
    Found(RelationshipView),
}

pub open spec fn relation_skip(rel: RelationFacts, reason: Seq<char>) -> RelationFinding {
    RelationFinding::Skip(
        SkipView {
            relationship: rel.relationship@,
            dependent_locator: rel.dependent_locator@,
            controlling_locator: rel.controlling_locator@,
            reason,
        },
    )
}

pub open spec fn relation_found(
    rel: RelationFacts,
    status: RepairStatus,
    reasons: Seq<Seq<char>>,
    shared_git_dir: Option<SharedGitDirResolution>,
) -> RelationFinding {
    RelationFinding::Found(
        RelationshipView {
            relationship: rel.relationship@,
            dependent_locator: rel.dependent_locator@,
            controlling_locator: rel.controlling_locator@,
            dependent_path: rel.dependent_path@,
            controlling_path: rel.controlling_path@,
            status,
            reasons,
            shared_git_dir: crate::repair::opt_resolution(shared_git_dir),
        },
    )
}

/// The relationship can be looked at, and is to be repaired.
pub open spec fn wants_repair(facts: RepairFacts, rel: RelationFacts) -> bool {
    &&& !stale_id(facts, rel.dependent_repo_id)
    &&& !stale_id(facts, rel.controlling_repo_id)
    &&& rel.dependent_exists
    &&& rel.controlling_exists
    &&& rel.reasons is Ok
    &&& rel.reasons->Ok_0@.len() > 0
}

pub open spec fn relation_finding(facts: RepairFacts, rel: RelationFacts, check: bool)
    -> RelationFinding {
    if stale_id(facts, rel.dependent_repo_id) || stale_id(facts, rel.controlling_repo_id) {
        RelationFinding::Nothing
    } else if !rel.dependent_exists {
        relation_skip(
            rel,
            rel.relationship@ + " checkout does not exist: "@ + rel.dependent_path@,
        )
    } else if !rel.controlling_exists {
        relation_skip(rel, "canonical checkout does not exist: "@ + rel.controlling_path@)
    } else {
        match rel.reasons {
            Err(text) => relation_skip(rel, text@),
            Ok(reasons) => if reasons@.len() == 0 {
                relation_found(rel, RepairStatus::Sound, seq![], None)
            } else if check {
                relation_found(rel, RepairStatus::NeedsRepair, views(reasons@), None)
            } else {
                match rel.materialized {
                    Ok(shared) => relation_found(
                        rel,
                        RepairStatus::Repaired,
                        views(reasons@),
                        Some(shared),
                    ),
                    Err(text) => relation_skip(rel, text@),
                }
            },
        }
    }
}

pub open spec fn relations_found(facts: RepairFacts, rels: Seq<RelationFacts>, check: bool) -> Seq<
    RelationshipView,
>
    decreases rels.len(),
{
    if rels.len() == 0 {
        seq![]
    } else {
        let before = relations_found(facts, rels.drop_last(), check);
        match relation_finding(facts, rels.last(), check) {
            RelationFinding::Found(x) => before.push(x),
            _ => before,
        }
    }
}

pub open spec fn relations_skipped(facts: RepairFacts, rels: Seq<RelationFacts>, check: bool)
    -> Seq<SkipView>
    decreases rels.len(),
{
    if rels.len() == 0 {
        seq![]
    } else {
        let before = relations_skipped(facts, rels.drop_last(), check);
        match relation_finding(facts, rels.last(), check) {
            RelationFinding::Skip(x) => before.push(x),
            _ => before,
        }
    }
}

/// Whether the relationship is to be repaired.
pub fn repair_wanted(facts: &RepairFacts, rel: &RelationFacts) -> (r: bool)
    ensures
        r == wants_repair(*facts, *rel),
{
    if is_stale_id(facts, rel.dependent_repo_id) || is_stale_id(facts, rel.controlling_repo_id) {
        return false;
    }
    match &rel.reasons {
        Ok(reasons) => rel.dependent_exists && rel.controlling_exists && reasons.len() > 0,
        Err(_) => false,
    }
}

fn skip_relation(rel: &RelationFacts, reason: &str) -> (r: RepairSkip)
    ensures
        RelationFinding::Skip(r@) == relation_skip(*rel, reason@),
{
    RepairSkip {
        relationship: rel.relationship.clone(),
        dependent_locator: rel.dependent_locator.clone(),
        controlling_locator: rel.controlling_locator.clone(),
        reason: reason.to_owned(),
    }
}

fn find_relation(
    rel: &RelationFacts,
    status: RepairStatus,
    reasons: Vec<String>,
    shared_git_dir: Option<SharedGitDirResolution>,
) -> (r: RepairRelationship)
    ensures
        RelationFinding::Found(r@) == relation_found(*rel, status, views(reasons@), shared_git_dir),
{
    RepairRelationship {
        relationship: rel.relationship.clone(),
        dependent_locator: rel.dependent_locator.clone(),
        controlling_locator: rel.controlling_locator.clone(),
        dependent_path: rel.dependent_path.clone(),
        controlling_path: rel.controlling_path.clone(),
        status,
        reasons,
        shared_git_dir,
    }
}

/// Adds what a relationship amounts to.
fn survey_relation(
    facts: &RepairFacts,
    rel: &RelationFacts,
    check: bool,
    found: &mut Vec<RepairRelationship>,
    skipped: &mut Vec<RepairSkip>,
)
    ensures
        relationship_views(final(found)@) == (match relation_finding(*facts, *rel, check) {
            RelationFinding::Found(x) => relationship_views(old(found)@).push(x),
            _ => relationship_views(old(found)@),
        }),
        skip_views(final(skipped)@) == (match relation_finding(*facts, *rel, check) {
            RelationFinding::Skip(x) => skip_views(old(skipped)@).push(x),
            _ => skip_views(old(skipped)@),
        }),
{
    if is_stale_id(facts, rel.dependent_repo_id) || is_stale_id(facts, rel.controlling_repo_id) {
        return ;
    }
    let reason = if !rel.dependent_exists {
        let mut text = rel.relationship.clone();
        text.append(" checkout does not exist: ");
        text.append(&rel.dependent_path);
        Some(text)
    } else if !rel.controlling_exists {
        Some(with_path("canonical checkout does not exist: ", &rel.controlling_path))
    } else {
        match &rel.reasons {
            Err(text) => Some(text.clone()),
            Ok(reasons) => if reasons.len() == 0 || check {
                None
            } else {
                match &rel.materialized {
                    Ok(_) => None,
                    Err(text) => Some(text.clone()),
                }
            },
        }
    };
    if let Some(text) = reason {
        let skip = skip_relation(rel, &text);
        let ghost s = skip@;
        skipped.push(skip);
        proof {
            assert(skip_views(skipped@) =~= skip_views(old(skipped)@).push(s));
        }
        return ;
    }
    if let Ok(reasons) = &rel.reasons {
        let finding = if reasons.len() == 0 {
            let none: Vec<String> = Vec::new();
            proof {
                assert(views(none@) =~= seq![]);
            }
            find_relation(rel, RepairStatus::Sound, none, None)
        } else if check {
            find_relation(rel, RepairStatus::NeedsRepair, clone_texts(reasons), None)
        } else {
            match &rel.materialized {
                Ok(shared) => {
                    let copy = shared.clone();
                    proof {
                        assert(crate::repair::opt_resolution(Some(copy))
                            == crate::repair::opt_resolution(Some(*shared)));
                    }
                    find_relation(
                        rel,
                        RepairStatus::Repaired,
                        clone_texts(reasons),
                        Some(copy),
                    )
                },
                Err(_) => return ,
            }
        };
        let ghost f = finding@;
        found.push(finding);
        proof {
            assert(relationship_views(found@) =~= relationship_views(old(found)@).push(f));
        }
    }
}

/// The whole report of a check, or of a repair where `check` is not set and the
/// facts hold what came of it.
pub open spec fn whole_report(facts: RepairFacts, check: bool) -> ReportView {
    ReportView {
        action: "check"@,
        check,
        repository_formats: repo_formats(facts, facts.repos@, check),
        stale_paths: stale_findings(facts, facts.repos@, check),
        untracked_checkouts: checkout_findings(facts.repos@, facts.checkouts@, check),
        relationships: relations_found(facts, facts.relationships@, check),
        skipped: relations_skipped(facts, facts.relationships@, check),
    }
}

pub fn build_repair_report(facts: &RepairFacts, check: bool) -> (r: RepairReport)
    ensures
        r@ == whole_report(*facts, check),
{
    let untracked_checkouts = survey_checkouts(facts, check);
    let repository_formats = survey_formats(facts, check);
    let stale_paths = survey_stale(facts, check);
    let mut relationships: Vec<RepairRelationship> = Vec::new();
    let mut skipped: Vec<RepairSkip> = Vec::new();
    let ghost all = facts.relationships@;
    proof {
        assert(relationship_views(relationships@) =~= relations_found(*facts, all.take(0), check));
        assert(skip_views(skipped@) =~= relations_skipped(*facts, all.take(0), check));
    }
    let mut i: usize = 0;
    while i < facts.relationships.len()
        invariant
            i <= facts.relationships@.len(),
            all == facts.relationships@,
            relationship_views(relationships@) == relations_found(
                *facts,
                all.take(i as int),
                check,
            ),
            skip_views(skipped@) == relations_skipped(*facts, all.take(i as int), check),
        decreases facts.relationships@.len() - i,
    {
        survey_relation(
            facts,
            &facts.relationships[i],
            check,
            &mut relationships,
            &mut skipped,
        );
        i += 1;
        proof {
            assert(all.take(i as int).drop_last() =~= all.take(i - 1));
        }
    }
    proof {
        assert(all.take(i as int) =~= all);
    }
    RepairReport {
        action: "check",
        check,
        repository_formats,
        stale_paths,
        untracked_checkouts,
        relationships,
        skipped,
    }
}

} // verus!
