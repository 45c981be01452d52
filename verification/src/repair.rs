//! What a check of the managed repositories finds and what a repair did.
use crate::locator::{Locator, LocatorView};
use crate::text::{clone_texts, views};
use vstd::prelude::*;

verus! {

/// How a fork or mirror came to share the Git directory of its canonical
/// repository.
#[derive(Debug)]
pub struct SharedGitDirResolution {
    pub dependent_locator: Locator,
    pub controlling_locator: Locator,
    pub dependent_path: String,
    pub controlling_path: String,
    pub dependent_remote: String,
    pub dependent_url: String,
    pub local_branch: String,
    pub remote_branch: String,
    pub converted_to_worktree: bool,
}

pub struct ResolutionView {
    pub dependent_locator: LocatorView,
    pub controlling_locator: LocatorView,
    pub dependent_path: Seq<char>,
    pub controlling_path: Seq<char>,
    pub dependent_remote: Seq<char>,
    pub dependent_url: Seq<char>,
    pub local_branch: Seq<char>,
    pub remote_branch: Seq<char>,
    pub converted_to_worktree: bool,
}

impl View for SharedGitDirResolution {
    type V = ResolutionView;

    open spec fn view(&self) -> ResolutionView {
        ResolutionView {
            dependent_locator: self.dependent_locator@,
            controlling_locator: self.controlling_locator@,
            dependent_path: self.dependent_path@,
            controlling_path: self.controlling_path@,
            dependent_remote: self.dependent_remote@,
            dependent_url: self.dependent_url@,
            local_branch: self.local_branch@,
            remote_branch: self.remote_branch@,
            converted_to_worktree: self.converted_to_worktree,
        }
    }
}

impl Clone for SharedGitDirResolution {
    fn clone(&self) -> (r: Self)
        ensures
            r@ == self@,
    {
        SharedGitDirResolution {
            dependent_locator: self.dependent_locator.clone(),
            controlling_locator: self.controlling_locator.clone(),
            dependent_path: self.dependent_path.clone(),
            controlling_path: self.controlling_path.clone(),
            dependent_remote: self.dependent_remote.clone(),
            dependent_url: self.dependent_url.clone(),
            local_branch: self.local_branch.clone(),
            remote_branch: self.remote_branch.clone(),
            converted_to_worktree: self.converted_to_worktree,
        }
    }
}

#[derive(Debug, Clone, Copy, PartialEq, Eq, Structural)]
pub enum RepairStalePathStatus {
    NeedsPrune,
    Pruned,
    Blocked,
}

#[derive(Debug, Clone, Copy, PartialEq, Eq, Structural)]
pub enum RepairRepositoryFormatStatus {
    NeedsBareConversion,
    ConvertedToBare,
    Skipped,
}

#[derive(Debug, Clone, Copy, PartialEq, Eq, Structural)]
pub enum RepairUntrackedCheckoutStatus {
    NeedsTracking,
    NowTracked,
    Skipped,
}

#[derive(Debug, Clone, Copy, PartialEq, Eq, Structural)]
pub enum RepairStatus {
    Sound,
    NeedsRepair,
    Repaired,
}

/// An existing fork or mirror that keeps a stale row from being pruned.
#[derive(Debug)]
pub struct RepairStaleDependent {
    pub relationship: String,
    pub locator: Locator,
    pub path: String,
}

pub struct DependentView {
    pub relationship: Seq<char>,
    pub locator: LocatorView,
    pub path: Seq<char>,
}

impl View for RepairStaleDependent {
    type V = DependentView;

    open spec fn view(&self) -> DependentView {
        DependentView {
            relationship: self.relationship@,
            locator: self.locator@,
            path: self.path@,
        }
    }
}

pub open spec fn dependent_views(v: Seq<RepairStaleDependent>) -> Seq<DependentView> {
    v.map_values(|d: RepairStaleDependent| d@)
}

/// A managed repository whose recorded path does not exist.
#[derive(Debug)]
pub struct RepairStalePath {
    pub repo_id: i64,
    pub locator: Locator,
    pub path: String,
    pub status: RepairStalePathStatus,
    pub reasons: Vec<String>,
    pub blocking_dependents: Vec<RepairStaleDependent>,
}

pub struct StaleView {
    pub repo_id: i64,
    pub locator: LocatorView,
    pub path: Seq<char>,
    pub status: RepairStalePathStatus,
    pub reasons: Seq<Seq<char>>,
    pub blocking_dependents: Seq<DependentView>,
}

impl View for RepairStalePath {
    type V = StaleView;

    open spec fn view(&self) -> StaleView {
        StaleView {
            repo_id: self.repo_id,
            locator: self.locator@,
            path: self.path@,
            status: self.status,
            reasons: views(self.reasons@),
            blocking_dependents: dependent_views(self.blocking_dependents@),
        }
    }
}

pub open spec fn stale_views(v: Seq<RepairStalePath>) -> Seq<StaleView> {
    v.map_values(|s: RepairStalePath| s@)
}

/// A repository under the clone root that no row tracks.
#[derive(Debug)]
pub struct RepairUntrackedCheckout {
    pub locator: Option<Locator>,
    pub path: String,
    pub status: RepairUntrackedCheckoutStatus,
    pub reasons: Vec<String>,
}

pub struct UntrackedView {
    pub locator: Option<LocatorView>,
    pub path: Seq<char>,
    pub status: RepairUntrackedCheckoutStatus,
    pub reasons: Seq<Seq<char>>,
}

pub open spec fn opt_locator(l: Option<Locator>) -> Option<LocatorView> {
    match l {
        Some(x) => Some(x@),
        None => None,
    }
}

impl View for RepairUntrackedCheckout {
    type V = UntrackedView;

    open spec fn view(&self) -> UntrackedView {
        UntrackedView {
            locator: opt_locator(self.locator),
            path: self.path@,
            status: self.status,
            reasons: views(self.reasons@),
        }
    }
}

pub open spec fn untracked_views(v: Seq<RepairUntrackedCheckout>) -> Seq<UntrackedView> {
    v.map_values(|c: RepairUntrackedCheckout| c@)
}

/// A managed repository whose format is not the one that is asked for.
#[derive(Debug)]
pub struct RepairRepositoryFormat {
    pub repo_id: i64,
    pub locator: Locator,
    pub path: String,
    pub status: RepairRepositoryFormatStatus,
    pub reasons: Vec<String>,
}

pub struct FormatView {
    pub repo_id: i64,
    pub locator: LocatorView,
    pub path: Seq<char>,
    pub status: RepairRepositoryFormatStatus,
    pub reasons: Seq<Seq<char>>,
}

impl View for RepairRepositoryFormat {
    type V = FormatView;

    open spec fn view(&self) -> FormatView {
        FormatView {
            repo_id: self.repo_id,
            locator: self.locator@,
            path: self.path@,
            status: self.status,
            reasons: views(self.reasons@),
        }
    }
}

pub open spec fn format_views(v: Seq<RepairRepositoryFormat>) -> Seq<FormatView> {
    v.map_values(|f: RepairRepositoryFormat| f@)
}

/// A fork or mirror relationship, with what is wrong with it.
#[derive(Debug)]
pub struct RepairRelationship {
    pub relationship: String,
    pub dependent_locator: Locator,
    pub controlling_locator: Locator,
    pub dependent_path: String,
    pub controlling_path: String,
    pub status: RepairStatus,
    pub reasons: Vec<String>,
    pub shared_git_dir: Option<SharedGitDirResolution>,
}

pub struct RelationshipView {
    pub relationship: Seq<char>,
    pub dependent_locator: LocatorView,
    pub controlling_locator: LocatorView,
    pub dependent_path: Seq<char>,
    pub controlling_path: Seq<char>,
    pub status: RepairStatus,
    pub reasons: Seq<Seq<char>>,
    pub shared_git_dir: Option<ResolutionView>,
}

pub open spec fn opt_resolution(r: Option<SharedGitDirResolution>) -> Option<ResolutionView> {
    match r {
        Some(x) => Some(x@),
        None => None,
    }
}

impl View for RepairRelationship {
    type V = RelationshipView;

    open spec fn view(&self) -> RelationshipView {
        RelationshipView {
            relationship: self.relationship@,
            dependent_locator: self.dependent_locator@,
            controlling_locator: self.controlling_locator@,
            dependent_path: self.dependent_path@,
            controlling_path: self.controlling_path@,
            status: self.status,
            reasons: views(self.reasons@),
            shared_git_dir: opt_resolution(self.shared_git_dir),
        }
    }
}

pub open spec fn relationship_views(v: Seq<RepairRelationship>) -> Seq<RelationshipView> {
    v.map_values(|r: RepairRelationship| r@)
}

/// A relationship that could not be looked at or repaired.
#[derive(Debug)]
pub struct RepairSkip {
    pub relationship: String,
    pub dependent_locator: Locator,
    pub controlling_locator: Locator,
    pub reason: String,
}

pub struct SkipView {
    pub relationship: Seq<char>,
    pub dependent_locator: LocatorView,
    pub controlling_locator: LocatorView,
    pub reason: Seq<char>,
}

impl View for RepairSkip {
    type V = SkipView;

    open spec fn view(&self) -> SkipView {
        SkipView {
            relationship: self.relationship@,
            dependent_locator: self.dependent_locator@,
            controlling_locator: self.controlling_locator@,
            reason: self.reason@,
        }
    }
}

pub open spec fn skip_views(v: Seq<RepairSkip>) -> Seq<SkipView> {
    v.map_values(|s: RepairSkip| s@)
}

#[derive(Debug)]
pub struct RepairReport {
    pub action: &'static str,
    pub check: bool,
    pub repository_formats: Vec<RepairRepositoryFormat>,
    pub stale_paths: Vec<RepairStalePath>,
    pub untracked_checkouts: Vec<RepairUntrackedCheckout>,
    pub relationships: Vec<RepairRelationship>,
    pub skipped: Vec<RepairSkip>,
}

pub struct ReportView {
    pub action: Seq<char>,
    pub check: bool,
    pub repository_formats: Seq<FormatView>,
    pub stale_paths: Seq<StaleView>,
    pub untracked_checkouts: Seq<UntrackedView>,
    pub relationships: Seq<RelationshipView>,
    pub skipped: Seq<SkipView>,
}

impl View for RepairReport {
    type V = ReportView;

    open spec fn view(&self) -> ReportView {
        ReportView {
            action: self.action@,
            check: self.check,
            repository_formats: format_views(self.repository_formats@),
            stale_paths: stale_views(self.stale_paths@),
            untracked_checkouts: untracked_views(self.untracked_checkouts@),
            relationships: relationship_views(self.relationships@),
            skipped: skip_views(self.skipped@),
        }
    }
}

impl Clone for RepairStaleDependent {
    fn clone(&self) -> (r: Self)
        ensures
            r@ == self@,
    {
        RepairStaleDependent {
            relationship: self.relationship.clone(),
            locator: self.locator.clone(),
            path: self.path.clone(),
        }
    }
}

impl Clone for RepairStalePath {
    fn clone(&self) -> (r: Self)
        ensures
            r@ == self@,
    {
        let mut blocking: Vec<RepairStaleDependent> = Vec::new();
        let mut i: usize = 0;
        while i < self.blocking_dependents.len()
            invariant
                i <= self.blocking_dependents@.len(),
                blocking@.len() == i,
                forall|j: int|
                    0 <= j < i ==> (#[trigger] blocking@[j])@ == self.blocking_dependents@[j]@,
            decreases self.blocking_dependents@.len() - i,
        {
            blocking.push(self.blocking_dependents[i].clone());
            i += 1;
        }
        proof {
            assert(dependent_views(blocking@) =~= dependent_views(self.blocking_dependents@));
        }
        RepairStalePath {
            repo_id: self.repo_id,
            locator: self.locator.clone(),
            path: self.path.clone(),
            status: self.status,
            reasons: clone_texts(&self.reasons),
            blocking_dependents: blocking,
        }
    }
}

pub fn clone_locator(l: &Option<Locator>) -> (r: Option<Locator>)
    ensures
        opt_locator(r) == opt_locator(*l),
{
    match l {
        Some(x) => Some(x.clone()),
        None => None,
    }
}

impl Clone for RepairUntrackedCheckout {
    fn clone(&self) -> (r: Self)
        ensures
            r@ == self@,
    {
        RepairUntrackedCheckout {
            locator: clone_locator(&self.locator),
            path: self.path.clone(),
            status: self.status,
            reasons: clone_texts(&self.reasons),
        }
    }
}

impl Clone for RepairRepositoryFormat {
    fn clone(&self) -> (r: Self)
        ensures
            r@ == self@,
    {
        RepairRepositoryFormat {
            repo_id: self.repo_id,
            locator: self.locator.clone(),
            path: self.path.clone(),
            status: self.status,
            reasons: clone_texts(&self.reasons),
        }
    }
}

impl Clone for RepairRelationship {
    fn clone(&self) -> (r: Self)
        ensures
            r@ == self@,
    {
        RepairRelationship {
            relationship: self.relationship.clone(),
            dependent_locator: self.dependent_locator.clone(),
            controlling_locator: self.controlling_locator.clone(),
            dependent_path: self.dependent_path.clone(),
            controlling_path: self.controlling_path.clone(),
            status: self.status,
            reasons: clone_texts(&self.reasons),
            shared_git_dir: match &self.shared_git_dir {
                Some(x) => Some(x.clone()),
                None => None,
            },
        }
    }
}

/// A report that still asks for a repair.
pub open spec fn needs_repair(report: ReportView) -> bool {
    ||| exists|i: int|
        0 <= i < report.repository_formats.len() && (
        #[trigger] report.repository_formats[i]).status
            == RepairRepositoryFormatStatus::NeedsBareConversion
    ||| exists|i: int|
        0 <= i < report.stale_paths.len() && (#[trigger] report.stale_paths[i]).status
            == RepairStalePathStatus::NeedsPrune
    ||| exists|i: int|
        0 <= i < report.untracked_checkouts.len() && (
        #[trigger] report.untracked_checkouts[i]).status
            == RepairUntrackedCheckoutStatus::NeedsTracking
    ||| exists|i: int|
        0 <= i < report.relationships.len() && (#[trigger] report.relationships[i]).status
            == RepairStatus::NeedsRepair
}

pub fn repair_report_needs_repair(report: &RepairReport) -> (r: bool)
    ensures
        r == needs_repair(report@),
{
    let mut i: usize = 0;
    while i < report.repository_formats.len()
        invariant
            i <= report.repository_formats@.len(),
            forall|j: int|
                0 <= j < i ==> (#[trigger] report@.repository_formats[j]).status
                    != RepairRepositoryFormatStatus::NeedsBareConversion,
        decreases report.repository_formats@.len() - i,
    {
        proof {
            assert(report@.repository_formats[i as int] == report.repository_formats@[i as int]@);
        }
        if report.repository_formats[i].status == RepairRepositoryFormatStatus::NeedsBareConversion {
            return true;
        }
        i += 1;
    }
    let mut i: usize = 0;
    while i < report.stale_paths.len()
        invariant
            i <= report.stale_paths@.len(),
            forall|j: int|
                0 <= j < i ==> (#[trigger] report@.stale_paths[j]).status
                    != RepairStalePathStatus::NeedsPrune,
        decreases report.stale_paths@.len() - i,
    {
        proof {
            assert(report@.stale_paths[i as int] == report.stale_paths@[i as int]@);
        }
        if report.stale_paths[i].status == RepairStalePathStatus::NeedsPrune {
            return true;
        }
        i += 1;
    }
    let mut i: usize = 0;
    while i < report.untracked_checkouts.len()
        invariant
            i <= report.untracked_checkouts@.len(),
            forall|j: int|
                0 <= j < i ==> (#[trigger] report@.untracked_checkouts[j]).status
                    != RepairUntrackedCheckoutStatus::NeedsTracking,
        decreases report.untracked_checkouts@.len() - i,
    {
        proof {
            assert(report@.untracked_checkouts[i as int] == report.untracked_checkouts@[i as int]@);
        }
        if report.untracked_checkouts[i].status == RepairUntrackedCheckoutStatus::NeedsTracking {
            return true;
        }
        i += 1;
    }
    let mut i: usize = 0;
    while i < report.relationships.len()
        invariant
            i <= report.relationships@.len(),
            forall|j: int|
                0 <= j < i ==> (#[trigger] report@.relationships[j]).status
                    != RepairStatus::NeedsRepair,
        decreases report.relationships@.len() - i,
    {
        proof {
            assert(report@.relationships[i as int] == report.relationships@[i as int]@);
        }
        if report.relationships[i].status == RepairStatus::NeedsRepair {
            return true;
        }
        i += 1;
    }
    false
}

} // verus!
