//! Moving repositories to where their locators say, on request or because they
//! turned out to be called otherwise by now.
use crate::error::{outcome, Error};
use crate::locator::{
    locator_path, parsed_locator, parsed_url, placed, Locator, LocatorView,
};
use crate::moves::{
    alias_paths, alias_views, change_flags, locator_views, plan_move, AliasPlan, MovePlan,
};
use crate::naming::{remote_url, remote_url_for_locator, str_view};
use crate::paths::{path_eq, same_path};
use crate::registry::{
    first_answering, locators_of, repo_id_for, top_repo_id, ManagedRepoRecord, RecordView, Registry,
    RegistryView,
};
use crate::share::with_repo;
use crate::steps::{
    ensure_remote, moving, moving_text, no_steps, one_stage, plain_stage, plainly, rename,
    stage_views, step_views, Stage, StageView, Step, StepView,
};
use crate::text::{opt_view, trim_text};
use vstd::prelude::*;

verus! {

broadcast use {
    crate::steps::lemma_step_views_push,
    crate::steps::lemma_stage_views_push,
};

/// A link from each old place to the new one, unless they are one.
pub open spec fn link_steps(aliases: Seq<AliasPlan>) -> Seq<StepView>
    decreases aliases.len(),
{
    if aliases.len() == 0 {
        Seq::empty()
    } else {
        let before = link_steps(aliases.drop_last());
        let alias = aliases.last();
        if path_eq(alias.alias_path@, alias.target_path@) {
            before
        } else {
            before.push(StepView::Link { target: alias.target_path@, link: alias.alias_path@ })
        }
    }
}

/// What moves a repository on the disk: it is renamed where it is still at the old
/// place and nothing is at the new one, and the old places become links.
pub open spec fn move_steps(plan: MovePlan, old_exists: bool, new_exists: bool) -> Seq<StepView> {
    (if path_eq(plan.old_path@, plan.new_path@) {
        Seq::empty()
    } else if old_exists && !new_exists {
        seq![
            StepView::MakeParent { path: plan.new_path@ },
            StepView::Rename {
                from: plan.old_path@,
                to: plan.new_path@,
                purpose: moving("moving "@, plan.old_path@, plan.new_path@),
            },
        ]
    } else {
        seq![StepView::MakeParent { path: plan.new_path@ }]
    }) + link_steps(plan.aliases@)
}

/// The whole of a move: on the disk, and then the origin's URL.
pub open spec fn move_stages(
    plan: MovePlan,
    old_exists: bool,
    new_exists: bool,
    origin_url: Seq<char>,
) -> Seq<StageView> {
    seq![
        plain_stage(
            move_steps(plan, old_exists, new_exists).push(
                StepView::EnsureRemote {
                    dir: plan.new_path@,
                    name: "origin"@,
                    url: origin_url,
                },
            ),
        ),
    ]
}

pub fn apply_filesystem_move(
    plan: &MovePlan,
    old_exists: bool,
    new_exists: bool,
    origin_url: &str,
) -> (r: Vec<Stage>)
    ensures
        stage_views(r@) == move_stages(*plan, old_exists, new_exists, origin_url@),
{
    let mut steps = no_steps();
    let old_path = plan.old_path.as_str();
    let new_path = plan.new_path.as_str();
    if !same_path(old_path, new_path) {
        steps.push(Step::MakeParent { path: plan.new_path.clone() });
        if old_exists && !new_exists {
            steps.push(
                rename(old_path, new_path, moving_text("moving ", old_path, new_path)),
            );
        }
    }
    let ghost start = step_views(steps@);
    let ghost all = plan.aliases@;
    proof {
        assert(start =~= start + link_steps(all.take(0)));
    }
    let mut i: usize = 0;
    while i < plan.aliases.len()
        invariant
            i <= plan.aliases@.len(),
            all == plan.aliases@,
            step_views(steps@) == start + link_steps(all.take(i as int)),
        decreases plan.aliases@.len() - i,
    {
        proof {
            assert(all.take(i + 1).drop_last() =~= all.take(i as int));
            assert(all.take(i + 1).last() == all[i as int]);
        }
        let alias = &plan.aliases[i];
        if !same_path(alias.alias_path.as_str(), alias.target_path.as_str()) {
            let step = Step::Link {
                target: alias.target_path.clone(),
                link: alias.alias_path.clone(),
            };
            proof {
                assert((start + link_steps(all.take(i as int))).push(step@) =~= start + link_steps(
                    all.take(i + 1),
                ));
            }
            steps.push(step);
        }
        i += 1;
    }
    proof {
        assert(all.take(i as int) =~= all);
        assert(step_views(steps@) =~= move_steps(*plan, old_exists, new_exists));
    }
    steps.push(ensure_remote(new_path, "origin", origin_url));
    let stages = one_stage(plainly(steps));
    proof {
        assert(stage_views(stages@) =~~= move_stages(*plan, old_exists, new_exists, origin_url@));
    }
    stages
}

/// What is done at a place that is to become a link.
#[derive(Debug, Clone, Copy, PartialEq, Eq, Structural)]
pub enum LinkAction {
    /// A directory stays.
    Leave,
    /// What is there is removed first.
    Replace,
    Make,
}

/// What becomes of the place of a link.
pub open spec fn link_choice(exists: bool, is_link: bool, is_dir: bool) -> LinkAction {
    if !exists && !is_link {
        LinkAction::Make
    } else if is_dir && !is_link {
        LinkAction::Leave
    } else {
        LinkAction::Replace
    }
}

pub fn link_action(exists: bool, is_link: bool, is_dir: bool) -> (r: LinkAction)
    ensures
        r == link_choice(exists, is_link, is_dir),
{
    if !exists && !is_link {
        LinkAction::Make
    } else if is_dir && !is_link {
        LinkAction::Leave
    } else {
        LinkAction::Replace
    }
}

/// A repository that is to move, and the locators that it has had.
#[derive(Debug)]
pub struct MoveTarget {
    pub repo_id: i64,
    pub old_locator: Locator,
    pub historical: Vec<Locator>,
}

#[verifier::ext_equal]
pub struct TargetView {
    pub repo_id: i64,
    pub old_locator: LocatorView,
    pub historical: Seq<LocatorView>,
}

impl View for MoveTarget {
    type V = TargetView;

    open spec fn view(&self) -> TargetView {
        TargetView {
            repo_id: self.repo_id,
            old_locator: self.old_locator@,
            historical: locator_views(self.historical@),
        }
    }
}

/// The repository that a move of the locator is about, and the registry once it is
/// known.
pub open spec fn target_of(
    before: RegistryView,
    clone_root: Seq<char>,
    locator: LocatorView,
) -> (RegistryView, TargetView) {
    let i = first_answering(before, locator, 0);
    if 0 <= i < before.repos.len() {
        (
            before,
            TargetView {
                repo_id: before.repos[i].id,
                old_locator: before.repos[i].current,
                historical: locators_of(before.locators, before.repos[i].id),
            },
        )
    } else {
        (
            with_repo(before, locator, placed(clone_root, locator), None),
            TargetView {
                repo_id: repo_id_for(before.repos, locator.key()),
                old_locator: locator,
                historical: seq![locator],
            },
        )
    }
}

/// A reference to a repository that is to move: one that the registry knows, or
/// else a locator, which is then recorded at its place.
pub fn move_target(registry: &mut Registry, clone_root: &str, repo_ref: &str) -> (r: Result<
    MoveTarget,
    Error,
>)
    requires
        top_repo_id(old(registry)@.repos) < i64::MAX,
    ensures
        match parsed_locator(repo_ref@, parsed_url(trim_text(repo_ref@))) {
            Err(message) => r matches Err(e) && e@ == message && final(registry)@ == old(registry)@,
            Ok(locator) => r matches Ok(target) && (final(registry)@, target@) == target_of(
                old(registry)@,
                clone_root@,
                locator,
            ),
        },
{
    match registry.find_repo(repo_ref) {
        Err(error) => Err(error),
        Ok(Some(record)) => {
            let historical = registry.historical_locators(record.id);
            Ok(MoveTarget { repo_id: record.id, old_locator: record.current, historical })
        },
        Ok(None) => {
            let locator = match Locator::parse(repo_ref) {
                Ok(locator) => locator,
                Err(error) => {
                    return Err(error);
                },
            };
            let path = locator_path(clone_root, &locator);
            let repo_id = registry.upsert_repo(&locator, path.as_str(), None);
            let mut historical: Vec<Locator> = Vec::new();
            historical.push(locator.clone());
            proof {
                assert(locator_views(historical@) =~= seq![locator@]);
            }
            Ok(MoveTarget { repo_id, old_locator: locator, historical })
        },
    }
}

/// What is found of a repository that may have been renamed.
#[derive(Debug)]
pub struct ReconcileFacts {
    pub exists: bool,
    /// The URL of its origin.
    pub origin_url: Option<String>,
    /// What the forge calls it by now.
    pub forge: Option<Locator>,
    pub historical: Vec<Locator>,
}

/// What is done about it.
#[derive(Debug)]
pub enum ReconcileAction {
    /// It is called as it was.
    Keep,
    Skip { reason: String },
    Move { plan: MovePlan, origin_url: String, evidence: String },
}

/// The move of a repository to a locator.
pub open spec fn plans_move(
    plan: MovePlan,
    clone_root: Seq<char>,
    old_locator: LocatorView,
    new_locator: LocatorView,
    historical: Seq<LocatorView>,
) -> bool {
    &&& plan.old_locator@ == old_locator
    &&& plan.new_locator@ == new_locator
    &&& plan.old_path@ == placed(clone_root, old_locator)
    &&& plan.new_path@ == placed(clone_root, new_locator)
    &&& plan.flags == change_flags(old_locator, new_locator)
    &&& alias_views(plan.aliases@) == alias_paths(
        clone_root,
        historical.push(old_locator),
        placed(clone_root, new_locator),
    )
    &&& forall|i: int|
        0 <= i < plan.aliases@.len() ==> (#[trigger] plan.aliases@[i]).target_path@
            == plan.new_path@
}

/// What the locator of an origin's URL makes of a repository: one that it is called
/// by already stays, and any other is where it moves.
pub open spec fn origin_action(
    clone_root: Seq<char>,
    current: LocatorView,
    historical: Seq<LocatorView>,
    url: Seq<char>,
    parsed: Result<LocatorView, Seq<char>>,
    action: ReconcileAction,
) -> bool {
    match parsed {
        Err(message) => action matches ReconcileAction::Skip { reason } && reason@
            == "origin URL is not a supported Git locator: "@ + message,
        Ok(locator) => if locator == current {
            action is Keep
        } else {
            action matches ReconcileAction::Move { plan, origin_url, evidence } && plans_move(
                plan,
                clone_root,
                current,
                locator,
                historical,
            ) && origin_url@ == url && evidence@ == "origin-url:"@ + url
        },
    }
}

/// The forge is believed first, and the origin's URL next. `parsed` is the locator
/// of that URL.
pub open spec fn reconciles(
    clone_root: Seq<char>,
    repo: RecordView,
    facts: ReconcileFacts,
    parsed: Result<LocatorView, Seq<char>>,
    action: ReconcileAction,
) -> bool {
    let historical = locator_views(facts.historical@);
    if !facts.exists {
        action matches ReconcileAction::Skip { reason } && reason@
            == "current path does not exist"@
    } else if facts.forge is Some && facts.forge->0@ != repo.current {
        action matches ReconcileAction::Move { plan, origin_url, evidence } && plans_move(
            plan,
            clone_root,
            repo.current,
            facts.forge->0@,
            historical,
        ) && origin_url@ == remote_url(opt_view(facts.origin_url), facts.forge->0@) && evidence@
            == "github-api"@
    } else {
        match facts.origin_url {
            None => action matches ReconcileAction::Skip { reason } && reason@
                == "origin remote is not configured"@,
            Some(url) => origin_action(
                clone_root,
                repo.current,
                historical,
                url@,
                parsed,
                action,
            ),
        }
    }
}

fn borrow(o: &Option<String>) -> (r: Option<&str>)
    ensures
        str_view(r) == opt_view(*o),
{
    match o {
        Some(text) => Some(text.as_str()),
        None => None,
    }
}

/// What is done about a repository, for the locator of its origin's URL.
pub fn reconcile_with(
    clone_root: &str,
    repo: &ManagedRepoRecord,
    facts: &ReconcileFacts,
    parsed: Result<Locator, Error>,
) -> (r: ReconcileAction)
    ensures
        reconciles(clone_root@, repo@, *facts, outcome(parsed), r),
{
    if !facts.exists {
        return ReconcileAction::Skip { reason: "current path does not exist".to_owned() };
    }
    match &facts.forge {
        Some(locator) => if !locator.same(&repo.current) {
            let origin_url = remote_url_for_locator(borrow(&facts.origin_url), locator);
            let plan = plan_move(
                clone_root,
                repo.current.clone(),
                locator.clone(),
                facts.historical.as_slice(),
            );
            return ReconcileAction::Move { plan, origin_url, evidence: "github-api".to_owned() };
        },
        None => {},
    }
    let origin_url = match &facts.origin_url {
        Some(url) => url,
        None => {
            return ReconcileAction::Skip { reason: "origin remote is not configured".to_owned() };
        },
    };
    match parsed {
        Err(error) => {
            let mut reason = "origin URL is not a supported Git locator: ".to_owned();
            reason.append(error.message.as_str());
            ReconcileAction::Skip { reason }
        },
        Ok(locator) => {
            if locator.same(&repo.current) {
                return ReconcileAction::Keep;
            }
            let plan = plan_move(
                clone_root,
                repo.current.clone(),
                locator,
                facts.historical.as_slice(),
            );
            let mut evidence = "origin-url:".to_owned();
            evidence.append(origin_url.as_str());
            ReconcileAction::Move { plan, origin_url: origin_url.clone(), evidence }
        },
    }
}

/// What is done about a repository.
pub fn reconcile_repo(clone_root: &str, repo: &ManagedRepoRecord, facts: &ReconcileFacts) -> (r:
    ReconcileAction)
    ensures
        reconciles(
            clone_root@,
            repo@,
            *facts,
            match facts.origin_url {
                Some(url) => parsed_locator(url@, parsed_url(trim_text(url@))),
                None => Err(Seq::empty()),
            },
            r,
        ),
{
    let parsed = match &facts.origin_url {
        Some(url) => Locator::parse(url.as_str()),
        None => Err(Error::new(String::new())),
    };
    proof {
        if facts.origin_url is None {
            assert(outcome(parsed) == Err::<LocatorView, Seq<char>>(Seq::empty()));
        }
    }
    reconcile_with(clone_root, repo, facts, parsed)
}

/// A repository whose forge and whose origin call it by its own locator is not
/// touched.
pub proof fn reconciled_repositories_stay(
    clone_root: Seq<char>,
    repo: RecordView,
    facts: ReconcileFacts,
    action: ReconcileAction,
)
    requires
        facts.exists,
        facts.forge is Some ==> facts.forge->0@ == repo.current,
        facts.origin_url is Some,
        reconciles(clone_root, repo, facts, Ok(repo.current), action),
    ensures
        action is Keep,
{
}

} // verus!
