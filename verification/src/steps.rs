//! Plans of changes: steps that are taken one after the other, in stages that
//! say what is to be undone when one of their steps fails.
use crate::text::{opt_view, owned, str_views, views};
use crate::views::{RepoViewMetadata, RepoViewView};
use vstd::prelude::*;

verus! {

/// One change to the disk or to a repository.
#[derive(Debug)]
pub enum Step {
    /// Runs Git in a directory; the plan fails when Git does.
    Git { dir: String, args: Vec<String> },
    /// Runs Git in a directory; the plan fails with this text when Git does.
    GitOr { dir: String, args: Vec<String>, failure: String },
    /// Runs Git in a directory, whatever comes of it.
    TryGit { dir: String, args: Vec<String> },
    /// Runs Git on a Git directory; the plan fails with this text when Git does.
    GitDir { dir: String, args: Vec<String>, failure: String },
    /// Makes a directory and those above it.
    MakeDir { path: String },
    /// Makes the directory that a path lies in, and those above it.
    MakeParent { path: String },
    Rename { from: String, to: String, purpose: String },
    /// Renames what is at `from`, unless something is at `to`, whatever comes of
    /// it.
    RenameBack { from: String, to: String },
    RemoveTree { path: String },
    /// Gives a remote of the checkout its URL.
    EnsureRemote { dir: String, name: String, url: String },
    /// Renames `origin`, where there is one and no remote has the name yet.
    NameOrigin { dir: String, name: String },
    /// Finds the default branch of a remote; where that fails, the warning is given.
    FindHead { dir: String, remote: String, warning: String },
    /// Has a branch track a remote one.
    EnsureTracking { dir: String, local: String, remote: String },
    /// Checks a branch out, unless the checkout is on it.
    Checkout { dir: String, branch: String },
    /// Gives the checkout at `to` the files and the index of the one at `from`.
    CopyState { from: String, to: String },
    /// Puts the checkout on the default branch of its origin, as it is there; the
    /// given branch stands in for an unknown one.
    CheckoutDefault { dir: String, fallback: String },
    /// Has the repository at `path` be bare, turning a checkout into one.
    MakeBare { path: String },
    SetConfig { file: String, key: String, value: String },
    UnsetConfig { file: String, key: String },
    /// Writes the description of a view into its directory.
    WriteView { view: RepoViewMetadata },
    /// Gives a view its default branch, where the remote has one and the view
    /// does not.
    EnsureViewBranch { view: RepoViewMetadata },
    /// Has a linked worktree stand on a ref.
    SetHead { worktree: String, refname: String },
    /// Links `link` to `target`, replacing a link or file but no directory.
    Link { target: String, link: String },
    /// Fails with this text.
    Refuse { message: String },
}

#[verifier::ext_equal]
pub enum StepView {
    Git { dir: Seq<char>, args: Seq<Seq<char>> },
    GitOr { dir: Seq<char>, args: Seq<Seq<char>>, failure: Seq<char> },
    TryGit { dir: Seq<char>, args: Seq<Seq<char>> },
    GitDir { dir: Seq<char>, args: Seq<Seq<char>>, failure: Seq<char> },
    MakeDir { path: Seq<char> },
    MakeParent { path: Seq<char> },
    Rename { from: Seq<char>, to: Seq<char>, purpose: Seq<char> },
    RenameBack { from: Seq<char>, to: Seq<char> },
    RemoveTree { path: Seq<char> },
    EnsureRemote { dir: Seq<char>, name: Seq<char>, url: Seq<char> },
    NameOrigin { dir: Seq<char>, name: Seq<char> },
    FindHead { dir: Seq<char>, remote: Seq<char>, warning: Seq<char> },
    EnsureTracking { dir: Seq<char>, local: Seq<char>, remote: Seq<char> },
    Checkout { dir: Seq<char>, branch: Seq<char> },
    CopyState { from: Seq<char>, to: Seq<char> },
    CheckoutDefault { dir: Seq<char>, fallback: Seq<char> },
    MakeBare { path: Seq<char> },
    SetConfig { file: Seq<char>, key: Seq<char>, value: Seq<char> },
    UnsetConfig { file: Seq<char>, key: Seq<char> },
    WriteView { view: RepoViewView },
    EnsureViewBranch { view: RepoViewView },
    SetHead { worktree: Seq<char>, refname: Seq<char> },
    Link { target: Seq<char>, link: Seq<char> },
    Refuse { message: Seq<char> },
}

impl View for Step {
    type V = StepView;

    open spec fn view(&self) -> StepView {
        match self {
            Step::Git { dir, args } => StepView::Git { dir: dir@, args: views(args@) },
            Step::GitOr { dir, args, failure } => StepView::GitOr {
                dir: dir@,
                args: views(args@),
                failure: failure@,
            },
            Step::TryGit { dir, args } => StepView::TryGit { dir: dir@, args: views(args@) },
            Step::GitDir { dir, args, failure } => StepView::GitDir {
                dir: dir@,
                args: views(args@),
                failure: failure@,
            },
            Step::MakeDir { path } => StepView::MakeDir { path: path@ },
            Step::MakeParent { path } => StepView::MakeParent { path: path@ },
            Step::Rename { from, to, purpose } => StepView::Rename {
                from: from@,
                to: to@,
                purpose: purpose@,
            },
            Step::RenameBack { from, to } => StepView::RenameBack { from: from@, to: to@ },
            Step::RemoveTree { path } => StepView::RemoveTree { path: path@ },
            Step::EnsureRemote { dir, name, url } => StepView::EnsureRemote {
                dir: dir@,
                name: name@,
                url: url@,
            },
            Step::NameOrigin { dir, name } => StepView::NameOrigin { dir: dir@, name: name@ },
            Step::FindHead { dir, remote, warning } => StepView::FindHead {
                dir: dir@,
                remote: remote@,
                warning: warning@,
            },
            Step::EnsureTracking { dir, local, remote } => StepView::EnsureTracking {
                dir: dir@,
                local: local@,
                remote: remote@,
            },
            Step::Checkout { dir, branch } => StepView::Checkout { dir: dir@, branch: branch@ },
            Step::CopyState { from, to } => StepView::CopyState { from: from@, to: to@ },
            Step::CheckoutDefault { dir, fallback } => StepView::CheckoutDefault {
                dir: dir@,
                fallback: fallback@,
            },
            Step::MakeBare { path } => StepView::MakeBare { path: path@ },
            Step::SetConfig { file, key, value } => StepView::SetConfig {
                file: file@,
                key: key@,
                value: value@,
            },
            Step::UnsetConfig { file, key } => StepView::UnsetConfig { file: file@, key: key@ },
            Step::WriteView { view } => StepView::WriteView { view: view@ },
            Step::EnsureViewBranch { view } => StepView::EnsureViewBranch { view: view@ },
            Step::SetHead { worktree, refname } => StepView::SetHead {
                worktree: worktree@,
                refname: refname@,
            },
            Step::Link { target, link } => StepView::Link { target: target@, link: link@ },
            Step::Refuse { message } => StepView::Refuse { message: message@ },
        }
    }
}

pub open spec fn step_views(v: Seq<Step>) -> Seq<StepView> {
    v.map_values(|step: Step| step@)
}

/// Steps that are taken together. When one fails, those of `undo` are taken, and
/// the plan fails: with the text of the failure, or with `context` in its place.
#[derive(Debug)]
pub struct Stage {
    pub steps: Vec<Step>,
    pub undo: Vec<Step>,
    pub context: Option<String>,
}

#[verifier::ext_equal]
pub struct StageView {
    pub steps: Seq<StepView>,
    pub undo: Seq<StepView>,
    pub context: Option<Seq<char>>,
}

impl View for Stage {
    type V = StageView;

    open spec fn view(&self) -> StageView {
        StageView {
            steps: step_views(self.steps@),
            undo: step_views(self.undo@),
            context: opt_view(self.context),
        }
    }
}

pub open spec fn stage_views(v: Seq<Stage>) -> Seq<StageView> {
    v.map_values(|stage: Stage| stage@)
}

/// A stage that undoes nothing.
pub open spec fn plain_stage(steps: Seq<StepView>) -> StageView {
    StageView { steps, undo: Seq::empty(), context: None }
}

pub broadcast proof fn lemma_step_views_push(v: Seq<Step>, x: Step)
    ensures
        #[trigger] step_views(v.push(x)) == step_views(v).push(x@),
{
    assert(step_views(v.push(x)) =~= step_views(v).push(x@));
}

pub broadcast proof fn lemma_stage_views_push(v: Seq<Stage>, x: Stage)
    ensures
        #[trigger] stage_views(v.push(x)) == stage_views(v).push(x@),
{
    assert(stage_views(v.push(x)) =~= stage_views(v).push(x@));
}

pub fn no_steps() -> (r: Vec<Step>)
    ensures
        step_views(r@) == Seq::<StepView>::empty(),
{
    let r: Vec<Step> = Vec::new();
    proof {
        assert(step_views(r@) =~= Seq::<StepView>::empty());
    }
    r
}

pub fn no_stages() -> (r: Vec<Stage>)
    ensures
        stage_views(r@) == Seq::<StageView>::empty(),
{
    let r: Vec<Stage> = Vec::new();
    proof {
        assert(stage_views(r@) =~= Seq::<StageView>::empty());
    }
    r
}

pub fn one_step(step: Step) -> (r: Vec<Step>)
    ensures
        step_views(r@) == seq![step@],
{
    let ghost s = step@;
    let mut r: Vec<Step> = Vec::new();
    r.push(step);
    proof {
        assert(step_views(r@) =~= seq![s]);
    }
    r
}

pub fn plainly(steps: Vec<Step>) -> (r: Stage)
    ensures
        r@ == plain_stage(step_views(steps@)),
{
    Stage { steps, undo: no_steps(), context: None }
}

pub fn one_stage(stage: Stage) -> (r: Vec<Stage>)
    ensures
        stage_views(r@) == seq![stage@],
{
    let ghost s = stage@;
    let mut r: Vec<Stage> = Vec::new();
    r.push(stage);
    proof {
        assert(stage_views(r@) =~= seq![s]);
    }
    r
}

/// Appends the stages of another plan.
pub fn add_stages(plan: &mut Vec<Stage>, more: Vec<Stage>)
    ensures
        stage_views(final(plan)@) == stage_views(old(plan)@) + stage_views(more@),
{
    let mut more = more;
    let ghost before = plan@;
    let ghost added = more@;
    plan.append(&mut more);
    proof {
        assert(stage_views(plan@) =~= stage_views(before) + stage_views(added));
    }
}

pub fn git(dir: &str, args: &[&str]) -> (r: Step)
    ensures
        r@ == (StepView::Git { dir: dir@, args: str_views(args@) }),
{
    Step::Git { dir: dir.to_owned(), args: owned(args) }
}

pub fn try_git(dir: &str, args: &[&str]) -> (r: Step)
    ensures
        r@ == (StepView::TryGit { dir: dir@, args: str_views(args@) }),
{
    Step::TryGit { dir: dir.to_owned(), args: owned(args) }
}

pub fn rename(from: &str, to: &str, purpose: String) -> (r: Step)
    ensures
        r@ == (StepView::Rename { from: from@, to: to@, purpose: purpose@ }),
{
    Step::Rename { from: from.to_owned(), to: to.to_owned(), purpose }
}

/// The purpose of a move, as it is told when the move fails.
pub open spec fn moving(what: Seq<char>, from: Seq<char>, to: Seq<char>) -> Seq<char> {
    what + from + " to "@ + to
}

pub fn moving_text(what: &str, from: &str, to: &str) -> (r: String)
    ensures
        r@ == moving(what@, from@, to@),
{
    let mut text = what.to_owned();
    text.append(from);
    text.append(" to ");
    text.append(to);
    text
}

pub fn rename_back(from: &str, to: &str) -> (r: Step)
    ensures
        r@ == (StepView::RenameBack { from: from@, to: to@ }),
{
    Step::RenameBack { from: from.to_owned(), to: to.to_owned() }
}

pub fn ensure_remote(dir: &str, name: &str, url: &str) -> (r: Step)
    ensures
        r@ == (StepView::EnsureRemote { dir: dir@, name: name@, url: url@ }),
{
    Step::EnsureRemote { dir: dir.to_owned(), name: name.to_owned(), url: url.to_owned() }
}

pub fn ensure_tracking(dir: &str, local: &str, remote: &str) -> (r: Step)
    ensures
        r@ == (StepView::EnsureTracking { dir: dir@, local: local@, remote: remote@ }),
{
    Step::EnsureTracking { dir: dir.to_owned(), local: local.to_owned(), remote: remote.to_owned() }
}

/// What a step moves, if it moves something.
pub open spec fn move_of(step: StepView) -> Option<(Seq<char>, Seq<char>)> {
    match step {
        StepView::Rename { from, to, .. } => Some((from, to)),
        StepView::RenameBack { from, to } => Some((from, to)),
        _ => None,
    }
}

/// What steps move, in order.
pub open spec fn moves_of(steps: Seq<StepView>) -> Seq<(Seq<char>, Seq<char>)>
    decreases steps.len(),
{
    if steps.len() == 0 {
        Seq::empty()
    } else {
        let before = moves_of(steps.drop_last());
        match move_of(steps.last()) {
            Some(pair) => before.push(pair),
            None => before,
        }
    }
}

/// What all stages before the given one move.
pub open spec fn moves_before(plan: Seq<StageView>, k: nat) -> Seq<(Seq<char>, Seq<char>)>
    decreases k,
{
    if k == 0 || k > plan.len() {
        Seq::empty()
    } else {
        moves_before(plan, (k - 1) as nat) + moves_of(plan[k - 1].steps)
    }
}

/// Moves in the opposite order, each the other way round.
pub open spec fn reversed(moves: Seq<(Seq<char>, Seq<char>)>) -> Seq<(Seq<char>, Seq<char>)> {
    Seq::new(
        moves.len(),
        |i: int| (moves[moves.len() - 1 - i].1, moves[moves.len() - 1 - i].0),
    )
}

/// A plan that can be taken back: a stage that fails undoes all that earlier
/// stages have moved, from the last move to the first. The stages that fail
/// before they have changed anything, and the last one, which only removes what
/// was replaced, are those from `start` on and from `end` on.
pub open spec fn taken_back(plan: Seq<StageView>, start: int, end: int) -> bool {
    forall|k: int|
        start <= k < end ==> moves_of(#[trigger] plan[k].undo) == reversed(
            moves_before(plan, k as nat),
        )
}

} // verus!
