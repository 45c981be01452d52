//! Development worktrees: which repository they are of, where they stand, and how
//! they are made.
use crate::cli::WorktreeAddArgs;
use crate::config::Config;
use crate::error::{outcome, Error};
use crate::locator::{locator_path, parsed_locator, parsed_url, placed, Locator, LocatorView};
use crate::moves::{
    plan_worktree_add, validate_worktree_name, worktree_args, worktree_name_ok, WorktreeAddOptions,
    WorktreePlan,
};
use crate::naming::str_view;
use crate::paths::{absolute, is_absolute, join, join_path};
use crate::registry::{
    repo_id_for, top_repo_id, ManagedRepoRecord, RecordView, Registry, RegistryView, WorktreeView,
};
use crate::registry_relations::with_worktree;
use crate::share::{lemma_upserted, with_repo};
use crate::steps::{
    git, one_stage, one_step, plain_stage, plainly, stage_views, Stage, StageView, Step, StepView,
};
use crate::text::{
    after_prefix, clone_texts, debug_text, opt_view, owned, strip_prefix, trim, trim_text, views,
};
use crate::views::{view_worktree_refs, worktree_branch, RepoViewMetadata, RepoViewView};
use vstd::prelude::*;

verus! {

broadcast use {
    crate::text::lemma_views_push,
    crate::steps::lemma_step_views_push,
    crate::steps::lemma_stage_views_push,
};

/// Whether the repository of a worktree is the one that the working directory is
/// in.
#[derive(Debug, Clone, Copy, PartialEq, Eq, Structural)]
pub enum ContextUse {
    /// It is; there has to be one.
    Required,
    /// It is, if there is one.
    Preferred,
    /// The first argument names it.
    Unused,
}

/// Whether the repository of the directory counts.
pub open spec fn context_use(dir_given: bool, names_repository: bool) -> ContextUse {
    if dir_given {
        ContextUse::Required
    } else if names_repository {
        ContextUse::Unused
    } else {
        ContextUse::Preferred
    }
}

/// A directory that is given decides; otherwise a first argument that is a locator
/// does.
pub fn worktree_context(dir_given: bool, names_repository: bool) -> (r: ContextUse)
    ensures
        r == context_use(dir_given, names_repository),
{
    if dir_given {
        ContextUse::Required
    } else if names_repository {
        ContextUse::Unused
    } else {
        ContextUse::Preferred
    }
}

/// A worktree that is to be made.
#[derive(Debug)]
pub struct NewWorktree {
    pub plan: WorktreePlan,
    pub name: String,
    pub stages: Vec<Stage>,
}

#[verifier::ext_equal]
pub struct NewWorktreeView {
    pub locator: LocatorView,
    pub repository: Seq<char>,
    pub path: Seq<char>,
    pub git_args: Seq<Seq<char>>,
    pub name: Seq<char>,
    pub stages: Seq<StageView>,
}

impl View for NewWorktree {
    type V = NewWorktreeView;

    open spec fn view(&self) -> NewWorktreeView {
        NewWorktreeView {
            locator: self.plan.canonical_locator@,
            repository: self.plan.canonical_path@,
            path: self.plan.worktree_path@,
            git_args: views(self.plan.git_args@),
            name: self.name@,
            stages: stage_views(self.stages@),
        }
    }
}

/// What makes a worktree: the directory above it, Git's call, and a reset where one
/// is asked for. A reset without a start point fails after the worktree is made.
pub open spec fn worktree_stages(
    repository: Seq<char>,
    path: Seq<char>,
    args: Seq<Seq<char>>,
    reset: bool,
    start: Option<Seq<char>>,
) -> Seq<StageView> {
    let made = seq![
        StepView::MakeParent { path },
        StepView::Git { dir: repository, args },
    ];
    seq![
        plain_stage(
            if !reset {
                made
            } else {
                made.push(
                    match start {
                        Some(start) => StepView::Git {
                            dir: path,
                            args: seq!["reset"@, "--hard"@, start],
                        },
                        None => StepView::Refuse { message: "--reset requires a start point"@ },
                    },
                )
            },
        ),
    ]
}

fn make_worktree(plan: &WorktreePlan, reset: bool, start: Option<&str>) -> (r: Vec<Stage>)
    ensures
        stage_views(r@) == worktree_stages(
            plan.canonical_path@,
            plan.worktree_path@,
            views(plan.git_args@),
            reset,
            str_view(start),
        ),
{
    let mut steps = one_step(Step::MakeParent { path: plan.worktree_path.clone() });
    steps.push(
        Step::Git { dir: plan.canonical_path.clone(), args: clone_texts(&plan.git_args) },
    );
    if reset {
        match start {
            Some(start) => {
                steps.push(git(plan.worktree_path.as_str(), &["reset", "--hard", start]));
            },
            None => {
                steps.push(
                    Step::Refuse { message: "--reset requires a start point".to_owned() },
                );
            },
        }
    }
    let stages = one_stage(plainly(steps));
    proof {
        assert(stage_views(stages@) =~~= worktree_stages(
            plan.canonical_path@,
            plan.worktree_path@,
            views(plan.git_args@),
            reset,
            str_view(start),
        ));
    }
    stages
}

/// The arguments of Git's call, for texts.
pub open spec fn add_args(
    path: Seq<char>,
    force: bool,
    branch: Option<Seq<char>>,
    detach: bool,
    start: Option<Seq<char>>,
) -> Seq<Seq<char>> {
    seq!["worktree"@, "add"@] + (if force {
        seq!["--force"@]
    } else {
        Seq::empty()
    }) + (match branch {
        Some(branch) => seq!["-b"@, branch],
        None => Seq::empty(),
    }) + (if detach {
        seq!["--detach"@]
    } else {
        Seq::empty()
    }) + seq![path] + (match start {
        Some(start) => seq![start],
        None => Seq::empty(),
    })
}

fn borrow(o: &Option<String>) -> (r: Option<&str>)
    ensures
        str_view(r) == opt_view(*o),
{
    match o {
        Some(text) => Some(text.as_str()),
        None => None,
    }
}

/// A worktree with a name, of a repository at a place.
pub open spec fn named_worktree(
    worktree_root: Seq<char>,
    locator: LocatorView,
    repository: Seq<char>,
    name: Seq<char>,
    args: WorktreeAddArgs,
    start: Option<Seq<char>>,
) -> Result<NewWorktreeView, Seq<char>> {
    if worktree_name_ok(name) {
        let path = join_path(placed(worktree_root, locator), name);
        let git_args = add_args(path, args.force, opt_view(args.branch), args.detach, start);
        Ok(
            NewWorktreeView {
                locator,
                repository,
                path,
                git_args,
                name,
                stages: worktree_stages(repository, path, git_args, args.reset, start),
            },
        )
    } else {
        Err("invalid worktree name: "@ + debug_text(name))
    }
}

proof fn lemma_add_args(path: Seq<char>, options: WorktreeAddOptions)
    ensures
        worktree_args(path, options) == add_args(
            path,
            options.force,
            str_view(options.branch),
            options.detach,
            str_view(options.start_point),
        ),
{
    assert(worktree_args(path, options) =~= add_args(
        path,
        options.force,
        str_view(options.branch),
        options.detach,
        str_view(options.start_point),
    ));
}

/// A worktree of a repository that the first argument names; the second is then the
/// worktree's name.
pub open spec fn url_worktree(
    clone_root: Seq<char>,
    worktree_root: Seq<char>,
    args: WorktreeAddArgs,
) -> Result<NewWorktreeView, Seq<char>> {
    match args.name_or_start_point {
        None => Err("worktree name is required unless cwd or --dir selects a repository"@),
        Some(name) => match parsed_locator(
            args.repo_or_name@,
            parsed_url(trim_text(args.repo_or_name@)),
        ) {
            Err(message) => Err(message),
            Ok(locator) => named_worktree(
                worktree_root,
                locator,
                placed(clone_root, locator),
                name@,
                args,
                opt_view(args.start_point),
            ),
        },
    }
}

pub fn plan_url_worktree(config: &Config, args: &WorktreeAddArgs) -> (r: Result<NewWorktree, Error>)
    ensures
        outcome(r) == url_worktree(config@.clone_root, config@.dev_worktree_root, *args),
{
    let name = match &args.name_or_start_point {
        Some(name) => name,
        None => {
            return Err(
                Error::fixed("worktree name is required unless cwd or --dir selects a repository"),
            );
        },
    };
    let locator = match Locator::parse(args.repo_or_name.as_str()) {
        Ok(locator) => locator,
        Err(error) => {
            return Err(error);
        },
    };
    let options = WorktreeAddOptions {
        start_point: borrow(&args.start_point),
        branch: borrow(&args.branch),
        detach: args.detach,
        force: args.force,
    };
    let ghost path = join_path(placed(config@.dev_worktree_root, locator@), name@);
    proof {
        lemma_add_args(path, options);
    }
    match plan_worktree_add(
        config.clone_root.as_str(),
        config.dev_worktree_root.as_str(),
        locator,
        name.as_str(),
        options,
    ) {
        Ok(plan) => {
            let stages = make_worktree(&plan, args.reset, borrow(&args.start_point));
            Ok(NewWorktree { plan, name: name.clone(), stages })
        },
        Err(error) => Err(error),
    }
}

/// Where a repository is given by where one stands, the first argument is the
/// worktree's name, and the second its start point.
pub open spec fn context_start(args: WorktreeAddArgs) -> Option<Seq<char>> {
    match args.name_or_start_point {
        Some(start) => Some(start@),
        None => opt_view(args.start_point),
    }
}

pub fn start_in_context(args: &WorktreeAddArgs) -> (r: Option<String>)
    ensures
        opt_view(r) == context_start(*args),
{
    match &args.name_or_start_point {
        Some(start) => Some(start.clone()),
        None => match &args.start_point {
            Some(start) => Some(start.clone()),
            None => None,
        },
    }
}

/// A worktree of a repository that is given by where one stands.
pub open spec fn managed_worktree(
    worktree_root: Seq<char>,
    repo: RecordView,
    args: WorktreeAddArgs,
) -> Result<NewWorktreeView, Seq<char>> {
    named_worktree(
        worktree_root,
        repo.current,
        repo.path,
        args.repo_or_name@,
        args,
        context_start(args),
    )
}

/// A worktree of a managed repository.
pub fn plan_managed_worktree(config: &Config, repo: &ManagedRepoRecord, args: &WorktreeAddArgs) -> (r:
    Result<NewWorktree, Error>)
    ensures
        outcome(r) == managed_worktree(config@.dev_worktree_root, repo@, *args),
{
    let start = start_in_context(args);
    let name = args.repo_or_name.as_str();
    match validate_worktree_name(name) {
        Ok(()) => {},
        Err(error) => {
            return Err(error);
        },
    }
    let worktree_path = join(
        locator_path(config.dev_worktree_root.as_str(), &repo.current).as_str(),
        name,
    );
    let mut git_args = owned(&["worktree", "add"]);
    proof {
        assert(views(git_args@) =~= seq!["worktree"@, "add"@]);
    }
    if args.force {
        git_args.push("--force".to_owned());
    }
    match &args.branch {
        Some(branch) => {
            git_args.push("-b".to_owned());
            git_args.push(branch.clone());
        },
        None => {},
    }
    if args.detach {
        git_args.push("--detach".to_owned());
    }
    git_args.push(worktree_path.clone());
    match &start {
        Some(start) => {
            git_args.push(start.clone());
        },
        None => {},
    }
    proof {
        assert(views(git_args@) =~= add_args(
            worktree_path@,
            args.force,
            opt_view(args.branch),
            args.detach,
            opt_view(start),
        ));
    }
    let plan = WorktreePlan {
        canonical_locator: repo.current.clone(),
        canonical_path: repo.path.clone(),
        worktree_path,
        git_args,
    };
    let stages = make_worktree(&plan, args.reset, borrow(&start));
    Ok(NewWorktree { plan, name: name.to_owned(), stages })
}

/// A worktree of a view: it is checked out by its ref, and put on the branch that
/// the ref is of. `start_ref` is the ref that the start point means, and a branch
/// that is asked for is there already.
pub open spec fn view_worktree(
    worktree_root: Seq<char>,
    view: RepoViewView,
    args: WorktreeAddArgs,
    start_ref: Seq<char>,
) -> NewWorktreeView {
    let path = join_path(placed(worktree_root, view.locator), args.repo_or_name@);
    let branch = worktree_branch(view, opt_view(args.branch), context_start(args), start_ref);
    let checkout = match branch {
        Some(branch) => branch,
        None => start_ref,
    };
    NewWorktreeView {
        locator: view.locator,
        repository: view.canonical_path,
        path,
        git_args: seq!["worktree"@, "add"@, "--detach"@, checkout],
        name: args.repo_or_name@,
        stages: seq![
            plain_stage(
                seq![
                    StepView::MakeParent { path },
                    StepView::GitDir {
                        dir: view.canonical_path,
                        args: seq!["worktree"@, "add"@] + (if args.force {
                            seq!["--force"@]
                        } else {
                            Seq::empty()
                        }) + seq!["--detach"@, path, checkout],
                        failure: "git worktree add failed"@,
                    },
                ] + (match branch {
                    Some(branch) => seq![StepView::SetHead { worktree: path, refname: branch }],
                    None => Seq::empty(),
                }) + (if args.reset {
                    seq![
                        StepView::Git { dir: path, args: seq!["reset"@, "--hard"@, checkout] },
                    ]
                } else {
                    Seq::empty()
                }),
            ),
        ],
    }
}

pub fn plan_view_worktree(
    config: &Config,
    view: &RepoViewMetadata,
    args: &WorktreeAddArgs,
    start_ref: &str,
) -> (r: NewWorktree)
    ensures
        r@ == view_worktree(config@.dev_worktree_root, view@, *args, start_ref@),
{
    let start = start_in_context(args);
    let refs = view_worktree_refs(view, &args.branch, &start, start_ref);
    let worktree_path = join(
        locator_path(config.dev_worktree_root.as_str(), &view.locator).as_str(),
        args.repo_or_name.as_str(),
    );
    let checkout = refs.checkout_ref.as_str();
    let path = worktree_path.as_str();
    let call = if args.force {
        owned(&["worktree", "add", "--force", "--detach", path, checkout])
    } else {
        owned(&["worktree", "add", "--detach", path, checkout])
    };
    let mut steps = one_step(Step::MakeParent { path: worktree_path.clone() });
    steps.push(
        Step::GitDir {
            dir: view.canonical_path.clone(),
            args: call,
            failure: "git worktree add failed".to_owned(),
        },
    );
    match &refs.branch_ref {
        Some(branch) => {
            steps.push(
                Step::SetHead { worktree: worktree_path.clone(), refname: branch.clone() },
            );
        },
        None => {},
    }
    if args.reset {
        steps.push(git(path, &["reset", "--hard", checkout]));
    }
    let git_args = owned(&["worktree", "add", "--detach", checkout]);
    let stages = one_stage(plainly(steps));
    proof {
        let expected = view_worktree(config@.dev_worktree_root, view@, *args, start_ref@);
        assert(views(git_args@) =~= expected.git_args);
        assert(stage_views(stages@) =~~= expected.stages);
    }
    NewWorktree {
        plan: WorktreePlan {
            canonical_locator: view.locator.clone(),
            canonical_path: view.canonical_path.clone(),
            worktree_path,
            git_args,
        },
        name: args.repo_or_name.clone(),
        stages,
    }
}

/// Records a worktree that was made, and the repository that it is of.
pub fn record_new_worktree(
    registry: &mut Registry,
    locator: &Locator,
    path: &str,
    canonical_identity: Option<String>,
    worktree_path: &str,
    name: &str,
    refs_prefix: Option<String>,
) -> (r: Result<(), Error>)
    requires
        top_repo_id(old(registry)@.repos) < i64::MAX,
    ensures
        r is Ok,
        ({
            let added = with_repo(old(registry)@, locator@, path@, opt_view(canonical_identity));
            final(registry)@ == RegistryView {
                worktrees: with_worktree(
                    added.worktrees,
                    WorktreeView {
                        repo_id: repo_id_for(old(registry)@.repos, locator@.key()),
                        path: worktree_path@,
                        name: Some(name@),
                        refs_prefix: opt_view(refs_prefix),
                    },
                ),
                ..added
            }
        }),
{
    proof {
        lemma_upserted(registry@.repos, locator@, path@, opt_view(canonical_identity));
    }
    let id = registry.upsert_repo(locator, path, canonical_identity);
    registry.record_worktree(id, worktree_path, Some(name.to_owned()), refs_prefix)
}

/// The file that tells what a linked worktree stands on, for what its `.git` file
/// says.
pub open spec fn head_file(worktree: Seq<char>, git_file: Seq<char>) -> Result<
    Seq<char>,
    Seq<char>,
> {
    match after_prefix(trim_text(git_file), "gitdir: "@) {
        None => Err("worktree .git file is not a gitdir pointer"@),
        Some(dir) => Ok(
            join_path(
                if absolute(dir) {
                    dir
                } else {
                    join_path(worktree, dir)
                },
                "HEAD"@,
            ),
        ),
    }
}

pub fn worktree_head_file(worktree: &str, git_file: &str) -> (r: Result<String, Error>)
    ensures
        outcome(r) == head_file(worktree@, git_file@),
{
    match strip_prefix(trim(git_file).as_str(), "gitdir: ") {
        None => Err(Error::fixed("worktree .git file is not a gitdir pointer")),
        Some(dir) => {
            let dir = if is_absolute(dir.as_str()) {
                dir
            } else {
                join(worktree, dir.as_str())
            };
            Ok(join(dir.as_str(), "HEAD"))
        },
    }
}

/// What that file is to hold.
pub fn worktree_head(refname: &str) -> (r: String)
    ensures
        r@ == "ref: "@ + refname@ + "\n"@,
{
    let mut text = "ref: ".to_owned();
    text.append(refname);
    text.append("\n");
    text
}

} // verus!
