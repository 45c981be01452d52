//! What every plan of a development worktree does.
use crate::cli::WorktreeAddArgs;
use crate::locator::{parsed_locator, parsed_url, placed, LocatorView};
use crate::moves::{worktree_args, WorktreeAddOptions};
use crate::paths::join_path;
use crate::registry::RecordView;
use crate::steps::StepView;
use crate::text::{opt_view, trim_text};
use crate::views::{start_candidates, start_ref, RepoViewView};
use crate::worktrees::{
    context_start, head_file, managed_worktree, named_worktree, url_worktree, view_worktree,
};
use vstd::prelude::*;

verus! {

/// A name that can stand for one directory.
pub open spec fn directory_name(name: Seq<char>) -> bool {
    name.len() > 0 && !name.contains('/') && name != "."@ && name != ".."@
}

/// The call of Git that makes a worktree: it names the path, then the start point if
/// there is one, and before them what was asked for and nothing else.
pub open spec fn adds_worktree(
    call: Seq<Seq<char>>,
    path: Seq<char>,
    args: WorktreeAddArgs,
    start: Option<Seq<char>>,
) -> bool {
    let tail = match start {
        Some(start) => seq![path, start],
        None => seq![path],
    };
    let options = call.subrange(2, call.len() - tail.len());
    let count: int = (if args.force {
        1int
    } else {
        0
    }) + (if args.branch is Some {
        2int
    } else {
        0
    }) + (if args.detach {
        1int
    } else {
        0
    });
    &&& call.len() == 2 + count + tail.len()
    &&& call[0] == "worktree"@
    &&& call[1] == "add"@
    &&& call.subrange(call.len() - tail.len(), call.len() as int) == tail
    &&& args.force ==> options[0] == "--force"@
    &&& args.detach ==> options[count - 1] == "--detach"@
    &&& args.branch matches Some(branch) ==> options[if args.force {
        1int
    } else {
        0
    }] == "-b"@ && options[if args.force {
        2int
    } else {
        1
    }] == branch@
}

/// A worktree stands under its name at its repository's place below the root of
/// worktrees. It is made by the directory above it and one call of Git in the
/// repository; that is all where no reset is asked for. A reset then puts the worktree
/// on the start point, and without one it is refused.
pub proof fn worktrees_stand_below_their_root(
    worktree_root: Seq<char>,
    locator: LocatorView,
    repository: Seq<char>,
    name: Seq<char>,
    args: WorktreeAddArgs,
    start: Option<Seq<char>>,
)
    ensures
        ({
            let told = named_worktree(worktree_root, locator, repository, name, args, start);
            &&& told is Ok <==> directory_name(name)
            &&& told matches Ok(new) ==> {
                let path = join_path(placed(worktree_root, locator), name);
                let made = StepView::Git { dir: repository, args: new.git_args };
                let steps = new.stages[0].steps;
                &&& new.locator == locator
                &&& new.repository == repository
                &&& new.name == name
                &&& new.path == path
                &&& adds_worktree(new.git_args, path, args, start)
                &&& new.stages.len() == 1
                &&& steps[0] == (StepView::MakeParent { path })
                &&& steps[1] == made
                &&& !args.reset ==> steps.len() == 2
                &&& args.reset ==> steps.len() == 3 && steps[2] == (match start {
                    Some(start) => StepView::Git {
                        dir: path,
                        args: seq!["reset"@, "--hard"@, start],
                    },
                    None => StepView::Refuse { message: "--reset requires a start point"@ },
                })
            }
        }),
{
    let told = named_worktree(worktree_root, locator, repository, name, args, start);
    if let Ok(new) = told {
        let call = new.git_args;
        let tail = match start {
            Some(start) => seq![new.path, start],
            None => seq![new.path],
        };
        assert(call.subrange(call.len() - tail.len(), call.len() as int) =~= tail);
    }
}

/// Whichever way the call of Git is put together, it is the same.
pub proof fn planned_calls_add_the_worktree(
    path: Seq<char>,
    args: WorktreeAddArgs,
    options: WorktreeAddOptions,
)
    requires
        options.force == args.force,
        options.detach == args.detach,
        match options.branch {
            Some(branch) => args.branch is Some && branch@ == args.branch->0@,
            None => args.branch is None,
        },
    ensures
        adds_worktree(
            worktree_args(path, options),
            path,
            args,
            match options.start_point {
                Some(start) => Some(start@),
                None => None,
            },
        ),
{
    let call = worktree_args(path, options);
    let tail = match options.start_point {
        Some(start) => seq![path, start@],
        None => seq![path],
    };
    assert(call.subrange(call.len() - tail.len(), call.len() as int) =~= tail);
}

/// A worktree of a repository that is named by its URL is made in that repository's
/// own place, under the name that comes next; the third argument is where it starts.
pub proof fn named_repositories_get_the_worktree(
    clone_root: Seq<char>,
    worktree_root: Seq<char>,
    args: WorktreeAddArgs,
)
    ensures
        ({
            let told = url_worktree(clone_root, worktree_root, args);
            let parsed = parsed_locator(
                args.repo_or_name@,
                parsed_url(trim_text(args.repo_or_name@)),
            );
            &&& told is Ok <==> args.name_or_start_point is Some && parsed is Ok && directory_name(
                args.name_or_start_point->0@,
            )
            &&& told matches Ok(new) ==> {
                let locator = parsed->Ok_0;
                let name = args.name_or_start_point->0@;
                let path = join_path(placed(worktree_root, locator), name);
                &&& new.locator == locator
                &&& new.repository == placed(clone_root, locator)
                &&& new.name == name
                &&& new.path == path
                &&& adds_worktree(new.git_args, path, args, opt_view(args.start_point))
                &&& new.stages[0].steps.len() == if args.reset {
                    3int
                } else {
                    2
                }
                &&& new.stages[0].steps[1] == (StepView::Git {
                    dir: placed(clone_root, locator),
                    args: new.git_args,
                })
                &&& args.reset && args.start_point is Some ==> new.stages[0].steps[2] == (
                StepView::Git {
                    dir: path,
                    args: seq!["reset"@, "--hard"@, args.start_point->0@],
                })
            }
        }),
{
    let parsed = parsed_locator(args.repo_or_name@, parsed_url(trim_text(args.repo_or_name@)));
    if args.name_or_start_point is Some && parsed is Ok {
        worktrees_stand_below_their_root(
            worktree_root,
            parsed->Ok_0,
            placed(clone_root, parsed->Ok_0),
            args.name_or_start_point->0@,
            args,
            opt_view(args.start_point),
        );
    }
}

/// A worktree of a repository that one stands in goes by the first argument as its
/// name, is made in that repository, and starts at the second argument, or at the
/// third where there is no second. Without a reset it is made by two steps and no
/// more; with one it ends on the start point.
pub proof fn repositories_get_the_worktree_where_one_stands(
    worktree_root: Seq<char>,
    repo: RecordView,
    args: WorktreeAddArgs,
)
    ensures
        ({
            let told = managed_worktree(worktree_root, repo, args);
            let name = args.repo_or_name@;
            let start = if args.name_or_start_point is Some {
                Some(args.name_or_start_point->0@)
            } else if args.start_point is Some {
                Some(args.start_point->0@)
            } else {
                None
            };
            &&& told is Ok <==> directory_name(name)
            &&& told matches Ok(new) ==> {
                let path = join_path(placed(worktree_root, repo.current), name);
                let made = seq![
                    StepView::MakeParent { path },
                    StepView::Git { dir: repo.path, args: new.git_args },
                ];
                &&& new.locator == repo.current
                &&& new.repository == repo.path
                &&& new.name == name
                &&& new.path == path
                &&& adds_worktree(new.git_args, path, args, start)
                &&& new.stages.len() == 1
                &&& !args.reset ==> new.stages[0].steps == made
                &&& args.reset && start is Some ==> new.stages[0].steps == made.push(
                    StepView::Git { dir: path, args: seq!["reset"@, "--hard"@, start->0] },
                )
                &&& args.reset && start is None ==> new.stages[0].steps == made.push(
                    StepView::Refuse { message: "--reset requires a start point"@ },
                )
            }
        }),
{
    let start = context_start(args);
    worktrees_stand_below_their_root(
        worktree_root,
        repo.current,
        repo.path,
        args.repo_or_name@,
        args,
        start,
    );
    if let Ok(new) = managed_worktree(worktree_root, repo, args) {
        let made = seq![
            StepView::MakeParent { path: new.path },
            StepView::Git { dir: repo.path, args: new.git_args },
        ];
        if args.reset {
            assert(new.stages[0].steps =~= made.push(new.stages[0].steps[2]));
        } else {
            assert(new.stages[0].steps =~= made);
        }
    }
}

/// Within a repository the second argument is where a worktree starts, and the third
/// only where there is no second.
pub proof fn second_arguments_are_start_points(args: WorktreeAddArgs)
    ensures
        args.name_or_start_point matches Some(start) ==> context_start(args) == Some(start@),
        args.name_or_start_point is None ==> context_start(args) == opt_view(args.start_point),
{
}

/// A worktree of a view is made in the canonical repository. It stands on the branch
/// that is asked for, or on the view's default branch where nothing is said of where it
/// starts, or on the start point where that is one of the view's branches, and on no
/// branch otherwise. What it stands on is what is checked out, and what a reset, where
/// one is asked for, puts it on.
pub proof fn view_worktrees_stand_on_branches_of_the_view(
    worktree_root: Seq<char>,
    view: RepoViewView,
    args: WorktreeAddArgs,
    start: Seq<char>,
)
    ensures
        ({
            let new = view_worktree(worktree_root, view, args, start);
            let path = join_path(placed(worktree_root, view.locator), args.repo_or_name@);
            let heads = view.refs_prefix + "/heads/"@;
            let steps = new.stages[0].steps;
            let branch = if args.branch is Some {
                Some(heads + args.branch->0@)
            } else if args.name_or_start_point is None && args.start_point is None {
                Some(heads + view.default_branch)
            } else if heads.is_prefix_of(start) {
                Some(start)
            } else {
                None
            };
            let on = match branch {
                Some(branch) => branch,
                None => start,
            };
            let added = StepView::GitDir {
                dir: view.canonical_path,
                args: if args.force {
                    seq!["worktree"@, "add"@, "--force"@, "--detach"@, path, on]
                } else {
                    seq!["worktree"@, "add"@, "--detach"@, path, on]
                },
                failure: "git worktree add failed"@,
            };
            let reset = StepView::Git { dir: path, args: seq!["reset"@, "--hard"@, on] };
            &&& new.locator == view.locator
            &&& new.repository == view.canonical_path
            &&& new.path == path
            &&& new.name == args.repo_or_name@
            &&& new.stages.len() == 1
            &&& steps[0] == (StepView::MakeParent { path })
            &&& steps[1] == added
            &&& branch matches Some(branch) ==> steps[2] == (StepView::SetHead {
                worktree: path,
                refname: branch,
            })
            &&& steps.len() == 2 + (if branch is Some {
                1int
            } else {
                0
            }) + (if args.reset {
                1int
            } else {
                0
            })
            &&& args.reset ==> steps.last() == reset
        }),
{
    let new = view_worktree(worktree_root, view, args, start);
    let heads = view.refs_prefix + "/heads/"@;
    let steps = new.stages[0].steps;
    let path = join_path(placed(worktree_root, view.locator), args.repo_or_name@);
    assert(view.branch_ref(view.default_branch) == heads + view.default_branch);
    if args.branch is Some {
        assert(view.branch_ref(args.branch->0@) == heads + args.branch->0@);
    }
    assert(heads.is_prefix_of(start) == crate::text::starts_with(start, heads));
    assert(steps[1] is GitDir);
    assert(steps[1]->GitDir_args =~= if args.force {
        seq!["worktree"@, "add"@, "--force"@, "--detach"@, path, steps[1]->GitDir_args.last()]
    } else {
        seq!["worktree"@, "add"@, "--detach"@, path, steps[1]->GitDir_args.last()]
    });
}

/// A start point in a view means the view's own branch of that name where there is
/// one, then the branch of that name at its origin, with or without `origin/` before
/// it, then whatever else Git knows by it. Without a start point it is the default
/// branch, the view's own before the origin's.
pub proof fn start_points_mean_branches_of_the_view_first(
    view: RepoViewView,
    branch: Seq<char>,
    known: Seq<bool>,
)
    requires
        known.len() >= 3,
    ensures
        ({
            let own = view.refs_prefix + "/heads/"@;
            let remote = view.refs_prefix + "/remotes/origin/"@;
            let origin = "origin/"@ + branch;
            &&& known[0] ==> start_ref(view, Some(branch), known) == Ok::<Seq<char>, Seq<char>>(
                own + branch,
            )
            &&& !known[0] && known[1] ==> start_ref(view, Some(origin), known) == Ok::<
                Seq<char>,
                Seq<char>,
            >(remote + branch)
            &&& !known[0] && known[1] && !"origin/"@.is_prefix_of(branch) ==> start_ref(
                view,
                Some(branch),
                known,
            ) == Ok::<Seq<char>, Seq<char>>(remote + branch)
            &&& !known[0] && !known[1] && known[2] ==> start_ref(view, Some(branch), known) == Ok::<
                Seq<char>,
                Seq<char>,
            >(branch)
            &&& !known[0] && !known[1] && !known[2] ==> start_ref(
                view,
                Some(branch),
                known,
            ) is Err
            &&& known[0] ==> start_ref(view, None, known) == Ok::<Seq<char>, Seq<char>>(
                own + view.default_branch,
            )
            &&& !known[0] && known[1] ==> start_ref(view, None, known) == Ok::<
                Seq<char>,
                Seq<char>,
            >(remote + view.default_branch)
            &&& !known[0] && !known[1] ==> start_ref(view, None, known) is Err
        }),
{
    let origin = "origin/"@ + branch;
    reveal_with_fuel(crate::views::first_known, 4);
    let n = "origin/"@.len() as int;
    assert(origin.subrange(0, n) =~= "origin/"@);
    assert(origin.subrange(n, origin.len() as int) =~= branch);
    assert(crate::text::starts_with(branch, "origin/"@) == "origin/"@.is_prefix_of(branch));
    assert(start_candidates(view, Some(branch)).len() == 3);
    assert(start_candidates(view, Some(origin)).len() == 3);
    assert(start_candidates(view, None).len() == 2);
}

/// The file that tells what a worktree stands on is `HEAD` in the directory that its
/// `.git` file names, which is taken from the worktree where it is relative.
pub proof fn worktree_heads_are_found(worktree: Seq<char>, dir: Seq<char>)
    requires
        trim_text("gitdir: "@ + dir) == "gitdir: "@ + dir,
    ensures
        head_file(worktree, "gitdir: "@ + dir) == Ok::<Seq<char>, Seq<char>>(
            join_path(
                if dir.len() > 0 && dir[0] == '/' {
                    dir
                } else {
                    join_path(worktree, dir)
                },
                "HEAD"@,
            ),
        ),
{
    let text = "gitdir: "@ + dir;
    let n = "gitdir: "@.len() as int;
    assert(text.subrange(0, n) =~= "gitdir: "@);
    assert(text.subrange(n, text.len() as int) =~= dir);
}

} // verus!
