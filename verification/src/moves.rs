//! Plans: where a repository moves to and which old paths keep pointing at it,
//! and how a development worktree is added.
use crate::error::Error;
use crate::locator::{locator_path, placed, Locator, LocatorView};
use crate::paths::{join, join_path, path_eq, same_path};
use crate::text::{
    contains_char, debug_of, debug_text, rsplit_once, split_last, views,
};
use vstd::prelude::*;

verus! {

#[derive(Debug, Clone, Copy, PartialEq, Eq, Structural)]
pub struct ChangeFlags {
    pub authority_changed: bool,
    pub remote_path_changed: bool,
    pub path_prefix_changed: bool,
    pub leaf_name_changed: bool,
}

#[derive(Debug, PartialEq, Eq)]
pub struct AliasPlan {
    pub alias_path: String,
    pub target_path: String,
}

#[derive(Debug, PartialEq, Eq)]
pub struct MovePlan {
    pub old_locator: Locator,
    pub new_locator: Locator,
    pub old_path: String,
    pub new_path: String,
    pub flags: ChangeFlags,
    pub aliases: Vec<AliasPlan>,
}

#[derive(Debug, PartialEq, Eq)]
pub struct WorktreePlan {
    pub canonical_locator: Locator,
    pub canonical_path: String,
    pub worktree_path: String,
    pub git_args: Vec<String>,
}

#[derive(Debug, Clone, Copy)]
pub struct WorktreeAddOptions<'a> {
    pub start_point: Option<&'a str>,
    pub branch: Option<&'a str>,
    pub detach: bool,
    pub force: bool,
}

impl<'a> Default for WorktreeAddOptions<'a> {
    fn default() -> (r: Self)
        ensures
            r == (WorktreeAddOptions { start_point: None, branch: None, detach: false, force: false }),
    {
        WorktreeAddOptions { start_point: None, branch: None, detach: false, force: false }
    }
}

/// What stands before the last slash of a remote path.
pub open spec fn prefix_of(remote_path: Seq<char>) -> Seq<char> {
    match split_last(remote_path, '/') {
        Some((prefix, _)) => prefix,
        None => seq![],
    }
}

/// What stands behind the last slash of a remote path.
pub open spec fn leaf_of(remote_path: Seq<char>) -> Seq<char> {
    match split_last(remote_path, '/') {
        Some((_, leaf)) => leaf,
        None => remote_path,
    }
}

pub fn path_prefix(remote_path: &str) -> (r: String)
    ensures
        r@ == prefix_of(remote_path@),
{
    match rsplit_once(remote_path, '/') {
        Some((prefix, _)) => prefix,
        None => String::new(),
    }
}

pub fn path_leaf(remote_path: &str) -> (r: String)
    ensures
        r@ == leaf_of(remote_path@),
{
    match rsplit_once(remote_path, '/') {
        Some((_, leaf)) => leaf,
        None => remote_path.to_owned(),
    }
}

pub open spec fn locator_views(v: Seq<Locator>) -> Seq<LocatorView> {
    v.map_values(|l: Locator| l@)
}

/// Whether one of `paths` is the path `p`.
pub open spec fn has_path(paths: Seq<Seq<char>>, p: Seq<char>) -> bool {
    exists|i: int| 0 <= i < paths.len() && path_eq(#[trigger] paths[i], p)
}

/// The places of `locators` under `root`, each once, in the order in which they
/// first come, without `target`.
pub open spec fn alias_paths(
    root: Seq<char>,
    locators: Seq<LocatorView>,
    target: Seq<char>,
) -> Seq<Seq<char>>
    decreases locators.len(),
{
    if locators.len() == 0 {
        seq![]
    } else {
        let before = alias_paths(root, locators.drop_last(), target);
        let path = placed(root, locators.last());
        if path_eq(path, target) || has_path(before, path) {
            before
        } else {
            before.push(path)
        }
    }
}

pub open spec fn alias_views(aliases: Seq<AliasPlan>) -> Seq<Seq<char>> {
    aliases.map_values(|a: AliasPlan| a.alias_path@)
}

/// Adds the place of one more old locator to the aliases of a move.
fn push_alias(aliases: &mut Vec<AliasPlan>, path: String, target: &str)
    requires
        forall|i: int| 0 <= i < old(aliases)@.len() ==> old(aliases)@[i].target_path@ == target@,
    ensures
        alias_views(final(aliases)@) == (if path_eq(path@, target@) || has_path(
            alias_views(old(aliases)@),
            path@,
        ) {
            alias_views(old(aliases)@)
        } else {
            alias_views(old(aliases)@).push(path@)
        }),
        forall|i: int| 0 <= i < final(aliases)@.len() ==> final(aliases)@[i].target_path@ == target@,
{
    if same_path(&path, target) {
        return ;
    }
    let mut i: usize = 0;
    while i < aliases.len()
        invariant
            i <= aliases@.len(),
            aliases@ == old(aliases)@,
            forall|j: int| 0 <= j < i ==> !path_eq(#[trigger] alias_views(aliases@)[j], path@),
            forall|j: int| 0 <= j < aliases@.len() ==> aliases@[j].target_path@ == target@,
        decreases aliases@.len() - i,
    {
        proof {
            assert(alias_views(aliases@)[i as int] == aliases@[i as int].alias_path@);
        }
        if same_path(&aliases[i].alias_path, &path) {
            return ;
        }
        i += 1;
    }
    let ghost p = path@;
    aliases.push(AliasPlan { alias_path: path, target_path: target.to_owned() });
    proof {
        assert(alias_views(aliases@) =~= alias_views(old(aliases)@).push(p));
    }
}

pub open spec fn change_flags(old_locator: LocatorView, new_locator: LocatorView) -> ChangeFlags {
    ChangeFlags {
        authority_changed: old_locator.authority != new_locator.authority,
        remote_path_changed: old_locator.remote_path != new_locator.remote_path,
        path_prefix_changed: prefix_of(old_locator.remote_path) != prefix_of(
            new_locator.remote_path,
        ),
        leaf_name_changed: leaf_of(old_locator.remote_path) != leaf_of(new_locator.remote_path),
    }
}

pub fn plan_move(
    clone_root: &str,
    old_locator: Locator,
    new_locator: Locator,
    historical_locators: &[Locator],
) -> (r: MovePlan)
    ensures
        r.old_locator@ == old_locator@,
        r.new_locator@ == new_locator@,
        r.old_path@ == placed(clone_root@, old_locator@),
        r.new_path@ == placed(clone_root@, new_locator@),
        r.flags == change_flags(old_locator@, new_locator@),
        alias_views(r.aliases@) == alias_paths(
            clone_root@,
            locator_views(historical_locators@).push(old_locator@),
            placed(clone_root@, new_locator@),
        ),
        forall|i: int|
            0 <= i < r.aliases@.len() ==> (#[trigger] r.aliases@[i]).target_path@ == r.new_path@,
{
    let old_path = locator_path(clone_root, &old_locator);
    let new_path = locator_path(clone_root, &new_locator);
    let flags = ChangeFlags {
        authority_changed: old_locator.authority != new_locator.authority,
        remote_path_changed: old_locator.remote_path != new_locator.remote_path,
        path_prefix_changed: path_prefix(&old_locator.remote_path) != path_prefix(
            &new_locator.remote_path,
        ),
        leaf_name_changed: path_leaf(&old_locator.remote_path) != path_leaf(
            &new_locator.remote_path,
        ),
    };
    let ghost all = locator_views(historical_locators@).push(old_locator@);
    let mut aliases: Vec<AliasPlan> = Vec::new();
    proof {
        assert(alias_views(aliases@) =~= alias_paths(clone_root@, all.take(0), new_path@));
    }
    let mut i: usize = 0;
    while i < historical_locators.len()
        invariant
            i <= historical_locators@.len(),
            all == locator_views(historical_locators@).push(old_locator@),
            alias_views(aliases@) == alias_paths(clone_root@, all.take(i as int), new_path@),
            forall|j: int| 0 <= j < aliases@.len() ==> aliases@[j].target_path@ == new_path@,
        decreases historical_locators@.len() - i,
    {
        push_alias(&mut aliases, locator_path(clone_root, &historical_locators[i]), &new_path);
        i += 1;
        proof {
            assert(all.take(i as int).drop_last() =~= all.take(i - 1));
            assert(all.take(i as int).last() == historical_locators@[i - 1]@);
        }
    }
    push_alias(&mut aliases, locator_path(clone_root, &old_locator), &new_path);
    proof {
        assert(all.drop_last() =~= all.take(i as int));
    }
    MovePlan { old_locator, new_locator, old_path, new_path, flags, aliases }
}

pub open spec fn worktree_name_ok(name: Seq<char>) -> bool {
    name.len() > 0 && !name.contains('/') && name != "."@ && name != ".."@
}

pub fn validate_worktree_name(name: &str) -> (r: Result<(), Error>)
    ensures
        r is Ok <==> worktree_name_ok(name@),
        r matches Err(e) ==> e@ == "invalid worktree name: "@ + debug_text(name@),
{
    if name.is_empty() || contains_char(name, '/') || name.eq(".") || name.eq("..") {
        return Err(Error::about("invalid worktree name: ", &debug_of(name)));
    }
    Ok(())
}

/// The arguments of the Git command that adds a worktree at `path`.
pub open spec fn worktree_args(path: Seq<char>, options: WorktreeAddOptions) -> Seq<Seq<char>> {
    let a = seq!["worktree"@, "add"@];
    let b = if options.force {
        a.push("--force"@)
    } else {
        a
    };
    let c = match options.branch {
        Some(branch) => b.push("-b"@).push(branch@),
        None => b,
    };
    let d = if options.detach {
        c.push("--detach"@)
    } else {
        c
    };
    let e = d.push(path);
    match options.start_point {
        Some(start_point) => e.push(start_point@),
        None => e,
    }
}

pub fn plan_worktree_add(
    clone_root: &str,
    worktree_root: &str,
    canonical_locator: Locator,
    name: &str,
    options: WorktreeAddOptions<'_>,
) -> (r: Result<WorktreePlan, Error>)
    ensures
        r is Ok <==> worktree_name_ok(name@),
        r matches Err(e) ==> e@ == "invalid worktree name: "@ + debug_text(name@),
        r matches Ok(plan) ==> {
            &&& plan.canonical_locator@ == canonical_locator@
            &&& plan.canonical_path@ == placed(clone_root@, canonical_locator@)
            &&& plan.worktree_path@ == join_path(placed(worktree_root@, canonical_locator@), name@)
            &&& views(plan.git_args@) == worktree_args(plan.worktree_path@, options)
        },
{
    broadcast use crate::text::lemma_views_push;

    match validate_worktree_name(name) {
        Ok(()) => {},
        Err(error) => return Err(error),
    }
    let canonical_path = locator_path(clone_root, &canonical_locator);
    let worktree_path = join(&locator_path(worktree_root, &canonical_locator), name);
    let mut git_args: Vec<String> = Vec::new();
    git_args.push("worktree".to_owned());
    git_args.push("add".to_owned());
    proof {
        assert(views(git_args@) =~= seq!["worktree"@, "add"@]);
    }
    if options.force {
        git_args.push("--force".to_owned());
    }
    if let Some(branch) = options.branch {
        git_args.push("-b".to_owned());
        git_args.push(branch.to_owned());
    }
    if options.detach {
        git_args.push("--detach".to_owned());
    }
    git_args.push(worktree_path.clone());
    if let Some(start_point) = options.start_point {
        git_args.push(start_point.to_owned());
    }
    Ok(WorktreePlan { canonical_locator, canonical_path, worktree_path, git_args })
}

} // verus!
