//! What every move of a repository does.
use crate::locator::{placed, LocatorView};
use crate::moves::{
    alias_paths, alias_views, change_flags, leaf_of, locator_views, prefix_of, AliasPlan, MovePlan,
};
use crate::naming::remote_url;
use crate::paths::components;
use crate::placement::aliases_cover_the_old_places;
use crate::reconcile::{link_steps, move_stages, reconciles, ReconcileAction, ReconcileFacts};
use crate::registry::RecordView;
use crate::share_laws::{every_step, renames};
use crate::steps::{moving, StageView, StepView};
use crate::text::{find_back, lemma_find_back, opt_view};
use vstd::prelude::*;

verus! {

/// A plan that moves a repository from one locator's place to another's, and knows
/// the locators that it has had.
pub open spec fn moves_repository(
    plan: MovePlan,
    root: Seq<char>,
    old_locator: LocatorView,
    new_locator: LocatorView,
    historical: Seq<LocatorView>,
) -> bool {
    &&& plan.old_path@ == placed(root, old_locator)
    &&& plan.new_path@ == placed(root, new_locator)
    &&& alias_views(plan.aliases@) == alias_paths(
        root,
        historical.push(old_locator),
        plan.new_path@,
    )
    &&& forall|i: int|
        0 <= i < plan.aliases@.len() ==> (#[trigger] plan.aliases@[i]).target_path@
            == plan.new_path@
}

/// A link from a place to the target is made.
pub open spec fn links(plan: Seq<StageView>, place: Seq<char>, target: Seq<char>) -> bool {
    exists|k: int, i: int|
        0 <= k < plan.len() && 0 <= i < plan[k].steps.len() && leads_to(
            #[trigger] plan[k].steps[i],
            place,
            target,
        )
}

/// A step makes the place a link to the target.
pub open spec fn leads_to(step: StepView, place: Seq<char>, target: Seq<char>) -> bool {
    match step {
        StepView::Link { target: t, link } => t == target && components(link) == components(place),
        _ => false,
    }
}

/// The path is the place of one of the locators.
pub open spec fn place_of_one(root: Seq<char>, all: Seq<LocatorView>, path: Seq<char>) -> bool {
    exists|k: int| 0 <= k < all.len() && path == placed(root, #[trigger] all[k])
}

proof fn lemma_alias_places(root: Seq<char>, all: Seq<LocatorView>, target: Seq<char>)
    ensures
        forall|i: int|
            0 <= i < alias_paths(root, all, target).len() ==> place_of_one(
                root,
                all,
                #[trigger] alias_paths(root, all, target)[i],
            ),
    decreases all.len(),
{
    if all.len() > 0 {
        let rest = all.drop_last();
        let before = alias_paths(root, rest, target);
        let after = alias_paths(root, all, target);
        lemma_alias_places(root, rest, target);
        assert forall|i: int| 0 <= i < after.len() implies place_of_one(
            root,
            all,
            #[trigger] after[i],
        ) by {
            if i < before.len() {
                assert(after[i] == before[i]);
                let k = choose|k: int|
                    0 <= k < rest.len() && before[i] == placed(root, #[trigger] rest[k]);
                assert(all[k] == rest[k]);
            } else {
                assert(after[i] == placed(root, all[all.len() - 1]));
            }
        }
    }
}

proof fn lemma_link_steps(aliases: Seq<AliasPlan>)
    ensures
        forall|j: int|
            0 <= j < link_steps(aliases).len() ==> exists|i: int|
                0 <= i < aliases.len() && #[trigger] link_steps(aliases)[j] == (StepView::Link {
                    target: (#[trigger] aliases[i]).target_path@,
                    link: aliases[i].alias_path@,
                }) && components(aliases[i].alias_path@) != components(aliases[i].target_path@),
        forall|i: int|
            0 <= i < aliases.len() && components((#[trigger] aliases[i]).alias_path@)
                != components(aliases[i].target_path@) ==> link_steps(aliases).contains(
                StepView::Link {
                    target: aliases[i].target_path@,
                    link: aliases[i].alias_path@,
                },
            ),
    decreases aliases.len(),
{
    if aliases.len() > 0 {
        let rest = aliases.drop_last();
        let before = link_steps(rest);
        let after = link_steps(aliases);
        let n = aliases.len() - 1;
        lemma_link_steps(rest);
        assert forall|j: int| 0 <= j < after.len() implies exists|i: int|
            0 <= i < aliases.len() && #[trigger] after[j] == (StepView::Link {
                target: (#[trigger] aliases[i]).target_path@,
                link: aliases[i].alias_path@,
            }) && components(aliases[i].alias_path@) != components(aliases[i].target_path@) by {
            if j < before.len() {
                assert(after[j] == before[j]);
                let i = choose|i: int|
                    0 <= i < rest.len() && before[j] == (StepView::Link {
                        target: (#[trigger] rest[i]).target_path@,
                        link: rest[i].alias_path@,
                    }) && components(rest[i].alias_path@) != components(rest[i].target_path@);
                assert(aliases[i] == rest[i]);
            } else {
                assert(after[j] == (StepView::Link {
                    target: aliases[n].target_path@,
                    link: aliases[n].alias_path@,
                }));
            }
        }
        assert forall|i: int|
            0 <= i < aliases.len() && components((#[trigger] aliases[i]).alias_path@)
                != components(aliases[i].target_path@) implies after.contains(
            StepView::Link { target: aliases[i].target_path@, link: aliases[i].alias_path@ },
        ) by {
            let step = StepView::Link {
                target: aliases[i].target_path@,
                link: aliases[i].alias_path@,
            };
            if i < n {
                assert(rest[i] == aliases[i]);
                assert(before.contains(step));
                let j = choose|j: int| 0 <= j < before.len() && before[j] == step;
                assert(after[j] == step);
            } else {
                assert(after.last() == step);
            }
        }
    }
}

/// A move makes every place that the repository has had, other than the new one, a
/// link to the new place, and makes no other link: none stands at the new place, and
/// none leads anywhere else.
pub proof fn old_places_become_links(
    plan: MovePlan,
    root: Seq<char>,
    old_locator: LocatorView,
    new_locator: LocatorView,
    historical: Seq<LocatorView>,
    old_exists: bool,
    new_exists: bool,
    origin_url: Seq<char>,
)
    requires
        moves_repository(plan, root, old_locator, new_locator, historical),
    ensures
        ({
            let done = move_stages(plan, old_exists, new_exists, origin_url);
            let all = historical.push(old_locator);
            let target = placed(root, new_locator);
            &&& forall|k: int|
                0 <= k < all.len() && components(placed(root, #[trigger] all[k])) != components(
                    target,
                ) ==> links(done, placed(root, all[k]), target)
            &&& every_step(
                done,
                |step: StepView|
                    step matches StepView::Link { target: t, link } ==> t == target && components(
                        link,
                    ) != components(target) && place_of_one(root, all, link),
            )
        }),
{
    let done = move_stages(plan, old_exists, new_exists, origin_url);
    let all = historical.push(old_locator);
    let target = placed(root, new_locator);
    let paths = alias_paths(root, all, target);
    let steps = done[0].steps;
    let aliases = plan.aliases@;
    let made = link_steps(aliases);
    aliases_cover_the_old_places(root, all, target);
    lemma_alias_places(root, all, target);
    lemma_link_steps(aliases);
    let from = steps.len() - made.len() - 1;
    assert forall|j: int| 0 <= j < made.len() implies #[trigger] made[j] == steps[from + j] by {}
    assert forall|i: int| 0 <= i < aliases.len() implies (#[trigger] aliases[i]).alias_path@
        == paths[i] by {
        assert(alias_views(aliases)[i] == aliases[i].alias_path@);
    }
    assert forall|k: int|
        0 <= k < all.len() && components(placed(root, #[trigger] all[k])) != components(
            target,
        ) implies links(done, placed(root, all[k]), target) by {
        let place = placed(root, all[k]);
        let i = choose|i: int|
            0 <= i < paths.len() && crate::paths::path_eq(#[trigger] paths[i], place);
        let alias = aliases[i];
        let step = StepView::Link { target: alias.target_path@, link: alias.alias_path@ };
        assert(made.contains(step));
        let j = choose|j: int| 0 <= j < made.len() && made[j] == step;
        assert(leads_to(done[0].steps[from + j], place, target));
    }
    assert forall|k: int, i: int|
        0 <= k < done.len() && 0 <= i < done[k].steps.len() implies (
    #[trigger] done[k].steps[i] matches StepView::Link { target: t, link } ==> t == target
        && components(link) != components(target) && place_of_one(root, all, link)) by {
        if done[k].steps[i] is Link {
            let j = i - from;
            assert(0 <= j < made.len());
            assert(made[j] == steps[from + j]);
            let a = choose|a: int|
                0 <= a < aliases.len() && made[j] == (StepView::Link {
                    target: (#[trigger] aliases[a]).target_path@,
                    link: aliases[a].alias_path@,
                }) && components(aliases[a].alias_path@) != components(aliases[a].target_path@);
            assert(aliases[a].alias_path@ == paths[a]);
            assert(place_of_one(root, all, paths[a]));
        }
    }
}

/// A move renames the repository from its old place to its new one exactly when it is
/// still at the old place, nothing is at the new one, and these differ; it renames and
/// removes nothing else. The rename comes before any link. Last of all the repository
/// at the new place gets the URL as its `origin`, and no other remote is touched.
pub proof fn moves_end_at_the_new_place(
    plan: MovePlan,
    old_exists: bool,
    new_exists: bool,
    origin_url: Seq<char>,
)
    ensures
        ({
            let done = move_stages(plan, old_exists, new_exists, origin_url);
            let renamed = components(plan.old_path@) != components(plan.new_path@) && old_exists
                && !new_exists;
            let origin = StepView::EnsureRemote {
                dir: plan.new_path@,
                name: "origin"@,
                url: origin_url,
            };
            &&& done.len() == 1
            &&& done[0].undo.len() == 0
            &&& done[0].steps.last() == origin
            &&& renamed ==> done[0].steps.len() >= 3 && done[0].steps[0] == (
            StepView::MakeParent { path: plan.new_path@ }) && renames(
                done[0].steps[1],
                plan.old_path@,
                plan.new_path@,
            )
            &&& forall|i: int|
                0 <= i < done[0].steps.len() && #[trigger] done[0].steps[i] is Rename ==> renamed
                    && i == 1
            &&& every_step(
                done,
                |step: StepView|
                    step is MakeParent || step is Rename || step is Link || step == origin,
            )
        }),
{
    let done = move_stages(plan, old_exists, new_exists, origin_url);
    let steps = done[0].steps;
    let made = link_steps(plan.aliases@);
    lemma_link_steps(plan.aliases@);
    let from = steps.len() - made.len() - 1;
    assert forall|i: int| from <= i < steps.len() - 1 implies #[trigger] steps[i] is Link by {
        assert(steps[i] == made[i - from]);
    }
}

/// What a move is told to change is what changes: the authority, the whole remote
/// path, what stands before its last slash, what stands behind it.
pub proof fn flags_tell_what_changes(
    old_authority: Seq<char>,
    new_authority: Seq<char>,
    old_prefix: Seq<char>,
    new_prefix: Seq<char>,
    old_leaf: Seq<char>,
    new_leaf: Seq<char>,
)
    requires
        !old_leaf.contains('/'),
        !new_leaf.contains('/'),
    ensures
        ({
            let old_locator = LocatorView {
                authority: old_authority,
                remote_path: old_prefix + "/"@ + old_leaf,
            };
            let new_locator = LocatorView {
                authority: new_authority,
                remote_path: new_prefix + "/"@ + new_leaf,
            };
            let flags = change_flags(old_locator, new_locator);
            &&& flags.authority_changed <==> old_authority != new_authority
            &&& flags.path_prefix_changed <==> old_prefix != new_prefix
            &&& flags.leaf_name_changed <==> old_leaf != new_leaf
            &&& flags.remote_path_changed <==> old_prefix != new_prefix || old_leaf != new_leaf
        }),
{
    lemma_last_slash(old_prefix, old_leaf);
    lemma_last_slash(new_prefix, new_leaf);
}

proof fn lemma_last_slash(prefix: Seq<char>, leaf: Seq<char>)
    requires
        !leaf.contains('/'),
    ensures
        prefix_of(prefix + "/"@ + leaf) == prefix,
        leaf_of(prefix + "/"@ + leaf) == leaf,
{
    reveal_strlit("/");
    let text = prefix + "/"@ + leaf;
    let n = text.len() as int;
    lemma_find_back(text, '/', n);
    let at = prefix.len() as int;
    assert(text[at] == '/');
    let i = find_back(text, '/', n);
    if i > at {
        assert(text[i] == leaf[i - at - 1]);
        assert(leaf.contains(leaf[i - at - 1]));
    }
    assert(text.subrange(at + 1, n) =~= leaf);
    assert(text.subrange(0, at) =~= prefix);
}

/// A repository moves to where the forge says that it is, whatever its origin says,
/// and its origin is then set to the forge's name for it.
pub proof fn forges_are_believed_first(
    root: Seq<char>,
    repo: RecordView,
    facts: ReconcileFacts,
    parsed: Result<LocatorView, Seq<char>>,
    action: ReconcileAction,
)
    requires
        reconciles(root, repo, facts, parsed, action),
        facts.exists,
        facts.forge is Some,
        facts.forge->0@ != repo.current,
    ensures
        action matches ReconcileAction::Move { plan, origin_url, evidence } && {
            let found = facts.forge->0@;
            &&& plan.old_locator@ == repo.current
            &&& plan.new_locator@ == found
            &&& moves_repository(
                plan,
                root,
                repo.current,
                found,
                locator_views(facts.historical@),
            )
            &&& origin_url@ == remote_url(opt_view(facts.origin_url), found)
            &&& evidence@ == "github-api"@
        },
{
}

/// Where the forge says nothing else, a repository moves exactly when its origin's URL
/// names another locator, and to that one; its origin stays as it is.
pub proof fn origins_are_believed_next(
    root: Seq<char>,
    repo: RecordView,
    facts: ReconcileFacts,
    parsed: Result<LocatorView, Seq<char>>,
    action: ReconcileAction,
)
    requires
        reconciles(root, repo, facts, parsed, action),
        facts.exists,
        facts.forge is Some ==> facts.forge->0@ == repo.current,
        facts.origin_url is Some,
    ensures
        action is Move <==> parsed is Ok && parsed->Ok_0 != repo.current,
        action is Keep <==> parsed == Ok::<LocatorView, Seq<char>>(repo.current),
        action is Skip <==> parsed is Err,
        action matches ReconcileAction::Move { plan, origin_url, evidence } ==> {
            &&& plan.old_locator@ == repo.current
            &&& plan.new_locator@ == parsed->Ok_0
            &&& moves_repository(
                plan,
                root,
                repo.current,
                parsed->Ok_0,
                locator_views(facts.historical@),
            )
            &&& origin_url@ == facts.origin_url->0@
            &&& evidence@ == "origin-url:"@ + facts.origin_url->0@
        },
{
}

/// A repository that is not there, or of which neither the forge nor an origin tells
/// anything, does not move.
pub proof fn unknown_repositories_are_skipped(
    root: Seq<char>,
    repo: RecordView,
    facts: ReconcileFacts,
    parsed: Result<LocatorView, Seq<char>>,
    action: ReconcileAction,
)
    requires
        reconciles(root, repo, facts, parsed, action),
        !facts.exists || (facts.origin_url is None && (facts.forge is Some ==> facts.forge->0@
            == repo.current)),
    ensures
        action matches ReconcileAction::Skip { reason } && reason@ == if !facts.exists {
            "current path does not exist"@
        } else {
            "origin remote is not configured"@
        },
{
}

/// When a move fails it is told what was moving, from where, and to where.
pub proof fn failed_moves_are_told_from_and_to(what: Seq<char>, from: Seq<char>, to: Seq<char>)
    ensures
        (what + from).is_prefix_of(moving(what, from, to)),
        to.is_suffix_of(moving(what, from, to)),
        moving(what, from, to).len() == what.len() + from.len() + " to "@.len() + to.len(),
{
    let text = moving(what, from, to);
    assert(text.subrange(0, (what + from).len() as int) =~= what + from);
    assert(text.subrange(text.len() - to.len(), text.len() as int) =~= to);
}

} // verus!
