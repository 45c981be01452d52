//! What holds of every fork that is planned, of every parent that is chosen and of
//! every change of type.
use crate::choice_laws::lemma_first_answering;
use crate::dump_laws::lemma_link_first;
use crate::locator::{parsed_locator, parsed_url, placed, scp_like, LocatorView};
use crate::naming::remote_name;
use crate::parents::{
    bare_need, fork_plan, parent_source, place_at, read_type, referenced, storage_result,
    summary_storage, type_change, BareNeed, ForkPlanView, ParentPath, ParentSourceView, RepoType,
    TypeChangeView,
};
use crate::paths::components;
use crate::registry::{answers_to, first_answering, with_id, RecordView, RegistryView, RepoView};
use crate::registry_relations::all_links;
use crate::relations::{is_summary, unrefused, SummaryView};
use crate::share_laws::{does, does_before, every_step, only_remotes};
use crate::steps::StepView;
use crate::text::{contains_text, lower, trim_text};
use vstd::prelude::*;

verus! {

/// A fork is refused exactly where it would depend on itself: where it is its own
/// parent, or keeps its Git directory in itself.
pub proof fn forks_of_themselves_are_refused(
    clone_root: Seq<char>,
    fork_url: Seq<char>,
    canonical_url: Seq<char>,
    fork: LocatorView,
    parent: (RecordView, RecordView),
    as_bare: bool,
)
    ensures
        ({
            let plan = fork_plan(clone_root, fork_url, canonical_url, fork, parent, as_bare);
            &&& plan is Ok <==> fork != parent.0.current && fork != parent.1.current
            &&& plan is Ok ==> plan->Ok_0.fork_locator == fork && plan->Ok_0.fork_path == placed(
                clone_root,
                fork,
            )
            &&& fork == parent.0.current ==> plan == Err::<ForkPlanView, Seq<char>>(
                "repository cannot be its own parent repository"@,
            )
            &&& fork != parent.0.current && fork == parent.1.current ==> plan == Err::<ForkPlanView, Seq<char>>(
                "repository cannot depend on one of its own descendants"@,
            )
        }),
{
}

/// A fork next to a checkout: in the repository that keeps the Git directory the
/// origin has the canonical URL and the fork's remote the fork's URL; the remote is
/// fetched, and only then is the worktree made, at the fork's place and from the head
/// of that remote. Every call of Git is made in that repository.
pub proof fn forks_are_worktrees_of_their_remote(
    clone_root: Seq<char>,
    fork_url: Seq<char>,
    canonical_url: Seq<char>,
    fork: LocatorView,
    parent: (RecordView, RecordView),
)
    requires
        fork != parent.0.current,
        fork != parent.1.current,
    ensures
        ({
            let plan = fork_plan(clone_root, fork_url, canonical_url, fork, parent, false)->Ok_0;
            let dir = parent.1.path;
            let remote = plan.fork_remote;
            let fetch = StepView::Git { dir, args: seq!["fetch"@, remote] };
            let origin = StepView::EnsureRemote { dir, name: "origin"@, url: canonical_url };
            let named = StepView::EnsureRemote { dir, name: remote, url: fork_url };
            let made = StepView::Git {
                dir,
                args: seq!["worktree"@, "add"@, placed(clone_root, fork), remote + "/HEAD"@],
            };
            &&& remote == remote_name("fork"@, fork)
            &&& does(plan.stages, origin)
            &&& does_before(plan.stages, named, fetch)
            &&& does_before(plan.stages, fetch, made)
            &&& does_before(
                plan.stages,
                StepView::MakeParent { path: placed(clone_root, fork) },
                made,
            )
            &&& only_remotes(plan.stages, dir, canonical_url, remote, fork_url)
            &&& every_step(
                plan.stages,
                |step: StepView|
                    step matches StepView::Git { dir: d, args } ==> d == dir && (step == fetch
                        || step == made),
            )
            &&& every_step(plan.stages, |step: StepView| !(step is MakeBare))
        }),
{
    let plan = fork_plan(clone_root, fork_url, canonical_url, fork, parent, false)->Ok_0;
    let steps = plan.stages[0].steps;
    assert(steps[0] is MakeParent);
    assert(steps[1] is EnsureRemote);
    assert(steps[2] is EnsureRemote);
    assert(steps[3] is Git);
    assert(steps[4] is FindHead);
    assert(steps[5] is Git);
}

/// A fork next to a bare repository is a view with an origin of its own: only room is
/// made for it, and the repository is made sure to be bare.
pub proof fn forks_of_bare_repositories_are_views(
    clone_root: Seq<char>,
    fork_url: Seq<char>,
    canonical_url: Seq<char>,
    fork: LocatorView,
    parent: (RecordView, RecordView),
)
    requires
        fork != parent.0.current,
        fork != parent.1.current,
    ensures
        ({
            let plan = fork_plan(clone_root, fork_url, canonical_url, fork, parent, true)->Ok_0;
            let place = StepView::MakeParent { path: placed(clone_root, fork) };
            let bare = StepView::MakeBare { path: parent.1.path };
            &&& plan.fork_remote == "origin"@
            &&& does(plan.stages, place)
            &&& does(plan.stages, bare)
            &&& every_step(plan.stages, |step: StepView| step == place || step == bare)
        }),
{
    let plan = fork_plan(clone_root, fork_url, canonical_url, fork, parent, true)->Ok_0;
    let steps = plan.stages[0].steps;
    assert(steps[0] is MakeParent);
    assert(steps[1] is MakeBare);
}

/// A repository of the registry answers to the name.
pub open spec fn some_answers(view: RegistryView, locator: LocatorView) -> bool {
    exists|k: int| 0 <= k < view.repos.len() && answers_to(view, #[trigger] view.repos[k], locator)
}

/// A repository of the registry with the number of one that answers to the name.
pub open spec fn answers_as(view: RegistryView, locator: LocatorView, record: RecordView) -> bool {
    exists|k: int, j: int|
        0 <= k < view.repos.len() && 0 <= j < view.repos.len() && answers_to(
            view,
            #[trigger] view.repos[k],
            locator,
        ) && (#[trigger] view.repos[j]).id == view.repos[k].id && record.id == view.repos[j].id
            && record.current == view.repos[j].current && record.path == view.repos[j].path
}

pub proof fn lemma_answering(view: RegistryView, locator: LocatorView, i: int)
    requires
        0 <= i,
    ensures
        ({
            let k = first_answering(view, locator, i);
            &&& k == -1 || (i <= k < view.repos.len() && answers_to(view, view.repos[k], locator))
            &&& k == -1 ==> forall|j: int|
                i <= j < view.repos.len() ==> !answers_to(view, #[trigger] view.repos[j], locator)
        }),
    decreases view.repos.len() - i,
{
    if i < view.repos.len() && !answers_to(view, view.repos[i], locator) {
        lemma_answering(view, locator, i + 1);
    }
}

proof fn lemma_numbered(repos: Seq<RepoView>, id: i64, i: int)
    requires
        0 <= i,
    ensures
        ({
            let k = with_id(repos, id, i);
            &&& k == -1 || (i <= k < repos.len() && repos[k].id == id)
            &&& k == -1 ==> forall|j: int| i <= j < repos.len() ==> (#[trigger] repos[j]).id != id
        }),
    decreases repos.len() - i,
{
    if i < repos.len() && repos[i].id != id {
        lemma_numbered(repos, id, i + 1);
    }
}

/// A reference names a repository of the registry exactly where it reads as a locator
/// that one answers to.
pub proof fn references_name_what_answers(view: RegistryView, reference: Seq<char>)
    ensures
        ({
            let read = parsed_locator(reference, parsed_url(trim_text(reference)));
            &&& referenced(view, reference) is Some <==> read is Ok && some_answers(view, read->Ok_0)
            &&& referenced(view, reference) is Some ==> answers_as(
                view,
                read->Ok_0,
                referenced(view, reference)->0,
            )
        }),
{
    let read = parsed_locator(reference, parsed_url(trim_text(reference)));
    if read is Ok {
        let k = first_answering(view, read->Ok_0, 0);
        lemma_answering(view, read->Ok_0, 0);
        if k >= 0 {
            let id = view.repos[k].id;
            lemma_numbered(view.repos, id, 0);
            let j = with_id(view.repos, id, 0);
            assert(view.repos[j].id == view.repos[k].id);
        }
    }
}

/// A parent that is managed at the path wins, then one that the registry knows by the
/// reference; only otherwise is the path looked at, and the reference is cloned only
/// where there is no such path.
pub proof fn parents_are_looked_for_in_order(
    view: RegistryView,
    managed: Option<RecordView>,
    found: Option<ParentPath>,
    clone_root: Seq<char>,
    reference: Seq<char>,
)
    ensures
        ({
            let source = parent_source(view, managed, found, clone_root, reference);
            let answered = referenced(view, reference);
            &&& managed is Some ==> source == Ok::<_, Seq<char>>(
                ParentSourceView::Managed(managed->0),
            )
            &&& managed is None && answered is Some ==> source == Ok::<_, Seq<char>>(
                ParentSourceView::Managed(answered->0),
            )
            &&& source is Ok && source->Ok_0 is Managed ==> managed is Some || answered is Some
            &&& managed is None && answered is None && found is Some ==> {
                let found = found->0;
                &&& source is Ok <==> found.view is Some || (found.is_repository && found.origin
                    is Some)
                &&& found.view is Some ==> source->Ok_0 == ParentSourceView::View(found.view->0@)
                &&& found.view is None && source is Ok ==> source->Ok_0
                    == (ParentSourceView::Checkout {
                    locator: found.origin->0@,
                    path: found.path@,
                })
            }
            &&& managed is None && answered is None && found is None ==> {
                let read = parsed_locator(reference, parsed_url(trim_text(reference)));
                &&& source is Ok <==> read is Ok
                &&& source is Ok ==> source->Ok_0 is Remote && source->Ok_0->Remote_locator
                    == read->Ok_0 && source->Ok_0->Remote_path == placed(clone_root, read->Ok_0)
                &&& source is Ok && (contains_text(reference, "://"@) || scp_like(reference)
                    is Some) ==> source->Ok_0->Remote_url == reference
                &&& source is Ok && !contains_text(reference, "://"@) && scp_like(reference)
                    is None ==> source->Ok_0->Remote_url == "https://"@ + read->Ok_0.authority
                    + "/"@ + read->Ok_0.remote_path + ".git"@
            }
        }),
{
}

/// The managed repository at a path is the first whose place is that path, however it
/// is spelled.
pub proof fn places_name_the_first_repository(places: Seq<String>, expected: Seq<char>, i: int, k: int)
    requires
        0 <= i <= k <= places.len(),
        forall|j: int|
            i <= j < k ==> components((#[trigger] places[j])@) != components(expected),
        k < places.len() ==> components(places[k]@) == components(expected),
    ensures
        place_at(places, expected, i) == if k < places.len() {
            k
        } else {
            -1
        },
    decreases k - i,
{
    if i < k {
        places_name_the_first_repository(places, expected, i + 1, k);
    }
}

/// The Git directory of a parent that depends on none is its own; that of any other is
/// with the canonical repository at the end of its chain of parents. No storage is found
/// where the relationships are refused.
pub proof fn storage_is_with_the_canonical_repository(
    view: RegistryView,
    parent: RecordView,
    r: Result<RecordView, Seq<char>>,
    k: int,
)
    requires
        storage_result(view, parent, r),
        0 <= k <= all_links(view).len(),
        k < all_links(view).len() ==> all_links(view)[k].dependent_repo_id == parent.id,
        forall|j: int| 0 <= j < k ==> (#[trigger] all_links(view)[j]).dependent_repo_id != parent.id,
    ensures
        !unrefused(all_links(view)) ==> r is Err,
        unrefused(all_links(view)) && k == all_links(view).len() ==> r == Ok::<
            RecordView,
            Seq<char>,
        >(parent),
        unrefused(all_links(view)) && k < all_links(view).len() && r is Ok ==> exists|s: SummaryView|
            #[trigger]
            is_summary(all_links(view), k, s) && r->Ok_0.current == s.canonical_locator
                && r->Ok_0.path == s.canonical_path && known_as(view, s, r->Ok_0.id),
{
    let links = all_links(view);
    lemma_link_first(links, parent.id, 0, k);
    if unrefused(links) && k < links.len() && r is Ok {
        let s = choose|s: SummaryView| #[trigger]
            is_summary(links, k, s) && r == summary_storage(view, s);
        let key = s.canonical_locator.key();
        let name = parsed_locator(key, parsed_url(trim_text(key)))->Ok_0;
        assert forall|j: int| answers_first(view, name, j) implies #[trigger] view.repos[j].id
            == r->Ok_0.id by {
            lemma_first_answering(view, name, 0, j);
        }
        lemma_answering(view, name, 0);
        assert(known_as(view, s, r->Ok_0.id));
    }
}

/// The repository is the first that answers to the name.
pub open spec fn answers_first(view: RegistryView, name: LocatorView, k: int) -> bool {
    &&& 0 <= k < view.repos.len()
    &&& answers_to(view, view.repos[k], name)
    &&& forall|j: int| 0 <= j < k ==> !answers_to(view, #[trigger] view.repos[j], name)
}

/// The number is that of the first repository that answers to the canonical locator as
/// it is written out, and the one that the summary tells where none does.
pub open spec fn known_as(view: RegistryView, s: SummaryView, id: i64) -> bool {
    let key = s.canonical_locator.authority + "/"@ + s.canonical_locator.remote_path;
    let name = parsed_locator(key, parsed_url(trim_text(key)))->Ok_0;
    &&& forall|j: int| answers_first(view, name, j) ==> #[trigger] view.repos[j].id == id
    &&& !some_answers(view, name) ==> id == s.canonical_repo_id
}

/// A canonical repository that is shared has to be there and must not be a view; it is
/// converted exactly where it is not bare yet.
pub proof fn shared_repositories_become_bare(
    path: Seq<char>,
    has_view: bool,
    exists: bool,
    is_bare: bool,
)
    ensures
        bare_need(path, has_view, exists, is_bare) is Ok <==> !has_view && (is_bare || exists),
        bare_need(path, has_view, exists, is_bare) == Ok::<_, Seq<char>>(BareNeed::Convert) <==> !has_view
            && !is_bare && exists,
{
}

/// A type is read from its name, and from nothing else, without regard to case and to
/// white space around it.
pub proof fn types_are_read_by_name(text: Seq<char>, repo_type: RepoType)
    ensures
        read_type(text) == Ok::<_, Seq<char>>(repo_type) <==> lower(trim_text(text))
            == match repo_type {
            RepoType::Canonical => "canonical"@,
            RepoType::Fork => "fork"@,
            RepoType::Mirror => "mirror"@,
        },
{
    reveal_strlit("canonical");
    reveal_strlit("fork");
    reveal_strlit("mirror");
    assert("canonical"@.len() != "fork"@.len());
    assert("canonical"@.len() != "mirror"@.len());
    assert("mirror"@.len() != "fork"@.len());
}

/// Some repository depends on the one with the number.
pub open spec fn needed(view: RegistryView, id: i64) -> bool {
    ||| exists|i: int| 0 <= i < view.forks.len() && (#[trigger] view.forks[i]).canonical_repo_id == id
    ||| exists|i: int|
        0 <= i < view.related.len() && (#[trigger] view.related[i]).related_repo_id == id && (
        view.related[i].resolution == Some("fork"@) || view.related[i].resolution == Some(
            "mirror"@,
        ))
}

/// A repository that others depend on keeps its type. Any other becomes canonical
/// exactly where it is no view and no parent is named, and a fork or mirror exactly
/// where one is named, which is then looked for.
pub proof fn types_change_where_nothing_depends(
    view: RegistryView,
    repo: RecordView,
    repo_type: RepoType,
    canonical: Option<Seq<char>>,
    is_view: bool,
)
    ensures
        ({
            let change = type_change(view, repo, repo_type, canonical, is_view);
            &&& needed(view, repo.id) ==> change is Err
            &&& change == Ok::<_, Seq<char>>(TypeChangeView::Done) <==> !needed(view, repo.id)
                && repo_type == RepoType::Canonical && !is_view && canonical is None
            &&& change is Ok && repo_type != RepoType::Canonical <==> !needed(view, repo.id)
                && repo_type != RepoType::Canonical && canonical is Some
            &&& change is Ok && repo_type != RepoType::Canonical ==> change->Ok_0
                == (TypeChangeView::NeedsParent { repo_type, reference: canonical->0 })
        }),
{
}

} // verus!
