//! What each refusal tells, and that nothing is done where something is refused.
use crate::context::{context_for, repo_at, resolution_start, suggestion_at, ContextFacts};
use crate::locator::{placed, LocatorView};
use crate::manage::managed_move;
use crate::materialize::{bare_share_plan, share_refusal, view_plan, ViewPlaceFacts};
use crate::moves::{change_flags, leaf_of, prefix_of};
use crate::parents::{
    bare_need, parent_source, referenced, type_change, with_type_begun, ParentPath, RepoType,
};
use crate::paths::path_under;
use crate::registry::{ForkRow, RecordView, RegistryView, RelatedView};
use crate::registry_relations::{suggestions, SuggestionView};
use crate::row_laws::clearing_takes_the_parents_alone;
use crate::share::{bare_plan, seed_plan, BareFacts, SeedFacts};
use crate::text::{find_back, integer, lemma_find_back, trim_text};
use vstd::prelude::*;

verus! {

/// A checkout that is missing is told by its own path: that of the fork or mirror
/// first, that of the canonical repository only where the other is there.
pub proof fn missing_checkouts_are_named(
    dependent: Seq<char>,
    controlling: Seq<char>,
    relationship: Seq<char>,
    dependent_exists: bool,
    controlling_exists: bool,
)
    ensures
        ({
            let refused = share_refusal(
                dependent,
                controlling,
                relationship,
                dependent_exists,
                controlling_exists,
            );
            &&& !dependent_exists ==> refused == Some(
                relationship + " checkout does not exist: "@ + dependent,
            )
            &&& dependent_exists && !controlling_exists ==> refused == Some(
                "canonical checkout does not exist: "@ + controlling,
            )
            &&& dependent_exists && controlling_exists ==> refused is None
        }),
{
}

/// A canonical checkout is seeded only where there is none yet, from a checkout that is
/// there; what stands in the way is told by its path.
pub proof fn seeds_need_a_free_place(
    dependent: (LocatorView, Seq<char>),
    controlling: (LocatorView, Seq<char>),
    urls: (Seq<char>, Seq<char>),
    relationship: Seq<char>,
    facts: SeedFacts,
)
    ensures
        ({
            let plan = seed_plan(dependent, controlling, urls, relationship, facts);
            &&& facts.controlling_exists ==> plan is Err && plan->Err_0
                == "canonical checkout already exists: "@ + controlling.1
            &&& !facts.controlling_exists && !facts.dependent_exists ==> plan is Err && plan->Err_0
                == relationship + " checkout does not exist: "@ + dependent.1
        }),
{
}

/// A view needs a canonical repository that is there and bare; the path of one that is
/// not is told.
pub proof fn views_need_a_bare_repository(
    dependent: (LocatorView, Seq<char>),
    controlling: (LocatorView, Seq<char>),
    relationship: Seq<char>,
    origin: Option<Seq<char>>,
    url: Seq<char>,
    controlling_exists: bool,
    facts: ViewPlaceFacts,
)
    ensures
        ({
            let shared = bare_share_plan(
                dependent,
                controlling,
                relationship,
                origin,
                controlling_exists,
                facts,
            );
            let view = view_plan(dependent, controlling, relationship, url, facts);
            &&& shared is Ok <==> controlling_exists && facts.canonical_is_bare
            &&& !controlling_exists ==> shared->Err_0
                == "canonical bare repository does not exist: "@ + controlling.1
            &&& controlling_exists && !facts.canonical_is_bare ==> shared->Err_0
                == "repository is not bare: "@ + controlling.1
            &&& view is Ok <==> facts.canonical_is_bare
            &&& !facts.canonical_is_bare ==> view->Err_0 == "repository is not bare: "@
                + controlling.1
        }),
{
}

/// A checkout becomes bare only where it is clean and its Git directory is its own; what
/// is not clean is told first.
pub proof fn only_clean_checkouts_become_bare(path: Seq<char>, backup: Seq<char>, facts: BareFacts)
    ensures
        ({
            let plan = bare_plan(path, backup, facts);
            let clean = trim_text(facts.status@).len() == 0;
            &&& plan is Ok <==> clean && facts.owns_git_dir
            &&& !clean ==> plan->Err_0
                == "checkout has uncommitted or untracked changes and cannot be converted safely: "@
                + path
            &&& clean && !facts.owns_git_dir ==> plan->Err_0
                == "checkout uses a shared Git directory and cannot be converted as a standalone repository: "@
                + path
        }),
{
}

/// A checkout does not move onto something else, nor into itself; the place that it
/// would have moved to is told.
pub proof fn occupied_places_stop_moves(
    root: Seq<char>,
    from: Seq<char>,
    locator: LocatorView,
    occupied: bool,
)
    ensures
        ({
            let place = placed(root, locator);
            let done = managed_move(root, from, locator, false, occupied);
            &&& managed_move(root, from, locator, true, occupied) is Ok
            &&& done is Ok <==> !occupied && !path_under(place, from)
            &&& occupied ==> done->Err_0 == "managed path for "@ + locator.authority + "/"@
                + locator.remote_path + " already exists: "@ + place
            &&& !occupied && done is Err ==> done->Err_0 == "cannot move "@ + from
                + " into its own subtree at "@ + place
        }),
{
    let place = placed(root, locator);
    assert("managed path for "@ + locator.key() + " already exists: "@ + place
        =~= "managed path for "@ + locator.authority + "/"@ + locator.remote_path
        + " already exists: "@ + place);
}

/// Where a parent is at a path, that path is told if it is no repository, or has no
/// origin that reads as a locator.
pub proof fn paths_of_unfit_parents_are_told(
    view: RegistryView,
    found: ParentPath,
    root: Seq<char>,
    reference: Seq<char>,
)
    requires
        referenced(view, reference) is None,
        found.view is None,
    ensures
        ({
            let source = parent_source(view, None, Some(found), root, reference);
            &&& !found.is_repository ==> source is Err && source->Err_0
                == "parent path is not a Git repository: "@ + found.path@
            &&& found.is_repository && found.origin is None ==> source is Err && source->Err_0
                == "parent path has no locator-compatible origin remote: "@ + found.path@
        }),
{
}

/// A canonical repository that cannot be shared is told by its path.
pub proof fn unfit_canonical_repositories_are_told(
    path: Seq<char>,
    has_view: bool,
    exists: bool,
    is_bare: bool,
)
    ensures
        has_view ==> bare_need(path, has_view, exists, is_bare)->Err_0
            == "canonical repository cannot be a repo-manager namespace view: "@ + path,
        !has_view && !is_bare && !exists ==> bare_need(path, has_view, exists, is_bare)->Err_0
            == "repository is not bare: "@ + path,
{
}

/// Other repositories depend on this one, as forks or as mirrors.
pub open spec fn others_depend(view: RegistryView, id: i64) -> bool {
    ||| exists|i: int|
        0 <= i < view.forks.len() && (#[trigger] view.forks[i]).canonical_repo_id == id
    ||| exists|i: int|
        0 <= i < view.related.len() && (#[trigger] view.related[i]).related_repo_id == id && (
        view.related[i].resolution == Some("fork"@) || view.related[i].resolution == Some(
            "mirror"@,
        ))
}

/// A repository that others depend on keeps its type. One that becomes canonical loses
/// its parents at once, and must be no view and get no parent; one that becomes a fork
/// or mirror needs a parent, and nothing changes before that is found.
pub proof fn types_begin_to_change_where_they_may(
    view: RegistryView,
    repo: RecordView,
    repo_type: RepoType,
    canonical: Option<Seq<char>>,
    is_view: bool,
)
    ensures
        ({
            let change = type_change(view, repo, repo_type, canonical, is_view);
            let after = with_type_begun(view, repo, repo_type, canonical, is_view);
            let becomes_canonical = !others_depend(view, repo.id) && repo_type
                == RepoType::Canonical && !is_view && canonical is None;
            &&& others_depend(view, repo.id) ==> change is Err && change->Err_0
                == "repository is canonical for existing fork/mirror checkout(s)"@
            &&& change is Err ==> after == view
            &&& repo_type != RepoType::Canonical ==> after == view && (change is Ok
                <==> !others_depend(view, repo.id) && canonical is Some)
            &&& repo_type == RepoType::Canonical ==> (change is Ok <==> becomes_canonical)
            &&& becomes_canonical ==> forall|r: ForkRow| #[trigger]
                after.forks.contains(r) <==> view.forks.contains(r) && r.fork_repo_id != repo.id
            &&& becomes_canonical ==> forall|r: RelatedView| #[trigger]
                after.related.contains(r) <==> view.related.contains(r) && !(r.repo_id == repo.id
                    && (r.resolution == Some("fork"@) || r.resolution == Some("mirror"@)))
        }),
{
    clearing_takes_the_parents_alone(view, repo.id);
}

/// A directory that belongs to no repository is told, and how to name another.
pub proof fn unmanaged_directories_are_told(view: RegistryView, facts: ContextFacts)
    requires
        facts.view is None,
        !facts.under_clone_root || facts.origin is None,
        forall|i: int| 0 <= i < view.repos.len() ==> (#[trigger] view.repos[i]).path != facts.dir@,
    ensures
        context_for(view, facts) is Err,
        context_for(view, facts)->Err_0 == "could not resolve repo context for "@ + facts.dir@
            + "; pass --dir pointing at a managed repo or repo-manager view"@,
{
    lemma_none_at(view, facts, 0);
}

proof fn lemma_none_at(view: RegistryView, facts: ContextFacts, i: int)
    requires
        0 <= i,
        forall|k: int| 0 <= k < view.repos.len() ==> (#[trigger] view.repos[k]).path != facts.dir@,
    ensures
        repo_at(view.repos, facts.dir@, i) == -1,
    decreases view.repos.len() - i,
{
    if i < view.repos.len() {
        lemma_none_at(view, facts, i + 1);
    }
}

/// What is no kind of relationship is told, and so is what a suggestion was resolved as
/// already.
pub proof fn unfit_resolutions_are_told(view: RegistryView, id: i64, kind: Seq<char>)
    ensures
        ({
            let start = resolution_start(view, id, kind);
            let list = suggestions(view.repos, view.related, false);
            let is_kind = kind == "mirror"@ || kind == "fork"@ || kind == "canonical"@ || kind
                == "moved"@ || kind == "successor"@ || kind == "unrelated"@;
            &&& !is_kind ==> start is Err && start->Err_0 == "invalid relationship kind: "@ + kind
                + "; expected mirror, fork, canonical, moved, successor, or unrelated"@
            &&& (kind == "fork"@ || kind == "mirror"@) && (forall|i: int|
                0 <= i < list.len() ==> (#[trigger] list[i]).id != id) ==> start is Err
                && start->Err_0 == "unknown related-history suggestion: "@ + integer(id as int)
        }),
{
    let list = suggestions(view.repos, view.related, false);
    if forall|i: int| 0 <= i < list.len() ==> (#[trigger] list[i]).id != id {
        lemma_no_suggestion(list, id, 0);
    }
}

proof fn lemma_no_suggestion(
    list: Seq<SuggestionView>,
    id: i64,
    i: int,
)
    requires
        0 <= i,
        forall|k: int| 0 <= k < list.len() ==> (#[trigger] list[k]).id != id,
    ensures
        suggestion_at(list, id, i) == -1,
    decreases list.len() - i,
{
    if i < list.len() {
        lemma_no_suggestion(list, id, i + 1);
    }
}

/// A remote path without a slash is all leaf: nothing stands before it.
pub proof fn paths_without_slashes_are_leaves(
    authority: Seq<char>,
    old_leaf: Seq<char>,
    new_leaf: Seq<char>,
)
    requires
        !old_leaf.contains('/'),
        !new_leaf.contains('/'),
    ensures
        ({
            let flags = change_flags(
                LocatorView { authority, remote_path: old_leaf },
                LocatorView { authority, remote_path: new_leaf },
            );
            &&& !flags.authority_changed
            &&& !flags.path_prefix_changed
            &&& flags.leaf_name_changed <==> old_leaf != new_leaf
            &&& flags.remote_path_changed <==> old_leaf != new_leaf
        }),
{
    lemma_all_leaf(old_leaf);
    lemma_all_leaf(new_leaf);
}

proof fn lemma_all_leaf(text: Seq<char>)
    requires
        !text.contains('/'),
    ensures
        prefix_of(text) == Seq::<char>::empty(),
        leaf_of(text) == text,
{
    let n = text.len() as int;
    lemma_find_back(text, '/', n);
    let i = find_back(text, '/', n);
    if 0 <= i < n {
        assert(text.contains(text[i]));
    }
}

} // verus!
