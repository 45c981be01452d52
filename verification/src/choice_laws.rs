//! What is chosen, and what it is chosen by.
use crate::cli::{check_choice, CheckAction};
use crate::clone::{clone_run, clone_tool, CloneTool};
use crate::config::{ForgeConfigView, RepoVisibility};
use crate::daemon::cleanup_interval;
use crate::detect::{detected_history, shares, FoundRepository};
use crate::dump::{checkout_named, directory_kind, KindFacts};
use crate::forge::{create_start, forge_for};
use crate::history_laws::{
    found_history_is_noted, in_common, is_paired, shared_history_is_a_common_root, sharing,
};
use crate::locator::{placed, LocatorView};
use crate::parents::{parent_refusal, with_accepted};
use crate::paths::components;
use crate::reconcile::{link_choice, target_of};
use crate::registry::{
    answers_to, first_answering, keep, lemma_keep, repo_id_for, ForkRow, PlaceView, RecordView,
    RegistryView, RelatedView, RepoView,
};
use crate::registry_relations::{pair_at, related_at, row_resolved, with_dependent};
use crate::row_laws::{clearing_takes_the_parents_alone, forks_are_noted_once, lemma_recorded};
use crate::rpc::EventBase;
use crate::scan::{descended, visited, DirectoryEntry, DirectoryMarks};
use crate::share::with_repo;
use crate::text::{trim_text, views};
use crate::views::{default_ref, RepoViewView};
use crate::worktrees::context_use;
use vstd::prelude::*;

verus! {

/// A bare clone is made by Git, and a checkout by `ghq` where there is one. `ghq` is
/// told the root to clone under, and Git the place; both are told the URL.
pub proof fn clones_are_made_by_the_tool_at_hand(
    bare: bool,
    has_ghq: bool,
    root: Seq<char>,
    clone: EventBase,
)
    ensures
        ({
            let tool = clone_tool(bare, has_ghq);
            let run = clone_run(tool, root, bare, clone);
            let n = run.args.len() as int;
            &&& bare || !has_ghq ==> run.program == "git"@
            &&& !bare && has_ghq ==> run.program == "ghq"@
            &&& run.program == "git"@ ==> {
                &&& run.ghq_root is None
                &&& n >= 3
                &&& run.args[0] == "clone"@
                &&& run.args[n - 2] == clone.url
                &&& run.args[n - 1] == clone.path
                &&& bare <==> n == 4 && run.args[1] == "--bare"@
            }
            &&& run.program == "ghq"@ ==> {
                &&& run.ghq_root == Some(root)
                &&& run.args == seq!["get"@, clone.url]
            }
        }),
{
    reveal_strlit("git");
    reveal_strlit("ghq");
    assert("git"@[1] != "ghq"@[1]);
}

/// Where `ghq` failed Git clones to the place itself, bare exactly where that is set.
pub proof fn git_clones_to_the_place(root: Seq<char>, bare: bool, clone: EventBase)
    ensures
        ({
            let run = clone_run(CloneTool::Git, root, bare, clone);
            let n = run.args.len() as int;
            &&& run.program == "git"@
            &&& run.ghq_root is None
            &&& run.args[n - 2] == clone.url
            &&& run.args[n - 1] == clone.path
            &&& bare ==> n == 4 && run.args[1] == "--bare"@
            &&& !bare ==> n == 3
        }),
{
}

/// A directory is never replaced by a link, while a link is, and so is a file. Where
/// nothing stands the link is just made.
pub proof fn directories_are_left_alone(exists: bool, is_link: bool, is_dir: bool)
    requires
        is_dir ==> exists,
    ensures
        link_choice(exists, is_link, is_dir) is Leave <==> is_dir && !is_link,
        link_choice(exists, is_link, is_dir) is Replace <==> is_link || (exists && !is_dir),
        link_choice(exists, is_link, is_dir) is Make <==> !is_link && !exists,
{
}

/// A directory that is given has to belong to a repository. Where none is given, the
/// first argument decides if it names a repository, and only otherwise the directory.
pub proof fn given_directories_decide(dir_given: bool, names_repository: bool)
    ensures
        context_use(dir_given, names_repository) is Required <==> dir_given,
        context_use(dir_given, names_repository) is Unused <==> !dir_given && names_repository,
        context_use(dir_given, names_repository) is Preferred <==> !dir_given && !names_repository,
{
}

/// Only a check that is asked to repair changes anything, and only one that does not
/// print JSON asks the user.
pub proof fn checks_repair_when_asked(dump: bool, repair: bool, json: bool)
    ensures
        check_choice(dump, repair, json) is Dump <==> dump,
        check_choice(dump, repair, json) is RepairInteractive <==> !dump && repair && !json,
        check_choice(dump, repair, json) is Report <==> !dump && (!repair || json),
        check_choice(dump, repair, json) matches CheckAction::Report { check } ==> (check
            <==> !repair),
{
}

/// A repository gets no parent that is the repository itself, and none whose Git
/// directory it keeps; then nothing changes. Otherwise it loses the parents that it
/// had, and no other repository loses any.
pub proof fn repositories_do_not_depend_on_themselves(
    view: RegistryView,
    id: i64,
    parent: RecordView,
    storage: RecordView,
)
    ensures
        ({
            let refused = parent_refusal(id, (parent, storage));
            let after = with_accepted(view, id, (parent, storage));
            &&& refused is None <==> parent.id != id && storage.id != id
            &&& parent.id == id ==> refused == Some(
                "repository cannot be its own parent repository"@,
            )
            &&& parent.id != id && storage.id == id ==> refused == Some(
                "repository cannot depend on one of its own descendants"@,
            )
            &&& parent.id == id || storage.id == id ==> after == view
            &&& parent.id != id && storage.id != id ==> forall|r: ForkRow| #[trigger]
                after.forks.contains(r) <==> view.forks.contains(r) && r.fork_repo_id != id
            &&& parent.id != id && storage.id != id ==> forall|r: RelatedView| #[trigger]
                after.related.contains(r) <==> view.related.contains(r) && !(r.repo_id == id && (
                r.resolution == Some("fork"@) || r.resolution == Some("mirror"@)))
        }),
{
    clearing_takes_the_parents_alone(view, id);
}

/// A view's default branch is made where its origin has it and the view does not, as a
/// branch below the view's prefix.
pub proof fn default_branches_are_made_once(
    view: RepoViewView,
    remote_exists: bool,
    local_exists: bool,
    target: Seq<char>,
)
    ensures
        ({
            let made = default_ref(view, remote_exists, local_exists, target);
            &&& made is Some <==> remote_exists && !local_exists
            &&& made matches Some((name, at)) ==> {
                &&& name == view.refs_prefix + "/heads/"@ + view.default_branch
                &&& at == trim_text(target)
            }
        }),
{
}

/// Between two times that starts are forgotten lie a second at least, a minute at most,
/// and otherwise no more than a start is waited for and less than a second short of
/// that.
pub proof fn starts_are_forgotten_in_time(ttl: int)
    requires
        ttl >= 0,
    ensures
        ({
            let seconds = cleanup_interval(ttl);
            &&& 1 <= seconds <= 60
            &&& 1000000000 <= ttl ==> seconds * 1000000000 <= ttl
            &&& ttl <= 60000000000 ==> ttl < (seconds + 1) * 1000000000
        }),
{
}

/// A checkout that is not there is missing, whatever else is told of it; of one that
/// is, the kind is told wherever it can be.
pub proof fn missing_checkouts_are_told(exists: bool, facts: KindFacts)
    ensures
        !exists ==> checkout_named(exists, facts) == "missing"@,
        exists && directory_kind(facts) is Ok ==> checkout_named(exists, facts) == directory_kind(
            facts,
        )->Ok_0,
        exists && directory_kind(facts) is Err ==> checkout_named(exists, facts) == "unknown"@,
{
}

/// A repository is created only where nothing stands at its place, and only at a forge
/// that is known; it is as visible as was asked.
pub proof fn occupied_places_are_refused(
    forges: Map<Seq<char>, ForgeConfigView>,
    authority: Seq<char>,
    visibility: RepoVisibility,
    path: Seq<char>,
    occupied: bool,
)
    ensures
        ({
            let start = create_start(forges, authority, visibility, path, occupied);
            let forge = forge_for(forges, authority);
            &&& start is Ok <==> !occupied && forge is Ok
            &&& start is Ok ==> start->Ok_0.0 == visibility && start->Ok_0.1 == forge->Ok_0
            &&& occupied ==> start->Err_0 == "target path already exists: "@ + path
            &&& !occupied && start is Err ==> start->Err_0 == forge->Err_0
        }),
{
}

/// A directory that is a repository is found, and nothing in it is looked into. One
/// that is none is not found, and what it holds is looked into next; nothing that was
/// to be looked into is forgotten.
pub proof fn repositories_are_not_looked_into(
    found: Seq<Seq<char>>,
    stack: Seq<Seq<char>>,
    path: Seq<char>,
    marks: DirectoryMarks,
    entries: Seq<DirectoryEntry>,
)
    ensures
        ({
            let (now_found, now_stack) = visited(found, stack, path, marks, entries);
            let is_repository = marks.view_file || marks.dot_git || (marks.head_file
                && marks.objects_dir && marks.refs_dir);
            &&& is_repository ==> now_found == found.push(path) && now_stack == stack
            &&& !is_repository ==> now_found == found
            &&& stack.is_prefix_of(now_stack)
            &&& !is_repository ==> forall|p: Seq<char>| #[trigger]
                now_stack.contains(p) <==> stack.contains(p) || descended(entries).contains(p)
        }),
{
    let (_, now) = visited(found, stack, path, marks, entries);
    let more = descended(entries);
    assert(now.subrange(0, stack.len() as int) =~= stack);
    if !crate::scan::repository_marks(marks) {
        assert forall|p: Seq<char>| #[trigger] now.contains(p) <==> stack.contains(p)
            || more.contains(p) by {
            if stack.contains(p) {
                let i = choose|i: int| 0 <= i < stack.len() && stack[i] == p;
                assert(now[i] == p);
            }
            if more.contains(p) {
                let i = choose|i: int| 0 <= i < more.len() && more[i] == p;
                assert(now[stack.len() + i] == p);
            }
            if now.contains(p) {
                let i = choose|i: int| 0 <= i < now.len() && now[i] == p;
                if i < stack.len() {
                    assert(stack[i] == p);
                } else {
                    assert(more[i - stack.len()] == p);
                }
            }
        }
    }
}

/// A repository answers to the locator that gives it its identity, and to every one
/// that it has or had.
pub open spec fn called(view: RegistryView, repo: RepoView, locator: LocatorView) -> bool {
    exists|i: int|
        0 <= i < view.locators.len() && (#[trigger] view.locators[i]).repo_id == repo.id && (
        repo.identity == locator.authority + "/"@ + locator.remote_path
            || view.locators[i].locator == locator)
}

pub proof fn lemma_first_answering(view: RegistryView, locator: LocatorView, i: int, k: int)
    requires
        0 <= i <= k <= view.repos.len(),
        k < view.repos.len() ==> answers_to(view, view.repos[k], locator),
        forall|j: int| i <= j < k ==> !answers_to(view, #[trigger] view.repos[j], locator),
    ensures
        first_answering(view, locator, i) == if k < view.repos.len() {
            k
        } else {
            -1
        },
    decreases k - i,
{
    if i < k {
        assert(!answers_to(view, view.repos[i], locator));
        lemma_first_answering(view, locator, i + 1, k);
    }
}

/// A move is of the first repository that is called so, from the locator that it has
/// now, and knows every locator that it has or had; the registry stays as it is. Where
/// none is called so, the locator's repository is recorded first, at the locator's
/// place, and moves from there.
pub proof fn moves_start_from_what_answers(
    view: RegistryView,
    root: Seq<char>,
    locator: LocatorView,
    k: int,
)
    requires
        0 <= k <= view.repos.len(),
        k < view.repos.len() ==> called(view, view.repos[k], locator),
        forall|j: int| 0 <= j < k ==> !called(view, #[trigger] view.repos[j], locator),
    ensures
        ({
            let (after, target) = target_of(view, root, locator);
            &&& k < view.repos.len() ==> {
                &&& after == view
                &&& target.repo_id == view.repos[k].id
                &&& target.old_locator == view.repos[k].current
                &&& forall|i: int|
                    0 <= i < view.locators.len() && (#[trigger] view.locators[i]).repo_id
                        == view.repos[k].id ==> target.historical.contains(view.locators[i].locator)
                &&& forall|h: int|
                    0 <= h < target.historical.len() ==> had(
                        view.locators,
                        view.repos[k].id,
                        #[trigger] target.historical[h],
                    )
            }
            &&& k == view.repos.len() ==> {
                &&& target.old_locator == locator
                &&& target.historical == seq![locator]
                &&& recorded_at(after.repos, target.repo_id, locator, placed(root, locator))
            }
        }),
{
    let (after, target) = target_of(view, root, locator);
    assert forall|j: int| 0 <= j < view.repos.len() implies (answers_to(
        view,
        #[trigger] view.repos[j],
        locator,
    ) <==> called(view, view.repos[j], locator)) by {}
    assert forall|j: int| 0 <= j < k implies !answers_to(
        view,
        #[trigger] view.repos[j],
        locator,
    ) by {
        assert(!called(view, view.repos[j], locator));
    }
    lemma_first_answering(view, locator, 0, k);
    if k < view.repos.len() {
        let id = view.repos[k].id;
        let p = |r: PlaceView| r.repo_id == id;
        let rows = keep(view.locators, p);
        lemma_keep(view.locators, p);
        assert forall|i: int|
            0 <= i < view.locators.len() && (#[trigger] view.locators[i]).repo_id
                == id implies target.historical.contains(view.locators[i].locator) by {
            let row = view.locators[i];
            assert(view.locators.contains(row) && p(row));
            assert(rows.contains(row));
            let h = choose|h: int| 0 <= h < rows.len() && rows[h] == row;
            assert(target.historical[h] == row.locator);
        }
        assert forall|h: int| 0 <= h < target.historical.len() implies had(
            view.locators,
            id,
            #[trigger] target.historical[h],
        ) by {
            assert(p(rows[h]));
            assert(view.locators.contains(rows[h]));
            let i = choose|i: int| 0 <= i < view.locators.len() && view.locators[i] == rows[h];
            assert(view.locators[i].locator == target.historical[h]);
        }
    } else {
        let at = lemma_recorded(view.repos, locator, placed(root, locator), None);
        assert(after.repos[at].current == locator);
    }
}

/// The repository has or had the locator.
pub open spec fn had(rows: Seq<PlaceView>, id: i64, locator: LocatorView) -> bool {
    exists|i: int|
        0 <= i < rows.len() && (#[trigger] rows[i]).repo_id == id && rows[i].locator == locator
}

/// A repository with the number is recorded with the locator at the path.
pub open spec fn recorded_at(
    repos: Seq<RepoView>,
    id: i64,
    locator: LocatorView,
    path: Seq<char>,
) -> bool {
    exists|k: int|
        0 <= k < repos.len() && (#[trigger] repos[k]).id == id && repos[k].current == locator
            && repos[k].path == path && repos[k].identity == locator.authority + "/"@
            + locator.remote_path
}

/// One that was found stands elsewhere, has a locator, and has a root commit that the
/// repository has too.
pub open spec fn has_common_root(
    place: Seq<char>,
    roots: Seq<Seq<char>>,
    other: FoundRepository,
) -> bool {
    &&& components(other.place@) != components(place)
    &&& other.locator is Some
    &&& in_common(roots, views(other.roots@))
}

/// A repository whose history is looked at is recorded at its path. Every other one
/// that was found with a root commit of it is recorded too, and noted as a pair with
/// it. Without root commits nothing is counted, and no pair changes.
pub proof fn looked_at_repositories_are_recorded(
    view: RegistryView,
    locator: LocatorView,
    path: Seq<char>,
    place: Seq<char>,
    roots: Seq<Seq<char>>,
    found: Seq<FoundRepository>,
)
    ensures
        ({
            let (after, count) = detected_history(view, locator, path, place, roots, found);
            &&& roots.len() == 0 ==> count == 0 && after.related == view.related && recorded_at(
                after.repos,
                repo_id_for(view.repos, locator.key()),
                locator,
                path,
            )
            &&& forall|i: int|
                0 <= i < found.len() && has_common_root(place, roots, #[trigger] found[i])
                    ==> is_paired(
                    after,
                    repo_id_for(view.repos, locator.key()),
                    found[i].locator->0@,
                )
            &&& (forall|i: int|
                0 <= i < found.len() ==> !has_common_root(place, roots, #[trigger] found[i]))
                ==> count == 0
            &&& after.forks == view.forks
            &&& after.worktrees == view.worktrees
            &&& after.fetches == view.fetches
        }),
{
    let recorded = with_repo(view, locator, path, None);
    let id = repo_id_for(view.repos, locator.key());
    let at = lemma_recorded(view.repos, locator, path, None);
    assert(recorded.repos[at].current == locator);
    found_history_is_noted(recorded, id, place, roots, found);
    assert forall|i: int| 0 <= i < found.len() implies (has_common_root(
        place,
        roots,
        #[trigger] found[i],
    ) <==> shares(place, roots, found[i])) by {
        shared_history_is_a_common_root(place, roots, found[i]);
    }
    lemma_none_share(place, roots, found);
}

proof fn lemma_none_share(place: Seq<char>, roots: Seq<Seq<char>>, found: Seq<FoundRepository>)
    ensures
        (forall|i: int| 0 <= i < found.len() ==> !shares(place, roots, #[trigger] found[i]))
            ==> sharing(place, roots, found) == 0,
    decreases found.len(),
{
    reveal(Seq::filter);
    if found.len() > 0 {
        let rest = found.drop_last();
        lemma_none_share(place, roots, rest);
        if forall|i: int| 0 <= i < found.len() ==> !shares(place, roots, #[trigger] found[i]) {
            assert forall|i: int| 0 <= i < rest.len() implies !shares(
                place,
                roots,
                #[trigger] rest[i],
            ) by {
                assert(rest[i] == found[i]);
            }
            assert(!shares(place, roots, found[found.len() - 1]));
        }
    }
}

proof fn lemma_related_at(rows: Seq<RelatedView>, i: int, k: int)
    requires
        0 <= i <= k < rows.len(),
        forall|j: int| i <= j < k ==> (#[trigger] rows[j]).id != rows[k].id,
    ensures
        related_at(rows, rows[k].id, i) == k,
    decreases k - i,
{
    if i < k {
        lemma_related_at(rows, i + 1, k);
    }
}

/// What the user says of a pair is noted in the pair's row, and nowhere else; what the
/// pair shares stays noted.
pub proof fn answers_go_to_their_row(rows: Seq<RelatedView>, k: int, resolution: Seq<char>)
    requires
        0 <= k < rows.len(),
        forall|j: int| 0 <= j < k ==> (#[trigger] rows[j]).id != rows[k].id,
    ensures
        ({
            let after = row_resolved(rows, rows[k].id, resolution);
            &&& after.len() == rows.len()
            &&& after[k].resolution == Some(resolution)
            &&& after[k].id == rows[k].id
            &&& after[k].repo_id == rows[k].repo_id
            &&& after[k].related_repo_id == rows[k].related_repo_id
            &&& after[k].shared_refs == rows[k].shared_refs
            &&& forall|j: int| 0 <= j < rows.len() && j != k ==> #[trigger] after[j] == rows[j]
        }),
{
    lemma_related_at(rows, 0, k);
}

/// It is said of the pair, the one that depends named first, that it is a mirror.
pub open spec fn said_mirror(rows: Seq<RelatedView>, dependent: i64, parent: i64) -> bool {
    exists|i: int|
        0 <= i < rows.len() && (#[trigger] rows[i]).repo_id == dependent && rows[i].related_repo_id
            == parent && rows[i].resolution == Some("mirror"@)
}

/// A fork gets a row that names it first and its parent second, and a mirror is said to
/// be one of its parent. Neither touches the other's rows, or anything else.
pub proof fn dependents_name_their_parent(view: RegistryView, dependent: i64, parent: i64)
    ensures
        ({
            let fork = with_dependent(view, dependent, parent, "fork"@);
            let mirror = with_dependent(view, dependent, parent, "mirror"@);
            let row = ForkRow { fork_repo_id: dependent, canonical_repo_id: parent };
            &&& fork.forks.contains(row)
            &&& fork == (RegistryView { forks: fork.forks, ..view })
            &&& said_mirror(mirror.related, dependent, parent)
            &&& mirror == (RegistryView { related: mirror.related, ..view })
        }),
{
    reveal_strlit("fork");
    reveal_strlit("mirror");
    assert("fork"@.len() != "mirror"@.len());
    forks_are_noted_once(view.forks, dependent, parent);
    lemma_pair_found(view.related, dependent, parent, 0);
    let k = pair_at(view.related, dependent, parent, 0);
    let at = if k >= 0 {
        k
    } else {
        view.related.len() as int
    };
    let after = with_dependent(view, dependent, parent, "mirror"@).related;
    assert(after[at].repo_id == dependent && after[at].related_repo_id == parent);
}

proof fn lemma_pair_found(rows: Seq<RelatedView>, a: i64, b: i64, i: int)
    requires
        0 <= i,
    ensures
        ({
            let k = pair_at(rows, a, b, i);
            k == -1 || (i <= k < rows.len() && rows[k].repo_id == a && rows[k].related_repo_id == b)
        }),
    decreases rows.len() - i,
{
    if i < rows.len() && !(rows[i].repo_id == a && rows[i].related_repo_id == b) {
        lemma_pair_found(rows, a, b, i + 1);
    }
}

} // verus!
