//! What holds of every finding of a check, and of everything that a repair does.
use crate::paths::{components, path_under};
use crate::registry::RegistryView;
use crate::registry_laws::{deleted_repositories_are_forgotten, forgotten};
use crate::registry_lists::{is_there, lemma_with_id};
use crate::repair::{
    opt_locator, DependentView, FormatView, RepairRepositoryFormatStatus, RepairStalePathStatus,
    RepairStatus, RepairUntrackedCheckoutStatus, ReportView, StaleView, UntrackedView,
};
use crate::repair_apply::operation_done;
use crate::repair_plan::{
    applied, plan_entry, with_outcome, KindView, OperationView, PlanEntry, RepairOutcome,
};
use crate::repair_report::{
    blocking, checkout_finding, checkout_findings, last_with_key, managed_path, relation_finding,
    relations_found, relations_skipped, relocated, relocates, repo_format, repo_formats, stale,
    stale_finding, stale_findings, stale_id, wants_conversion, wants_repair, whole_report,
    CheckoutFacts, RelationFacts, RelationFinding, RepairFacts, RepoFacts,
};
use crate::row_laws::{lemma_recorded, recorded_at};
use crate::text::{parsed_number, trim_text, views, words};
use vstd::prelude::*;

verus! {

/// A managed repository is at the path, however that is spelled.
pub open spec fn some_managed_at(repos: Seq<RepoFacts>, path: Seq<char>) -> bool {
    exists|i: int|
        0 <= i < repos.len() && components((#[trigger] repos[i]).comparable@) == components(path)
}

/// The repository has the locator.
pub open spec fn has_key(repo: RepoFacts, key: Seq<char>) -> bool {
    repo.locator@.authority + "/"@ + repo.locator@.remote_path == key
}

/// The last repository with the locator is the one at `k`; none has it where `k` is -1.
pub open spec fn last_of_key(repos: Seq<RepoFacts>, key: Seq<char>, k: int) -> bool {
    &&& -1 <= k < repos.len()
    &&& k >= 0 ==> has_key(repos[k], key)
    &&& forall|j: int| k < j < repos.len() ==> !has_key(#[trigger] repos[j], key)
}

proof fn lemma_last(repos: Seq<RepoFacts>, key: Seq<char>, n: int)
    requires
        0 <= n <= repos.len(),
    ensures
        ({
            let k = last_with_key(repos, key, n);
            &&& -1 <= k < n
            &&& k >= 0 ==> has_key(repos[k], key)
            &&& forall|j: int| k < j < n ==> !has_key(#[trigger] repos[j], key)
        }),
    decreases n,
{
    if n > 0 && !has_key(repos[n - 1], key) {
        lemma_last(repos, key, n - 1);
    }
}

proof fn lemma_managed_at(repos: Seq<RepoFacts>, path: Seq<char>)
    ensures
        managed_path(repos, path) == some_managed_at(repos, path),
{
    if managed_path(repos, path) {
        let i = choose|i: int|
            0 <= i < repos.len() && crate::paths::path_eq(
                (#[trigger] repos[i]).comparable@,
                path,
            );
        assert(components(repos[i].comparable@) == components(path));
    }
    if some_managed_at(repos, path) {
        let i = choose|i: int|
            0 <= i < repos.len() && components((#[trigger] repos[i]).comparable@) == components(path);
        assert(crate::paths::path_eq(repos[i].comparable@, path));
    }
}

/// A checkout that is managed where it is is no finding. Any other is one: it is passed
/// over where it has no locator or its repository is at another place that exists, and
/// is to be tracked, or was tracked, otherwise.
pub proof fn untracked_checkouts_are_found(
    repos: Seq<RepoFacts>,
    c: CheckoutFacts,
    check: bool,
    k: int,
)
    requires
        c.locator is Some ==> last_of_key(
            repos,
            c.locator->0@.authority + "/"@ + c.locator->0@.remote_path,
            k,
        ),
    ensures
        ({
            let found = checkout_finding(repos, c, check);
            let passed_over = c.locator is None || (k >= 0 && repos[k].exists);
            &&& found is None <==> some_managed_at(repos, c.comparable@)
            &&& found is Some ==> {
                &&& found->0.path == c.path@
                &&& found->0.locator == opt_locator(c.locator)
                &&& found->0.reasons.len() == 1
                &&& found->0.status == RepairUntrackedCheckoutStatus::Skipped <==> passed_over
                &&& found->0.status == RepairUntrackedCheckoutStatus::NeedsTracking
                    <==> !passed_over && check
                &&& found->0.status == RepairUntrackedCheckoutStatus::NowTracked <==> !passed_over
                    && !check
            }
        }),
{
    lemma_managed_at(repos, c.comparable@);
    if c.locator is Some {
        let key = c.locator->0@.key();
        lemma_last(repos, key, repos.len() as int);
        let last = last_with_key(repos, key, repos.len() as int);
        if last > k {
            assert(!has_key(repos[last], key));
        }
        if k > last {
            assert(!has_key(repos[k], key));
        }
    }
}

/// The format of a repository is a finding exactly where repositories are to be bare,
/// it lies below the root and is no view, and it is not bare or that could not be told;
/// a fork or mirror that shares the Git directory of another is not. It is to be
/// converted, or was, or is passed over with what stopped it.
pub proof fn formats_are_judged(facts: RepairFacts, repo: RepoFacts, check: bool)
    ensures
        ({
            let found = repo_format(facts, repo, check);
            let is_dependent = exists|i: int|
                0 <= i < facts.snapshot@.len() && (#[trigger] facts.snapshot@[i]).dependent_repo_id
                    == repo.id;
            let matters = facts.clone_as_bare && repo.exists && path_under(
                repo.comparable@,
                facts.clone_root@,
            ) && !repo.view;
            let unsound = repo.bare is Ok && !repo.bare->Ok_0 && !(is_dependent
                && repo.shares_git_dir);
            &&& found is Some <==> matters && (repo.bare is Err || unsound)
            &&& found is Some ==> {
                &&& found->0.repo_id == repo.id
                &&& found->0.locator == repo.locator@
                &&& found->0.path == repo.path@
                &&& found->0.status == RepairRepositoryFormatStatus::NeedsBareConversion <==> unsound
                    && check
                &&& found->0.status == RepairRepositoryFormatStatus::ConvertedToBare <==> unsound
                    && !check && repo.conversion is Ok
                &&& repo.bare is Err ==> found->0.reasons == seq![repo.bare->Err_0@]
                &&& unsound && !check && repo.conversion is Err ==> found->0.reasons == seq![
                    repo.conversion->Err_0@,
                ]
            }
        }),
{
    assert(crate::repair_report::depends(facts.snapshot@, repo.id) <==> exists|i: int|
        0 <= i < facts.snapshot@.len() && (#[trigger] facts.snapshot@[i]).dependent_repo_id
            == repo.id);
}

/// A repository that is there is not stale; one that is not is stale unless a checkout
/// with its locator was found at a place that none is managed at.
pub proof fn gone_repositories_are_stale(facts: RepairFacts, repo: RepoFacts, k: int)
    requires
        last_of_key(
            facts.repos@,
            repo.locator@.authority + "/"@ + repo.locator@.remote_path,
            k,
        ),
        k >= 0,
        !facts.repos@[k].exists,
    ensures
        ({
            let found_elsewhere = exists|i: int|
                0 <= i < facts.checkouts@.len() && (#[trigger] facts.checkouts@[i]).locator is Some
                    && facts.checkouts@[i].locator->0@.authority + "/"@
                    + facts.checkouts@[i].locator->0@.remote_path == repo.locator@.authority + "/"@
                    + repo.locator@.remote_path && !some_managed_at(
                    facts.repos@,
                    facts.checkouts@[i].comparable@,
                );
            stale(facts, repo) <==> !repo.exists && !found_elsewhere
        }),
{
    let key = repo.locator@.key();
    lemma_last(facts.repos@, key, facts.repos@.len() as int);
    let last = last_with_key(facts.repos@, key, facts.repos@.len() as int);
    if last > k {
        assert(!has_key(facts.repos@[last], key));
    }
    if k > last {
        assert(!has_key(facts.repos@[k], key));
    }
    if relocated(facts.repos@, facts.checkouts@, key) {
        let i = choose|i: int|
            0 <= i < facts.checkouts@.len() && relocates(
                facts.repos@,
                #[trigger] facts.checkouts@[i],
                key,
            );
        lemma_managed_at(facts.repos@, facts.checkouts@[i].comparable@);
    }
    assert forall|i: int|
        0 <= i < facts.checkouts@.len() && (#[trigger] facts.checkouts@[i]).locator is Some
            && facts.checkouts@[i].locator->0@.key() == key && !some_managed_at(
            facts.repos@,
            facts.checkouts@[i].comparable@,
        ) implies relocates(facts.repos@, facts.checkouts@[i], key) by {
        lemma_managed_at(facts.repos@, facts.checkouts@[i].comparable@);
    }
}

/// A repository whose path exists is not stale.
pub proof fn present_repositories_are_not_stale(facts: RepairFacts, repo: RepoFacts)
    requires
        repo.exists,
    ensures
        !stale(facts, repo),
{
}

/// The relationship is one of an existing fork or mirror of the repository.
pub open spec fn blocks(rel: RelationFacts, id: i64, d: DependentView) -> bool {
    &&& rel.controlling_repo_id == id
    &&& rel.dependent_exists
    &&& d.relationship == rel.relationship@
    &&& d.locator == rel.dependent_locator@
    &&& d.path == rel.dependent_path@
}

/// Pruning is blocked by the existing forks and mirrors of the repository, and by
/// nothing else.
pub proof fn existing_dependents_block(relations: Seq<RelationFacts>, id: i64, d: DependentView)
    ensures
        blocking(relations, id).contains(d) <==> exists|i: int|
            0 <= i < relations.len() && blocks(#[trigger] relations[i], id, d),
    decreases relations.len(),
{
    if relations.len() > 0 {
        let rest = relations.drop_last();
        let last = relations.last();
        let before = blocking(rest, id);
        let list = blocking(relations, id);
        existing_dependents_block(rest, id, d);
        assert(relations[relations.len() - 1] == last);
        assert(forall|i: int| 0 <= i < rest.len() ==> #[trigger] rest[i] == relations[i]);
        if list.contains(d) {
            let m = choose|m: int| 0 <= m < list.len() && list[m] == d;
            if m < before.len() {
                assert(before[m] == d);
                let i = choose|i: int| 0 <= i < rest.len() && blocks(#[trigger] rest[i], id, d);
                assert(blocks(relations[i], id, d));
            } else {
                assert(blocks(relations[relations.len() - 1], id, d));
            }
        }
        if exists|i: int| 0 <= i < relations.len() && blocks(#[trigger] relations[i], id, d) {
            let i = choose|i: int|
                0 <= i < relations.len() && blocks(#[trigger] relations[i], id, d);
            if i < rest.len() {
                assert(blocks(rest[i], id, d));
                let m = choose|m: int| 0 <= m < before.len() && before[m] == d;
                assert(list[m] == d);
            } else {
                assert(list[before.len() as int] == d);
            }
        }
    }
}

/// A stale repository is reported as what it was; it is blocked where a fork or mirror
/// of it exists, and is to be pruned, or was, otherwise.
pub proof fn stale_repositories_are_judged(facts: RepairFacts, repo: RepoFacts, check: bool)
    ensures
        ({
            let found = stale_finding(facts, repo, check);
            let needed = exists|i: int|
                0 <= i < facts.snapshot@.len() && (
                #[trigger] facts.snapshot@[i]).controlling_repo_id == repo.id
                    && facts.snapshot@[i].dependent_exists;
            &&& found.repo_id == repo.id
            &&& found.locator == repo.locator@
            &&& found.path == repo.path@
            &&& found.status == RepairStalePathStatus::Blocked <==> needed
            &&& found.status == RepairStalePathStatus::NeedsPrune <==> !needed && check
            &&& found.status == RepairStalePathStatus::Pruned <==> !needed && !check
        }),
{
    let list = blocking(facts.snapshot@, repo.id);
    if list.len() > 0 {
        existing_dependents_block(facts.snapshot@, repo.id, list[0]);
        assert(list.contains(list[0]));
    }
    assert forall|i: int|
        0 <= i < facts.snapshot@.len() && (#[trigger] facts.snapshot@[i]).controlling_repo_id
            == repo.id && facts.snapshot@[i].dependent_exists implies list.len() > 0 by {
        let rel = facts.snapshot@[i];
        let d = DependentView {
            relationship: rel.relationship@,
            locator: rel.dependent_locator@,
            path: rel.dependent_path@,
        };
        assert(blocks(facts.snapshot@[i], repo.id, d));
        existing_dependents_block(facts.snapshot@, repo.id, d);
    }
}

/// A relationship is not looked at where a repository of it is gone, is passed over
/// where a checkout is missing or it could not be read, and is otherwise sound exactly
/// where nothing is wrong with it; else it is to be repaired, or was, or is passed over
/// with what stopped it.
pub proof fn relationships_are_judged(facts: RepairFacts, rel: RelationFacts, check: bool)
    ensures
        ({
            let found = relation_finding(facts, rel, check);
            let gone = stale_id(facts, rel.dependent_repo_id) || stale_id(
                facts,
                rel.controlling_repo_id,
            );
            let readable = rel.dependent_exists && rel.controlling_exists && rel.reasons is Ok;
            let sound = readable && rel.reasons->Ok_0@.len() == 0;
            let unsound = readable && rel.reasons->Ok_0@.len() > 0;
            &&& found is Nothing <==> gone
            &&& found is Skip <==> !gone && (!readable || (unsound && !check && rel.materialized
                is Err))
            &&& found is Skip && rel.dependent_exists && rel.controlling_exists && rel.reasons
                is Err ==> found->Skip_0.reason == rel.reasons->Err_0@
            &&& found is Skip && unsound ==> found->Skip_0.reason == rel.materialized->Err_0@
            &&& found is Found ==> {
                let x = found->Found_0;
                &&& x.relationship == rel.relationship@
                &&& x.dependent_locator == rel.dependent_locator@
                &&& x.dependent_path == rel.dependent_path@
                &&& x.controlling_locator == rel.controlling_locator@
                &&& x.controlling_path == rel.controlling_path@
                &&& x.reasons == views(rel.reasons->Ok_0@)
                &&& x.status == RepairStatus::Sound <==> sound
                &&& x.status == RepairStatus::NeedsRepair <==> unsound && check
                &&& x.status == RepairStatus::Repaired <==> unsound && !check
                &&& unsound && !check ==> x.shared_git_dir == Some(rel.materialized->Ok_0@)
                &&& sound || check ==> x.shared_git_dir is None
            }
        }),
{
    if rel.reasons is Ok && rel.reasons->Ok_0@.len() == 0 {
        assert(views(rel.reasons->Ok_0@) =~= seq![]);
    }
}

/// What a repair sets out to do is what a check asks for: the repositories that are
/// converted and the relationships that are repaired are those that were to be.
pub proof fn repairs_do_what_checks_ask(facts: RepairFacts, repo: RepoFacts, rel: RelationFacts)
    ensures
        wants_conversion(facts, repo) <==> (repo_format(facts, repo, true) is Some && repo_format(
            facts,
            repo,
            true,
        )->0.status == RepairRepositoryFormatStatus::NeedsBareConversion),
        wants_repair(facts, rel) <==> (relation_finding(facts, rel, true) is Found
            && relation_finding(facts, rel, true)->Found_0.status == RepairStatus::NeedsRepair),
{
}

proof fn lemma_checkouts_listed(repos: Seq<RepoFacts>, cs: Seq<CheckoutFacts>, check: bool)
    ensures
        ({
            let list = checkout_findings(repos, cs, check);
            &&& forall|i: int|
                0 <= i < cs.len() ==> (checkout_finding(repos, #[trigger] cs[i], check) is Some
                    ==> list.contains(checkout_finding(repos, cs[i], check)->0))
            &&& forall|x: UntrackedView| #[trigger]
                list.contains(x) ==> exists|i: int|
                    0 <= i < cs.len() && checkout_finding(repos, #[trigger] cs[i], check) == Some(x)
        }),
    decreases cs.len(),
{
    if cs.len() > 0 {
        let rest = cs.drop_last();
        let before = checkout_findings(repos, rest, check);
        let list = checkout_findings(repos, cs, check);
        lemma_checkouts_listed(repos, rest, check);
        assert(cs[cs.len() - 1] == cs.last());
        assert forall|i: int|
            0 <= i < cs.len() && checkout_finding(
                repos,
                #[trigger] cs[i],
                check,
            ) is Some implies list.contains(checkout_finding(repos, cs[i], check)->0) by {
            let x = checkout_finding(repos, cs[i], check)->0;
            if i < rest.len() {
                assert(rest[i] == cs[i]);
                let m = choose|m: int| 0 <= m < before.len() && before[m] == x;
                assert(list[m] == x);
            } else {
                assert(list[before.len() as int] == x);
            }
        }
        assert forall|x: UntrackedView| #[trigger] list.contains(x) implies exists|i: int|
            0 <= i < cs.len() && checkout_finding(repos, #[trigger] cs[i], check) == Some(x) by {
            let m = choose|m: int| 0 <= m < list.len() && list[m] == x;
            if m < before.len() {
                assert(before[m] == x);
                assert(before.contains(x));
                let i = choose|i: int|
                    0 <= i < rest.len() && checkout_finding(repos, #[trigger] rest[i], check)
                        == Some(x);
                assert(cs[i] == rest[i]);
            } else {
                assert(checkout_finding(repos, cs[cs.len() - 1], check) == Some(x));
            }
        }
    }
}

proof fn lemma_formats_listed(facts: RepairFacts, repos: Seq<RepoFacts>, check: bool)
    ensures
        ({
            let list = repo_formats(facts, repos, check);
            &&& forall|i: int|
                0 <= i < repos.len() ==> (repo_format(facts, #[trigger] repos[i], check) is Some
                    ==> list.contains(repo_format(facts, repos[i], check)->0))
            &&& forall|x: FormatView| #[trigger]
                list.contains(x) ==> exists|i: int|
                    0 <= i < repos.len() && repo_format(facts, #[trigger] repos[i], check) == Some(x)
        }),
    decreases repos.len(),
{
    if repos.len() > 0 {
        let rest = repos.drop_last();
        let before = repo_formats(facts, rest, check);
        let list = repo_formats(facts, repos, check);
        lemma_formats_listed(facts, rest, check);
        assert(repos[repos.len() - 1] == repos.last());
        assert forall|i: int|
            0 <= i < repos.len() && repo_format(
                facts,
                #[trigger] repos[i],
                check,
            ) is Some implies list.contains(repo_format(facts, repos[i], check)->0) by {
            let x = repo_format(facts, repos[i], check)->0;
            if i < rest.len() {
                assert(rest[i] == repos[i]);
                let m = choose|m: int| 0 <= m < before.len() && before[m] == x;
                assert(list[m] == x);
            } else {
                assert(list[before.len() as int] == x);
            }
        }
        assert forall|x: FormatView| #[trigger] list.contains(x) implies exists|i: int|
            0 <= i < repos.len() && repo_format(facts, #[trigger] repos[i], check) == Some(x) by {
            let m = choose|m: int| 0 <= m < list.len() && list[m] == x;
            if m < before.len() {
                assert(before[m] == x);
                assert(before.contains(x));
                let i = choose|i: int|
                    0 <= i < rest.len() && repo_format(facts, #[trigger] rest[i], check) == Some(x);
                assert(repos[i] == rest[i]);
            } else {
                assert(repo_format(facts, repos[repos.len() - 1], check) == Some(x));
            }
        }
    }
}

proof fn lemma_stale_listed(facts: RepairFacts, repos: Seq<RepoFacts>, check: bool)
    ensures
        ({
            let list = stale_findings(facts, repos, check);
            &&& forall|i: int|
                0 <= i < repos.len() ==> (stale(facts, #[trigger] repos[i]) ==> list.contains(
                    stale_finding(facts, repos[i], check),
                ))
            &&& forall|x: StaleView| #[trigger]
                list.contains(x) ==> exists|i: int|
                    0 <= i < repos.len() && stale(facts, #[trigger] repos[i]) && x == stale_finding(
                        facts,
                        repos[i],
                        check,
                    )
        }),
    decreases repos.len(),
{
    if repos.len() > 0 {
        let rest = repos.drop_last();
        let before = stale_findings(facts, rest, check);
        let list = stale_findings(facts, repos, check);
        lemma_stale_listed(facts, rest, check);
        assert(repos[repos.len() - 1] == repos.last());
        assert forall|i: int|
            0 <= i < repos.len() && stale(facts, #[trigger] repos[i]) implies list.contains(
            stale_finding(facts, repos[i], check),
        ) by {
            let x = stale_finding(facts, repos[i], check);
            if i < rest.len() {
                assert(rest[i] == repos[i]);
                let m = choose|m: int| 0 <= m < before.len() && before[m] == x;
                assert(list[m] == x);
            } else {
                assert(list[before.len() as int] == x);
            }
        }
        assert forall|x: StaleView| #[trigger] list.contains(x) implies exists|i: int|
            0 <= i < repos.len() && stale(facts, #[trigger] repos[i]) && x == stale_finding(
                facts,
                repos[i],
                check,
            ) by {
            let m = choose|m: int| 0 <= m < list.len() && list[m] == x;
            if m < before.len() {
                assert(before[m] == x);
                assert(before.contains(x));
                let i = choose|i: int|
                    0 <= i < rest.len() && stale(facts, #[trigger] rest[i]) && x == stale_finding(
                        facts,
                        rest[i],
                        check,
                    );
                assert(repos[i] == rest[i]);
            } else {
                assert(stale(facts, repos[repos.len() - 1]));
            }
        }
    }
}

proof fn lemma_relations_listed(facts: RepairFacts, rels: Seq<RelationFacts>, check: bool, i: int)
    requires
        0 <= i < rels.len(),
    ensures
        ({
            let finding = relation_finding(facts, rels[i], check);
            &&& finding is Found ==> relations_found(facts, rels, check).contains(finding->Found_0)
            &&& finding is Skip ==> relations_skipped(facts, rels, check).contains(finding->Skip_0)
        }),
    decreases rels.len(),
{
    let rest = rels.drop_last();
    let found = relations_found(facts, rest, check);
    let skipped = relations_skipped(facts, rest, check);
    let finding = relation_finding(facts, rels[i], check);
    if i < rest.len() {
        lemma_relations_listed(facts, rest, check, i);
        assert(rest[i] == rels[i]);
        if finding is Found {
            let m = choose|m: int| 0 <= m < found.len() && found[m] == finding->Found_0;
            assert(relations_found(facts, rels, check)[m] == finding->Found_0);
        }
        if finding is Skip {
            let m = choose|m: int| 0 <= m < skipped.len() && skipped[m] == finding->Skip_0;
            assert(relations_skipped(facts, rels, check)[m] == finding->Skip_0);
        }
    } else {
        if finding is Found {
            assert(relations_found(facts, rels, check)[found.len() as int] == finding->Found_0);
        }
        if finding is Skip {
            assert(relations_skipped(facts, rels, check)[skipped.len() as int] == finding->Skip_0);
        }
    }
}

/// The report holds every finding: on each checkout, on the format and on the place of
/// each repository, and on each relationship.
pub proof fn reports_hold_every_finding(facts: RepairFacts, check: bool, i: int)
    ensures
        ({
            let report = whole_report(facts, check);
            &&& report.check == check
            &&& 0 <= i < facts.checkouts@.len() ==> (checkout_finding(
                facts.repos@,
                facts.checkouts@[i],
                check,
            ) matches Some(x) ==> report.untracked_checkouts.contains(x))
            &&& 0 <= i < facts.repos@.len() ==> (repo_format(facts, facts.repos@[i], check) matches Some(
                x,
            ) ==> report.repository_formats.contains(x))
            &&& 0 <= i < facts.repos@.len() && stale(facts, facts.repos@[i])
                ==> report.stale_paths.contains(stale_finding(facts, facts.repos@[i], check))
            &&& 0 <= i < facts.relationships@.len() ==> (relation_finding(
                facts,
                facts.relationships@[i],
                check,
            ) matches RelationFinding::Found(x) ==> report.relationships.contains(x))
            &&& 0 <= i < facts.relationships@.len() ==> (relation_finding(
                facts,
                facts.relationships@[i],
                check,
            ) matches RelationFinding::Skip(x) ==> report.skipped.contains(x))
        }),
{
    lemma_checkouts_listed(facts.repos@, facts.checkouts@, check);
    lemma_formats_listed(facts, facts.repos@, check);
    lemma_stale_listed(facts, facts.repos@, check);
    if 0 <= i < facts.relationships@.len() {
        lemma_relations_listed(facts, facts.relationships@, check, i);
    }
}

/// The report holds nothing but findings on what was looked at.
pub proof fn reports_hold_findings_alone(facts: RepairFacts, check: bool)
    ensures
        ({
            let report = whole_report(facts, check);
            &&& forall|x: UntrackedView| #[trigger]
                report.untracked_checkouts.contains(x) ==> exists|i: int|
                    0 <= i < facts.checkouts@.len() && checkout_finding(
                        facts.repos@,
                        #[trigger] facts.checkouts@[i],
                        check,
                    ) == Some(x)
            &&& forall|x: FormatView| #[trigger]
                report.repository_formats.contains(x) ==> exists|i: int|
                    0 <= i < facts.repos@.len() && repo_format(
                        facts,
                        #[trigger] facts.repos@[i],
                        check,
                    ) == Some(x)
            &&& forall|x: StaleView| #[trigger]
                report.stale_paths.contains(x) ==> exists|i: int|
                    0 <= i < facts.repos@.len() && stale(facts, #[trigger] facts.repos@[i]) && x
                        == stale_finding(facts, facts.repos@[i], check)
        }),
{
    lemma_checkouts_listed(facts.repos@, facts.checkouts@, check);
    lemma_formats_listed(facts, facts.repos@, check);
    lemma_stale_listed(facts, facts.repos@, check);
}

/// What one more operation adds to a report: the finding it was about, with what came
/// of it.
pub open spec fn adds_outcome(
    before: ReportView,
    after: ReportView,
    kind: KindView,
    outcome: RepairOutcome,
) -> bool {
    match kind {
        KindView::PruneStale(x) => {
            &&& after == (ReportView { stale_paths: after.stale_paths, ..before })
            &&& after.stale_paths.drop_last() == before.stale_paths
            &&& after.stale_paths.len() == before.stale_paths.len() + 1
            &&& after.stale_paths.last().repo_id == x.repo_id
            &&& after.stale_paths.last().locator == x.locator
            &&& after.stale_paths.last().path == x.path
            &&& after.stale_paths.last().status == RepairStalePathStatus::Pruned
        },
        KindView::ConvertRepositoryFormat(x) => {
            let last = after.repository_formats.last();
            &&& after == (ReportView { repository_formats: after.repository_formats, ..before })
            &&& after.repository_formats.drop_last() == before.repository_formats
            &&& after.repository_formats.len() == before.repository_formats.len() + 1
            &&& last.repo_id == x.repo_id
            &&& last.locator == x.locator
            &&& last.path == x.path
            &&& outcome is Failed ==> last.status == RepairRepositoryFormatStatus::Skipped
                && last.reasons == seq![outcome->Failed_0@]
            &&& !(outcome is Failed) ==> last.status
                == RepairRepositoryFormatStatus::ConvertedToBare
        },
        KindView::TrackUnmanagedCheckout(x) => {
            let last = after.untracked_checkouts.last();
            &&& after == (ReportView { untracked_checkouts: after.untracked_checkouts, ..before })
            &&& after.untracked_checkouts.drop_last() == before.untracked_checkouts
            &&& after.untracked_checkouts.len() == before.untracked_checkouts.len() + 1
            &&& last.locator == x.locator
            &&& last.path == x.path
            &&& last.status == RepairUntrackedCheckoutStatus::NowTracked <==> x.locator is Some
            &&& last.status == RepairUntrackedCheckoutStatus::Skipped <==> x.locator is None
        },
        KindView::RepairRelationship(x) => match outcome {
            RepairOutcome::Shared(shared) => {
                let last = after.relationships.last();
                &&& after == (ReportView { relationships: after.relationships, ..before })
                &&& after.relationships.drop_last() == before.relationships
                &&& after.relationships.len() == before.relationships.len() + 1
                &&& last.relationship == x.relationship
                &&& last.dependent_locator == x.dependent_locator
                &&& last.dependent_path == x.dependent_path
                &&& last.controlling_locator == x.controlling_locator
                &&& last.controlling_path == x.controlling_path
                &&& last.reasons == x.reasons
                &&& last.status == RepairStatus::Repaired
                &&& last.shared_git_dir == Some(shared@)
            },
            RepairOutcome::Failed(text) => {
                let last = after.skipped.last();
                &&& after == (ReportView { skipped: after.skipped, ..before })
                &&& after.skipped.drop_last() == before.skipped
                &&& after.skipped.len() == before.skipped.len() + 1
                &&& last.relationship == x.relationship
                &&& last.dependent_locator == x.dependent_locator
                &&& last.controlling_locator == x.controlling_locator
                &&& last.reason == text@
            },
            RepairOutcome::Done => after == before,
        },
    }
}

/// Each operation adds what came of it to the report, and changes nothing else there.
pub proof fn outcomes_are_added(report: ReportView, kind: KindView, outcome: RepairOutcome)
    ensures
        adds_outcome(report, with_outcome(report, kind, outcome), kind, outcome),
{
    let after = with_outcome(report, kind, outcome);
    assert(after.stale_paths.len() > report.stale_paths.len() ==> after.stale_paths.drop_last()
        =~= report.stale_paths);
    assert(after.repository_formats.len() > report.repository_formats.len()
        ==> after.repository_formats.drop_last() =~= report.repository_formats);
    assert(after.untracked_checkouts.len() > report.untracked_checkouts.len()
        ==> after.untracked_checkouts.drop_last() =~= report.untracked_checkouts);
    assert(after.relationships.len() > report.relationships.len()
        ==> after.relationships.drop_last() =~= report.relationships);
    assert(after.skipped.len() > report.skipped.len() ==> after.skipped.drop_last()
        =~= report.skipped);
}

/// The report of a repair is made of the operations that were picked, in their order,
/// each with its own outcome; one that was not picked leaves no trace.
pub proof fn picked_operations_are_reported(
    operations: Seq<OperationView>,
    selected: Seq<nat>,
    outcomes: Seq<RepairOutcome>,
    operation: OperationView,
    outcome: RepairOutcome,
)
    requires
        outcomes.len() == operations.len(),
    ensures
        ({
            let before = applied(operations, selected, outcomes);
            let after = applied(operations.push(operation), selected, outcomes.push(outcome));
            &&& selected.contains(operation.id) ==> adds_outcome(
                before,
                after,
                operation.kind,
                outcome,
            )
            &&& !selected.contains(operation.id) ==> after == before
        }),
{
    let all = operations.push(operation);
    let ends = outcomes.push(outcome);
    assert(all.drop_last() =~= operations);
    lemma_applied_prefix(operations, selected, outcomes, ends);
    outcomes_are_added(applied(operations, selected, outcomes), operation.kind, outcome);
}

proof fn lemma_applied_prefix(
    operations: Seq<OperationView>,
    selected: Seq<nat>,
    a: Seq<RepairOutcome>,
    b: Seq<RepairOutcome>,
)
    requires
        operations.len() <= a.len(),
        operations.len() <= b.len(),
        forall|i: int| 0 <= i < operations.len() ==> #[trigger] a[i] == b[i],
    ensures
        applied(operations, selected, a) == applied(operations, selected, b),
    decreases operations.len(),
{
    if operations.len() > 0 {
        lemma_applied_prefix(operations.drop_last(), selected, a, b);
        assert(a[operations.len() - 1] == b[operations.len() - 1]);
    }
}

/// An operation does to the registry what it says: pruning forgets the repository, and
/// is refused where it is not known; tracking records the checkout where it is; the
/// others change nothing.
pub proof fn operations_do_what_they_say(view: RegistryView, kind: KindView)
    ensures
        ({
            let (after, stopped) = operation_done(view, kind);
            &&& kind matches KindView::PruneStale(x) ==> {
                &&& stopped is None <==> is_there(view.repos, x.repo_id)
                &&& stopped is None ==> forgotten(after, x.repo_id)
                &&& stopped is Some ==> after == view
            }
            &&& kind matches KindView::TrackUnmanagedCheckout(x) ==> {
                &&& stopped is None
                &&& x.locator is None ==> after == view
                &&& x.locator is Some ==> exists|id: i64| #[trigger]
                    recorded_at(after.repos, id, (x.locator->0, x.path))
            }
            &&& kind is ConvertRepositoryFormat || kind is RepairRelationship ==> after == view
                && stopped is None
        }),
{
    let (after, stopped) = operation_done(view, kind);
    match kind {
        KindView::PruneStale(x) => {
            lemma_with_id(view.repos, x.repo_id, 0);
            deleted_repositories_are_forgotten(view, x.repo_id);
        },
        KindView::TrackUnmanagedCheckout(x) => {
            if x.locator is Some {
                let at = lemma_recorded(view.repos, x.locator->0, x.path, None);
                assert(recorded_at(after.repos, after.repos[at].id, (x.locator->0, x.path)));
            }
        },
        _ => {},
    }
}

/// A line of an edited plan picks or drops an operation exactly where it begins with a
/// word for that and then has the number of one that no earlier line named. Empty lines
/// and remarks say nothing, and anything else is refused.
pub proof fn plan_lines_pick_and_drop(
    line: Seq<char>,
    number: nat,
    ids: Seq<nat>,
    seen: Seq<nat>,
    id: nat,
)
    ensures
        ({
            let entry = plan_entry(line, number, ids, seen);
            let t = trim_text(line);
            let w = words(t);
            let silent = t.len() == 0 || t[0] == '#';
            let names = !silent && w.len() >= 2 && parsed_number(w[1], usize::MAX as nat) == Some(id)
                && ids.contains(id) && !seen.contains(id);
            let picks = w[0] == "pick"@ || w[0] == "p"@ || w[0] == "apply"@;
            let drops = w[0] == "drop"@ || w[0] == "d"@ || w[0] == "skip"@ || w[0] == "s"@;
            &&& entry == Ok::<PlanEntry, Seq<char>>(PlanEntry::Nothing) <==> silent
            &&& entry == Ok::<PlanEntry, Seq<char>>(PlanEntry::Pick(id)) <==> names && picks
            &&& entry == Ok::<PlanEntry, Seq<char>>(PlanEntry::Drop(id)) <==> names && drops
        }),
{
    reveal_strlit("pick");
    reveal_strlit("p");
    reveal_strlit("apply");
    reveal_strlit("drop");
    reveal_strlit("d");
    reveal_strlit("skip");
    reveal_strlit("s");
    assert("pick"@[0] == 'p' && "p"@[0] == 'p' && "apply"@[0] == 'a');
    assert("drop"@[0] == 'd' && "d"@[0] == 'd' && "skip"@[0] == 's' && "s"@[0] == 's');
}

} // verus!
