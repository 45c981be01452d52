//! What holds of every check, repair and repair plan.
use crate::paths::{lemma_path_less_total, lemma_path_less_trans, path_eq, path_less};
use crate::registry::keep;
use crate::repair::{
    needs_repair, FormatView, RelationshipView, RepairRepositoryFormatStatus, RepairStalePathStatus,
    RepairStatus, RepairUntrackedCheckoutStatus, ReportView, StaleView, UntrackedView,
};
use crate::repair_plan::{
    add_path, applied, asked_for, conversions, convertible, numbered, operation_ids, path_slot,
    plan_entry, plan_header, plan_line, plan_lines, plan_text, prunable, read_plan, repairable,
    trackable, with_outcome, KindView, OperationView, PlanEntry, PlanState, RepairOutcome,
};
use crate::repair_report::{
    checkout_findings, relations_found, repo_formats, stale_findings, whole_report, CheckoutFacts,
    RelationFacts, RepairFacts, RepoFacts,
};
use crate::text::{
    decimal, find_from, is_digit, is_white, lemma_decimal_reads_back, lemma_skip_back, lines,
    skip_back, skip_from, trim_text, white_fn, without_return, word_fn, words, words_from,
};
use vstd::prelude::*;

verus! {

/// Statuses that only a check gives.
pub open spec fn only_checked(report: ReportView) -> bool {
    &&& forall|i: int|
        0 <= i < report.repository_formats.len() ==> (
        #[trigger] report.repository_formats[i]).status
            != RepairRepositoryFormatStatus::ConvertedToBare
    &&& forall|i: int|
        0 <= i < report.stale_paths.len() ==> (#[trigger] report.stale_paths[i]).status
            != RepairStalePathStatus::Pruned
    &&& forall|i: int|
        0 <= i < report.untracked_checkouts.len() ==> (
        #[trigger] report.untracked_checkouts[i]).status
            != RepairUntrackedCheckoutStatus::NowTracked
    &&& forall|i: int|
        0 <= i < report.relationships.len() ==> (#[trigger] report.relationships[i]).status
            != RepairStatus::Repaired
}

proof fn lemma_formats(facts: RepairFacts, repos: Seq<RepoFacts>, check: bool)
    ensures
        forall|i: int|
            0 <= i < repo_formats(facts, repos, check).len() ==> (#[trigger] repo_formats(
                facts,
                repos,
                check,
            )[i]).status != if check {
                RepairRepositoryFormatStatus::ConvertedToBare
            } else {
                RepairRepositoryFormatStatus::NeedsBareConversion
            },
    decreases repos.len(),
{
    if repos.len() > 0 {
        lemma_formats(facts, repos.drop_last(), check);
    }
}

proof fn lemma_stale(facts: RepairFacts, repos: Seq<RepoFacts>, check: bool)
    ensures
        forall|i: int|
            0 <= i < stale_findings(facts, repos, check).len() ==> {
                let found = #[trigger] stale_findings(facts, repos, check)[i];
                &&& found.status != if check {
                    RepairStalePathStatus::Pruned
                } else {
                    RepairStalePathStatus::NeedsPrune
                }
                &&& found.status == RepairStalePathStatus::Blocked
                    <==> found.blocking_dependents.len() > 0
            },
    decreases repos.len(),
{
    if repos.len() > 0 {
        lemma_stale(facts, repos.drop_last(), check);
    }
}

proof fn lemma_checkouts(repos: Seq<RepoFacts>, checkouts: Seq<CheckoutFacts>, check: bool)
    ensures
        forall|i: int|
            0 <= i < checkout_findings(repos, checkouts, check).len() ==> {
                let found = #[trigger] checkout_findings(repos, checkouts, check)[i];
                &&& found.status != if check {
                    RepairUntrackedCheckoutStatus::NowTracked
                } else {
                    RepairUntrackedCheckoutStatus::NeedsTracking
                }
                &&& found.status == RepairUntrackedCheckoutStatus::NeedsTracking
                    ==> found.locator is Some
            },
    decreases checkouts.len(),
{
    if checkouts.len() > 0 {
        lemma_checkouts(repos, checkouts.drop_last(), check);
    }
}

proof fn lemma_relations(facts: RepairFacts, rels: Seq<RelationFacts>, check: bool)
    ensures
        forall|i: int|
            0 <= i < relations_found(facts, rels, check).len() ==> (#[trigger] relations_found(
                facts,
                rels,
                check,
            )[i]).status != if check {
                RepairStatus::Repaired
            } else {
                RepairStatus::NeedsRepair
            },
    decreases rels.len(),
{
    if rels.len() > 0 {
        lemma_relations(facts, rels.drop_last(), check);
    }
}

/// A check only finds: it reports nothing as changed.
pub proof fn checks_change_nothing(facts: RepairFacts)
    ensures
        only_checked(whole_report(facts, true)),
{
    lemma_formats(facts, facts.repos@, true);
    lemma_stale(facts, facts.repos@, true);
    lemma_checkouts(facts.repos@, facts.checkouts@, true);
    lemma_relations(facts, facts.relationships@, true);
}

/// A repair reports nothing that is still to be repaired: what it could not do it
/// reports as skipped or blocked.
pub proof fn repairs_leave_nothing_open(facts: RepairFacts)
    ensures
        !needs_repair(whole_report(facts, false)),
{
    lemma_formats(facts, facts.repos@, false);
    lemma_stale(facts, facts.repos@, false);
    lemma_checkouts(facts.repos@, facts.checkouts@, false);
    lemma_relations(facts, facts.relationships@, false);
}

/// A managed repository whose checkout is gone is never pruned while a fork or
/// mirror depends on it.
pub proof fn needed_repositories_are_not_pruned(facts: RepairFacts, check: bool)
    ensures
        forall|i: int|
            0 <= i < whole_report(facts, check).stale_paths.len() ==> {
                let found = #[trigger] whole_report(facts, check).stale_paths[i];
                found.status == RepairStalePathStatus::Blocked
                    <==> found.blocking_dependents.len() > 0
            },
{
    lemma_stale(facts, facts.repos@, check);
}

proof fn lemma_prunable(list: Seq<StaleView>)
    ensures
        prunable(list).len() > 0 <==> exists|i: int|
            0 <= i < list.len() && (#[trigger] list[i]).status == RepairStalePathStatus::NeedsPrune,
    decreases list.len(),
{
    if list.len() > 0 {
        let rest = list.drop_last();
        lemma_prunable(rest);
        if list.last().status == RepairStalePathStatus::NeedsPrune {
            assert(list[list.len() - 1].status == RepairStalePathStatus::NeedsPrune);
        }
        assert forall|i: int| 0 <= i < rest.len() implies #[trigger] rest[i] == list[i] by {}
        if prunable(rest).len() > 0 {
            let i = choose|i: int|
                0 <= i < rest.len() && (#[trigger] rest[i]).status
                    == RepairStalePathStatus::NeedsPrune;
            assert(list[i].status == RepairStalePathStatus::NeedsPrune);
        }
        if exists|i: int|
            0 <= i < list.len() && (#[trigger] list[i]).status
                == RepairStalePathStatus::NeedsPrune {
            let i = choose|i: int|
                0 <= i < list.len() && (#[trigger] list[i]).status
                    == RepairStalePathStatus::NeedsPrune;
            if i < rest.len() {
                assert(rest[i].status == RepairStalePathStatus::NeedsPrune);
            }
        }
    }
}

proof fn lemma_convertible(list: Seq<FormatView>)
    ensures
        convertible(list).len() > 0 <==> exists|i: int|
            0 <= i < list.len() && (#[trigger] list[i]).status
                == RepairRepositoryFormatStatus::NeedsBareConversion,
    decreases list.len(),
{
    let wanted = RepairRepositoryFormatStatus::NeedsBareConversion;
    if list.len() > 0 {
        let rest = list.drop_last();
        lemma_convertible(rest);
        assert forall|i: int| 0 <= i < rest.len() implies #[trigger] rest[i] == list[i] by {}
        if list.last().status == wanted {
            assert(list[list.len() - 1].status == wanted);
        }
        if convertible(rest).len() > 0 {
            let i = choose|i: int| 0 <= i < rest.len() && (#[trigger] rest[i]).status == wanted;
            assert(list[i].status == wanted);
        }
        if exists|i: int| 0 <= i < list.len() && (#[trigger] list[i]).status == wanted {
            let i = choose|i: int| 0 <= i < list.len() && (#[trigger] list[i]).status == wanted;
            if i < rest.len() {
                assert(rest[i].status == wanted);
            }
        }
    }
}

proof fn lemma_trackable(list: Seq<UntrackedView>)
    requires
        forall|i: int|
            0 <= i < list.len() && (#[trigger] list[i]).status
                == RepairUntrackedCheckoutStatus::NeedsTracking ==> list[i].locator is Some,
    ensures
        trackable(list).len() > 0 <==> exists|i: int|
            0 <= i < list.len() && (#[trigger] list[i]).status
                == RepairUntrackedCheckoutStatus::NeedsTracking,
    decreases list.len(),
{
    let wanted = RepairUntrackedCheckoutStatus::NeedsTracking;
    if list.len() > 0 {
        let rest = list.drop_last();
        assert forall|i: int| 0 <= i < rest.len() implies #[trigger] rest[i] == list[i] by {}
        lemma_trackable(rest);
        if list.last().status == wanted {
            assert(list[list.len() - 1].status == wanted);
        }
        if trackable(rest).len() > 0 {
            let i = choose|i: int| 0 <= i < rest.len() && (#[trigger] rest[i]).status == wanted;
            assert(list[i].status == wanted);
        }
        if exists|i: int| 0 <= i < list.len() && (#[trigger] list[i]).status == wanted {
            let i = choose|i: int| 0 <= i < list.len() && (#[trigger] list[i]).status == wanted;
            if i < rest.len() {
                assert(rest[i].status == wanted);
            }
        }
    }
}

proof fn lemma_repairable(list: Seq<RelationshipView>)
    ensures
        repairable(list).len() > 0 <==> exists|i: int|
            0 <= i < list.len() && (#[trigger] list[i]).status == RepairStatus::NeedsRepair,
    decreases list.len(),
{
    let wanted = RepairStatus::NeedsRepair;
    if list.len() > 0 {
        let rest = list.drop_last();
        assert forall|i: int| 0 <= i < rest.len() implies #[trigger] rest[i] == list[i] by {}
        lemma_repairable(rest);
        if list.last().status == wanted {
            assert(list[list.len() - 1].status == wanted);
        }
        if repairable(rest).len() > 0 {
            let i = choose|i: int| 0 <= i < rest.len() && (#[trigger] rest[i]).status == wanted;
            assert(list[i].status == wanted);
        }
        if exists|i: int| 0 <= i < list.len() && (#[trigger] list[i]).status == wanted {
            let i = choose|i: int| 0 <= i < list.len() && (#[trigger] list[i]).status == wanted;
            if i < rest.len() {
                assert(rest[i].status == wanted);
            }
        }
    }
}

/// Each checkout that a report asks to track has a locator.
pub open spec fn trackable_have_locators(report: ReportView) -> bool {
    forall|i: int|
        0 <= i < report.untracked_checkouts.len() && (
        #[trigger] report.untracked_checkouts[i]).status
            == RepairUntrackedCheckoutStatus::NeedsTracking
            ==> report.untracked_checkouts[i].locator is Some
}

/// A report offers operations exactly when it finds something to repair.
pub proof fn operations_are_offered_when_needed(report: ReportView)
    requires
        trackable_have_locators(report),
    ensures
        asked_for(report).len() > 0 <==> needs_repair(report),
{
    lemma_prunable(report.stale_paths);
    lemma_convertible(report.repository_formats);
    lemma_trackable(report.untracked_checkouts);
    lemma_repairable(report.relationships);
    assert(conversions(report.repository_formats).len() == convertible(
        report.repository_formats,
    ).len());
}

/// Every report that is made of a check or a repair asks to track only checkouts
/// that have a locator.
pub proof fn reports_ask_for_known_checkouts(facts: RepairFacts, check: bool)
    ensures
        trackable_have_locators(whole_report(facts, check)),
{
    lemma_checkouts(facts.repos@, facts.checkouts@, check);
}

/// The format asks for a conversion.
pub open spec fn needs_conversion(f: FormatView) -> bool {
    f.status == RepairRepositoryFormatStatus::NeedsBareConversion
}

/// The first format of the list that asks for a conversion of its path.
pub open spec fn first_of_path(list: Seq<FormatView>, i: int) -> bool {
    &&& 0 <= i < list.len()
    &&& needs_conversion(list[i])
    &&& forall|m: int|
        0 <= m < i && needs_conversion(#[trigger] list[m]) ==> !path_eq(
            list[m].path,
            list[i].path,
        )
}

/// Some conversion is of the path.
pub open spec fn converts(found: Seq<FormatView>, path: Seq<char>) -> bool {
    exists|j: int| 0 <= j < found.len() && path_eq((#[trigger] found[j]).path, path)
}

/// The paths ascend, so that none stands twice.
pub open spec fn paths_ascend(found: Seq<FormatView>) -> bool {
    forall|i: int, j: int|
        0 <= i < j < found.len() ==> path_less((#[trigger] found[i]).path, (
        #[trigger] found[j]).path)
}

proof fn lemma_path_slot(found: Seq<FormatView>, f: FormatView, i: int)
    requires
        0 <= i <= found.len(),
        paths_ascend(found),
        forall|j: int| 0 <= j < i ==> path_less((#[trigger] found[j]).path, f.path),
    ensures
        ({
            let k = path_slot(found, f, i);
            &&& i <= k <= found.len()
            &&& forall|j: int| 0 <= j < k ==> path_less((#[trigger] found[j]).path, f.path)
            &&& k < found.len() ==> path_eq(found[k].path, f.path) || path_less(
                f.path,
                found[k].path,
            )
        }),
    decreases found.len() - i,
{
    if i < found.len() {
        lemma_path_less_total(found[i].path, f.path);
        if path_less(found[i].path, f.path) {
            lemma_path_slot(found, f, i + 1);
        }
    }
}

proof fn lemma_add_path(found: Seq<FormatView>, f: FormatView)
    requires
        paths_ascend(found),
    ensures
        paths_ascend(add_path(found, f)),
        add_path(found, f) == found <==> converts(found, f.path),
        converts(add_path(found, f), f.path),
        forall|path: Seq<char>| #[trigger]
            converts(found, path) ==> converts(add_path(found, f), path),
        forall|j: int|
            0 <= j < add_path(found, f).len() ==> found.contains(
                #[trigger] add_path(found, f)[j],
            ) || (add_path(found, f)[j] == f && !converts(found, f.path)),
{
    let k = path_slot(found, f, 0);
    let after = add_path(found, f);
    lemma_path_slot(found, f, 0);
    if k < found.len() && path_eq(found[k].path, f.path) {
        assert(converts(found, f.path));
        assert forall|j: int| 0 <= j < after.len() implies found.contains(#[trigger] after[j]) by {
            assert(found[j] == after[j]);
        }
    } else {
        assert forall|j: int| k <= j < found.len() implies path_less(
            f.path,
            (#[trigger] found[j]).path,
        ) by {
            if j > k {
                assert(path_less(found[k].path, found[j].path));
                lemma_path_less_trans(f.path, found[k].path, found[j].path);
            }
        }
        assert(!converts(found, f.path)) by {
            if converts(found, f.path) {
                let j = choose|j: int|
                    0 <= j < found.len() && path_eq((#[trigger] found[j]).path, f.path);
                lemma_path_less_total(found[j].path, f.path);
                lemma_path_less_total(f.path, found[j].path);
            }
        }
        assert(after.len() == found.len() + 1);
        assert(after[k] == f);
        assert forall|j: int| 0 <= j < found.len() implies #[trigger] found[j] == after[if j < k {
            j
        } else {
            j + 1
        }] by {}
        assert forall|i: int, j: int| 0 <= i < j < after.len() implies path_less(
            (#[trigger] after[i]).path,
            (#[trigger] after[j]).path,
        ) by {
            let a = if i < k {
                i
            } else {
                i - 1
            };
            let b = if j < k {
                j
            } else {
                j - 1
            };
            if i == k {
                assert(after[j] == found[b]);
            } else if j == k {
                assert(after[i] == found[a]);
            } else {
                assert(after[i] == found[a]);
                assert(after[j] == found[b]);
            }
        }
        assert forall|path: Seq<char>| #[trigger] converts(found, path) implies converts(
            after,
            path,
        ) by {
            let j = choose|j: int|
                0 <= j < found.len() && path_eq((#[trigger] found[j]).path, path);
            let at = if j < k {
                j
            } else {
                j + 1
            };
            assert(after[at] == found[j]);
        }
        assert forall|j: int| 0 <= j < after.len() implies found.contains(#[trigger] after[j])
            || after[j] == f by {
            if j < k {
                assert(after[j] == found[j]);
            } else if j > k {
                assert(after[j] == found[j - 1]);
            }
        }
    }
}

/// Conversions come in the ascending order of their paths, each path once, and are
/// of exactly the paths that a report asks to convert. Where several rows ask for a
/// path, the conversion is that of the first.
pub proof fn conversions_come_in_order_of_path(list: Seq<FormatView>)
    ensures
        paths_ascend(convertible(list)),
        forall|i: int|
            0 <= i < list.len() && needs_conversion(#[trigger] list[i]) ==> converts(
                convertible(list),
                list[i].path,
            ),
        forall|j: int|
            0 <= j < convertible(list).len() ==> exists|i: int| #[trigger]
                first_of_path(list, i) && list[i] == #[trigger] convertible(list)[j],
    decreases list.len(),
{
    if list.len() > 0 {
        let rest = list.drop_last();
        let before = convertible(rest);
        let after = convertible(list);
        let n = list.len() - 1;
        conversions_come_in_order_of_path(rest);
        lemma_add_path(before, list.last());
        assert forall|i: int| 0 <= i < rest.len() implies #[trigger] rest[i] == list[i] by {}
        assert forall|i: int|
            0 <= i < list.len() && needs_conversion(#[trigger] list[i]) implies converts(
            after,
            list[i].path,
        ) by {
            if i < n {
                assert(rest[i] == list[i]);
                assert(converts(before, rest[i].path));
            }
        }
        assert forall|j: int| 0 <= j < after.len() implies exists|i: int| #[trigger]
            first_of_path(list, i) && list[i] == #[trigger] after[j] by {
            if before.contains(after[j]) {
                let k = choose|k: int| 0 <= k < before.len() && before[k] == after[j];
                let i = choose|i: int| #[trigger] first_of_path(rest, i) && rest[i] == before[k];
                assert forall|m: int| 0 <= m < i && needs_conversion(#[trigger] list[m]) implies !path_eq(
                    list[m].path,
                    list[i].path,
                ) by {
                    assert(rest[m] == list[m]);
                }
                assert(first_of_path(list, i));
            } else {
                assert(after[j] == list.last());
                assert forall|m: int| 0 <= m < n && needs_conversion(#[trigger] list[m]) implies !path_eq(
                    list[m].path,
                    list[n].path,
                ) by {
                    assert(rest[m] == list[m]);
                    assert(converts(before, rest[m].path));
                    if path_eq(list[m].path, list[n].path) {
                        let k = choose|k: int|
                            0 <= k < before.len() && path_eq(
                                (#[trigger] before[k]).path,
                                rest[m].path,
                            );
                        assert(path_eq(before[k].path, list.last().path));
                    }
                }
                assert(first_of_path(list, n));
            }
        }
    }
}

proof fn lemma_offers(report: ReportView)
    requires
        trackable_have_locators(report),
    ensures
        prunable(report.stale_paths) == keep(
            report.stale_paths,
            |x: StaleView| x.status == RepairStalePathStatus::NeedsPrune,
        ).map_values(|x: StaleView| KindView::PruneStale(x)),
        trackable(report.untracked_checkouts) == keep(
            report.untracked_checkouts,
            |x: UntrackedView| x.status == RepairUntrackedCheckoutStatus::NeedsTracking,
        ).map_values(|x: UntrackedView| KindView::TrackUnmanagedCheckout(x)),
        repairable(report.relationships) == keep(
            report.relationships,
            |x: RelationshipView| x.status == RepairStatus::NeedsRepair,
        ).map_values(|x: RelationshipView| KindView::RepairRelationship(x)),
{
    lemma_prunable_kept(report.stale_paths);
    lemma_trackable_kept(report.untracked_checkouts);
    lemma_repairable_kept(report.relationships);
}

proof fn lemma_prunable_kept(list: Seq<StaleView>)
    ensures
        prunable(list) == keep(
            list,
            |x: StaleView| x.status == RepairStalePathStatus::NeedsPrune,
        ).map_values(|x: StaleView| KindView::PruneStale(x)),
    decreases list.len(),
{
    let kept = keep(list, |x: StaleView| x.status == RepairStalePathStatus::NeedsPrune);
    if list.len() > 0 {
        lemma_prunable_kept(list.drop_last());
    }
    assert(prunable(list) =~= kept.map_values(|x: StaleView| KindView::PruneStale(x)));
}

proof fn lemma_trackable_kept(list: Seq<UntrackedView>)
    requires
        forall|i: int|
            0 <= i < list.len() && (#[trigger] list[i]).status
                == RepairUntrackedCheckoutStatus::NeedsTracking ==> list[i].locator is Some,
    ensures
        trackable(list) == keep(
            list,
            |x: UntrackedView| x.status == RepairUntrackedCheckoutStatus::NeedsTracking,
        ).map_values(|x: UntrackedView| KindView::TrackUnmanagedCheckout(x)),
    decreases list.len(),
{
    let kept = keep(
        list,
        |x: UntrackedView| x.status == RepairUntrackedCheckoutStatus::NeedsTracking,
    );
    if list.len() > 0 {
        let rest = list.drop_last();
        assert forall|i: int| 0 <= i < rest.len() implies #[trigger] rest[i] == list[i] by {}
        lemma_trackable_kept(rest);
        assert(list[list.len() - 1] == list.last());
    }
    assert(trackable(list) =~= kept.map_values(
        |x: UntrackedView| KindView::TrackUnmanagedCheckout(x),
    ));
}

proof fn lemma_repairable_kept(list: Seq<RelationshipView>)
    ensures
        repairable(list) == keep(
            list,
            |x: RelationshipView| x.status == RepairStatus::NeedsRepair,
        ).map_values(|x: RelationshipView| KindView::RepairRelationship(x)),
    decreases list.len(),
{
    let kept = keep(list, |x: RelationshipView| x.status == RepairStatus::NeedsRepair);
    if list.len() > 0 {
        lemma_repairable_kept(list.drop_last());
    }
    assert(repairable(list) =~= kept.map_values(
        |x: RelationshipView| KindView::RepairRelationship(x),
    ));
}

/// The operations of a report: those that prune, then those that convert, in the
/// order of their paths, then those that track, then those that repair
/// relationships. Apart from the conversions each row that asks for something gives
/// one operation, in the order of the report, and no other row gives any. They are
/// numbered from one on, and there are some exactly when something is to be
/// repaired.
pub proof fn operations_follow_the_report(report: ReportView)
    requires
        trackable_have_locators(report),
    ensures
        ({
            let operations = numbered(asked_for(report));
            let prunes = keep(
                report.stale_paths,
                |x: StaleView| x.status == RepairStalePathStatus::NeedsPrune,
            ).map_values(|x: StaleView| KindView::PruneStale(x));
            let tracks = keep(
                report.untracked_checkouts,
                |x: UntrackedView| x.status == RepairUntrackedCheckoutStatus::NeedsTracking,
            ).map_values(|x: UntrackedView| KindView::TrackUnmanagedCheckout(x));
            let repairs = keep(
                report.relationships,
                |x: RelationshipView| x.status == RepairStatus::NeedsRepair,
            ).map_values(|x: RelationshipView| KindView::RepairRelationship(x));
            &&& operations.map_values(|x: OperationView| x.kind) == prunes + conversions(
                report.repository_formats,
            ) + tracks + repairs
            &&& paths_ascend(convertible(report.repository_formats))
            &&& forall|i: int|
                0 <= i < operations.len() ==> (#[trigger] operations[i]).id == i + 1
            &&& operations.len() > 0 <==> needs_repair(report)
        }),
{
    let operations = numbered(asked_for(report));
    lemma_offers(report);
    conversions_come_in_order_of_path(report.repository_formats);
    operations_are_offered_when_needed(report);
    assert(operations.map_values(|x: OperationView| x.kind) =~= asked_for(report));
}

/// What the picked operations came to holds nothing that is still to be repaired.
pub proof fn applied_operations_leave_nothing_open(
    operations: Seq<OperationView>,
    selected: Seq<nat>,
    outcomes: Seq<RepairOutcome>,
)
    ensures
        !needs_repair(applied(operations, selected, outcomes)),
    decreases operations.len(),
{
    if operations.len() > 0 {
        applied_operations_leave_nothing_open(operations.drop_last(), selected, outcomes);
        let before = applied(operations.drop_last(), selected, outcomes);
        let kind = operations.last().kind;
        let outcome = outcomes[operations.len() - 1];
        let after = with_outcome(before, kind, outcome);
        if needs_repair(after) {
            lemma_outcome_needs_nothing(before, kind, outcome);
        }
    }
}

proof fn lemma_outcome_needs_nothing(report: ReportView, kind: KindView, outcome: RepairOutcome)
    requires
        !needs_repair(report),
    ensures
        !needs_repair(with_outcome(report, kind, outcome)),
{
    let after = with_outcome(report, kind, outcome);
    assert forall|i: int| 0 <= i < after.repository_formats.len() implies (
    #[trigger] after.repository_formats[i]).status
        != RepairRepositoryFormatStatus::NeedsBareConversion by {
        if i < report.repository_formats.len() {
            assert(after.repository_formats[i] == report.repository_formats[i]);
        }
    }
    assert forall|i: int| 0 <= i < after.stale_paths.len() implies (
    #[trigger] after.stale_paths[i]).status != RepairStalePathStatus::NeedsPrune by {
        if i < report.stale_paths.len() {
            assert(after.stale_paths[i] == report.stale_paths[i]);
        }
    }
    assert forall|i: int| 0 <= i < after.untracked_checkouts.len() implies (
    #[trigger] after.untracked_checkouts[i]).status
        != RepairUntrackedCheckoutStatus::NeedsTracking by {
        if i < report.untracked_checkouts.len() {
            assert(after.untracked_checkouts[i] == report.untracked_checkouts[i]);
        }
    }
    assert forall|i: int| 0 <= i < after.relationships.len() implies (
    #[trigger] after.relationships[i]).status != RepairStatus::NeedsRepair by {
        if i < report.relationships.len() {
            assert(after.relationships[i] == report.relationships[i]);
        }
    }
}

/// No number stands twice.
pub open spec fn each_once(ids: Seq<nat>) -> bool {
    forall|i: int, j: int| 0 <= i < j < ids.len() ==> #[trigger] ids[i] != #[trigger] ids[j]
}

/// Whatever a plan was edited to, the operations that it picks are operations of
/// the plan, each picked once.
pub proof fn selections_are_operations(plan: Seq<Seq<char>>, ids: Seq<nat>)
    ensures
        read_plan(plan, ids) matches Ok(state) ==> {
            &&& each_once(state.selected)
            &&& forall|i: int|
                0 <= i < state.selected.len() ==> ids.contains(#[trigger] state.selected[i])
                    && state.seen.contains(state.selected[i])
        },
    decreases plan.len(),
{
    if plan.len() > 0 {
        let rest = plan.drop_last();
        selections_are_operations(rest, ids);
        if let Ok(state) = read_plan(plan, ids) {
            let before = read_plan(rest, ids)->Ok_0;
            assert forall|i: int| 0 <= i < state.selected.len() implies ids.contains(
                #[trigger] state.selected[i],
            ) && state.seen.contains(state.selected[i]) by {
                if i < before.selected.len() {
                    assert(state.selected[i] == before.selected[i]);
                    let k = choose|k: int|
                        0 <= k < before.seen.len() && before.seen[k] == before.selected[i];
                    assert(state.seen[k] == state.selected[i]);
                } else {
                    assert(state.seen[before.seen.len() as int] == state.selected[i]);
                }
            }
            assert forall|i: int, j: int| 0 <= i < j < state.selected.len() implies
                #[trigger] state.selected[i] != #[trigger] state.selected[j] by {
                assert(state.selected[i] == before.selected[i]);
                assert(before.seen.contains(before.selected[i]));
            }
        }
    }
}

proof fn lemma_find_same(s: Seq<char>, t: Seq<char>, c: char, i: int)
    requires
        0 <= i <= s.len() <= t.len(),
        forall|k: int| 0 <= k < s.len() ==> s[k] == t[k],
        find_from(s, c, i) < s.len(),
    ensures
        find_from(t, c, i) == find_from(s, c, i),
    decreases s.len() - i,
{
    if i < s.len() && s[i] != c {
        lemma_find_same(s, t, c, i + 1);
    }
}

proof fn lemma_find_last(s: Seq<char>, c: char, i: int)
    requires
        0 <= i < s.len(),
        s.last() == c,
    ensures
        i <= find_from(s, c, i) < s.len(),
    decreases s.len() - i,
{
    if s[i] != c {
        lemma_find_last(s, c, i + 1);
    }
}

/// Lines that are complete are read one after the other.
proof fn lemma_lines_append(x: Seq<char>, y: Seq<char>)
    requires
        x.len() == 0 || x.last() == '\n',
    ensures
        lines(x + y) == lines(x) + lines(y),
    decreases x.len(),
{
    if x.len() == 0 {
        assert(x + y =~= y);
        assert(lines(x) + lines(y) =~= lines(y));
    } else {
        lemma_find_last(x, '\n', 0);
        let end = find_from(x, '\n', 0);
        lemma_find_same(x, x + y, '\n', 0);
        let rest = x.skip(end + 1);
        assert((x + y).skip(end + 1) =~= rest + y);
        assert((x + y).subrange(0, end) =~= x.subrange(0, end));
        if rest.len() > 0 {
            assert(rest.last() == x.last());
        }
        lemma_lines_append(rest, y);
        assert(lines(x + y) =~= lines(x) + lines(y));
    }
}

proof fn lemma_find_none(s: Seq<char>, c: char, i: int)
    requires
        0 <= i <= s.len(),
        !s.contains(c),
    ensures
        find_from(s.push(c), c, i) == s.len(),
    decreases s.len() - i,
{
    if i < s.len() {
        assert(s.contains(s[i]));
        lemma_find_none(s, c, i + 1);
    }
}

proof fn lemma_one_line(s: Seq<char>)
    requires
        !s.contains('\n'),
    ensures
        lines(s.push('\n')) == seq![without_return(s)],
{
    let all = s.push('\n');
    lemma_find_none(s, '\n', 0);
    assert(all.subrange(0, s.len() as int) =~= s);
    assert(all.skip(s.len() as int + 1) =~= Seq::empty());
    assert(lines(Seq::<char>::empty()) == Seq::<Seq<char>>::empty());
    assert(lines(all) =~= seq![without_return(s)]);
}

/// A comment of one line.
pub open spec fn comment(s: Seq<char>) -> bool {
    &&& s.len() > 0
    &&& s[0] == '#'
    &&& s.last() != '\r'
    &&& !s.contains('\n')
}

proof fn lemma_comment_line(text: Seq<char>, s: Seq<char>)
    requires
        text.len() == 0 || text.last() == '\n',
        comment(s),
    ensures
        lines(text + s + seq!['\n']) == lines(text).push(s),
        (text + s + seq!['\n']).last() == '\n',
{
    lemma_lines_append(text, s.push('\n'));
    lemma_one_line(s);
    assert(text + s + seq!['\n'] =~= text + s.push('\n'));
    assert(lines(text) + seq![s] =~= lines(text).push(s));
}

proof fn lemma_comment_entry(s: Seq<char>, number: nat, ids: Seq<nat>, seen: Seq<nat>)
    requires
        comment(s),
    ensures
        plan_entry(s, number, ids, seen) == Ok::<PlanEntry, Seq<char>>(PlanEntry::Nothing),
{
    assert(skip_from(s, white_fn(), 0) == 0);
    lemma_skip_back(s, white_fn(), 0, s.len() as int);
    let t = trim_text(s);
    if t.len() > 0 {
        assert(t[0] == s[0]);
    }
}

proof fn lemma_header(ids: Seq<nat>)
    ensures
        plan_header().last() == '\n',
        plan_header().len() > 0,
        read_plan(lines(plan_header()), ids) == Ok::<PlanState, Seq<char>>(
            PlanState { selected: seq![], seen: seq![] },
        ),
{
    let a = "# repo-manager repair plan"@;
    let b = "#"@;
    let c = "# Leave `pick` to apply an operation. Change `pick` to `drop`,"@;
    let d = "# or delete an operation line, to skip that operation."@;
    let e = "# Lines beginning with `#` are ignored."@;
    reveal_strlit("# repo-manager repair plan");
    reveal_strlit("#");
    reveal_strlit("# Leave `pick` to apply an operation. Change `pick` to `drop`,");
    reveal_strlit("# or delete an operation line, to skip that operation.");
    reveal_strlit("# Lines beginning with `#` are ignored.");
    reveal_strlit("\n");
    let n = "\n"@;
    assert(n =~= seq!['\n']);
    assert(comment(a));
    assert(comment(b));
    assert(comment(c));
    assert(comment(d));
    assert(comment(e));
    let none = Seq::<char>::empty();
    assert(none + a + n =~= a + n);
    lemma_comment_line(none, a);
    lemma_comment_line(a + n, b);
    lemma_comment_line(a + n + b + n, c);
    lemma_comment_line(a + n + b + n + c + n, d);
    lemma_comment_line(a + n + b + n + c + n + d + n, e);
    let five = a + n + b + n + c + n + d + n + e + n;
    assert(lines(none) == Seq::<Seq<char>>::empty());
    assert(lines(five) =~= seq![a, b, c, d, e]);
    lemma_lines_append(five, n);
    lemma_one_line(none);
    assert(none.push('\n') =~= n);
    assert(without_return(none) == none);
    let all = seq![a, b, c, d, e, none];
    assert(lines(plan_header()) =~= all);
    let start = PlanState { selected: seq![], seen: seq![] };
    lemma_comment_entry(a, 1, ids, seq![]);
    lemma_comment_entry(b, 2, ids, seq![]);
    lemma_comment_entry(c, 3, ids, seq![]);
    lemma_comment_entry(d, 4, ids, seq![]);
    lemma_comment_entry(e, 5, ids, seq![]);
    assert(all.take(0) =~= Seq::empty());
    assert(all.take(1).drop_last() =~= all.take(0));
    assert(all.take(2).drop_last() =~= all.take(1));
    assert(all.take(3).drop_last() =~= all.take(2));
    assert(all.take(4).drop_last() =~= all.take(3));
    assert(all.take(5).drop_last() =~= all.take(4));
    assert(all.drop_last() =~= all.take(5));
    assert(read_plan(all.take(0), ids) == Ok::<PlanState, Seq<char>>(start));
    assert(read_plan(all.take(1), ids) == Ok::<PlanState, Seq<char>>(start));
    assert(read_plan(all.take(2), ids) == Ok::<PlanState, Seq<char>>(start));
    assert(read_plan(all.take(3), ids) == Ok::<PlanState, Seq<char>>(start));
    assert(read_plan(all.take(4), ids) == Ok::<PlanState, Seq<char>>(start));
    assert(read_plan(all.take(5), ids) == Ok::<PlanState, Seq<char>>(start));
    assert(trim_text(none) =~= none);
}

proof fn lemma_skip_to(s: Seq<char>, p: spec_fn(char) -> bool, i: int, j: int)
    requires
        0 <= i <= j <= s.len(),
        forall|k: int| i <= k < j ==> p(#[trigger] s[k]),
        j < s.len() ==> !p(s[j]),
    ensures
        skip_from(s, p, i) == j,
    decreases j - i,
{
    if i < j {
        assert(p(s[i]));
        lemma_skip_to(s, p, i + 1, j);
    }
}

/// A line that was not edited picks its operation.
proof fn lemma_pick_entry(operation: OperationView, number: nat, ids: Seq<nat>, seen: Seq<nat>)
    requires
        operation.id <= usize::MAX,
        ids.contains(operation.id),
        !seen.contains(operation.id),
    ensures
        plan_entry(
            without_return("pick "@ + decimal(operation.id) + " "@ + operation.summary),
            number,
            ids,
            seen,
        ) == Ok::<PlanEntry, Seq<char>>(PlanEntry::Pick(operation.id)),
{
    let digits = decimal(operation.id);
    reveal_strlit("pick ");
    reveal_strlit(" ");
    reveal_strlit("pick");
    lemma_decimal_reads_back(operation.id, usize::MAX as nat);
    let whole = "pick "@ + digits + " "@ + operation.summary;
    let line = without_return(whole);
    let n = 5 + digits.len() as int;
    assert(line.len() >= n);
    assert forall|k: int| 0 <= k < line.len() implies line[k] == whole[k] by {}
    assert(line[0] == 'p' && line[1] == 'i' && line[2] == 'c' && line[3] == 'k' && line[4] == ' ');
    assert forall|k: int| 5 <= k < n implies is_digit(#[trigger] line[k]) by {
        assert(line[k] == digits[k - 5]);
    }
    let p = white_fn();
    assert(skip_from(line, p, 0) == 0);
    lemma_skip_back(line, p, 0, line.len() as int);
    let end = skip_back(line, p, 0, line.len() as int);
    assert(end >= n) by {
        lemma_skip_back_stops(line, p, 0, line.len() as int, n);
    }
    let t = trim_text(line);
    assert(t =~= line.subrange(0, end));
    assert(t[0] == 'p');
    assert(!is_white('p') && !is_white('i') && !is_white('c') && !is_white('k'));
    assert(is_white(' '));
    let w = word_fn();
    lemma_skip_to(t, p, 0, 0);
    assert forall|k: int| 0 <= k < 4 implies w(#[trigger] t[k]) by {
        assert(t[k] == line[k]);
    }
    lemma_skip_to(t, w, 0, 4);
    assert(t.subrange(0, 4) =~= "pick"@);
    assert forall|k: int| 4 <= k < 5 implies p(#[trigger] t[k]) by {
        assert(t[k] == line[k]);
    }
    assert(t[5] == line[5] && is_digit(line[5]));
    lemma_skip_to(t, p, 4, 5);
    assert forall|k: int| 5 <= k < n implies w(#[trigger] t[k]) by {
        assert(is_digit(line[k]));
    }
    if n < t.len() {
        assert(t[n] == whole[n]);
        assert(whole[n] == ' ');
    }
    lemma_skip_to(t, w, 5, n);
    assert(t.subrange(5, n) =~= digits);
    let found = words(t);
    assert(words_from(t, 0) == seq![t.subrange(0, 4)] + words_from(t, 4));
    assert(words_from(t, 4) == seq![t.subrange(5, n)] + words_from(t, n));
    assert(found[0] == "pick"@);
    assert(found[1] == digits);
}

proof fn lemma_skip_back_stops(
    s: Seq<char>,
    p: spec_fn(char) -> bool,
    lo: int,
    end: int,
    n: int,
)
    requires
        0 <= lo < n <= end <= s.len(),
        !p(s[n - 1]),
    ensures
        skip_back(s, p, lo, end) >= n,
    decreases end - lo,
{
    if end > n && p(s[end - 1]) {
        lemma_skip_back_stops(s, p, lo, end - 1, n);
    }
}

/// Operations that can be written one to a line.
pub open spec fn writable(operations: Seq<OperationView>) -> bool {
    &&& each_once(operation_ids(operations))
    &&& forall|i: int|
        0 <= i < operations.len() ==> (#[trigger] operations[i]).id <= usize::MAX
            && !operations[i].summary.contains('\n')
}

proof fn lemma_plan_lines(operations: Seq<OperationView>)
    ensures
        plan_lines(operations).len() == 0 || plan_lines(operations).last() == '\n',
    decreases operations.len(),
{
    if operations.len() > 0 {
        reveal_strlit("\n");
        let last = plan_line(operations.last());
        assert(last.last() == '\n');
        assert(plan_lines(operations).last() == last.last());
    }
}

proof fn lemma_untouched(operations: Seq<OperationView>, ids: Seq<nat>)
    requires
        writable(operations),
        forall|i: int|
            0 <= i < operations.len() ==> ids.contains((#[trigger] operations[i]).id),
    ensures
        read_plan(lines(plan_text(operations)), ids) == Ok::<PlanState, Seq<char>>(
            PlanState {
                selected: operation_ids(operations),
                seen: operation_ids(operations),
            },
        ),
    decreases operations.len(),
{
    lemma_header(ids);
    let header = plan_header();
    if operations.len() == 0 {
        assert(plan_text(operations) =~= header);
        assert(operation_ids(operations) =~= Seq::empty());
    } else {
        let rest = operations.drop_last();
        let last = operations.last();
        assert(operation_ids(rest) =~= operation_ids(operations).drop_last());
        assert(writable(rest)) by {
            assert forall|i: int, j: int| 0 <= i < j < operation_ids(rest).len() implies
                #[trigger] operation_ids(rest)[i] != #[trigger] operation_ids(rest)[j] by {
                assert(operation_ids(rest)[i] == operation_ids(operations)[i]);
                assert(operation_ids(rest)[j] == operation_ids(operations)[j]);
            }
            assert forall|i: int| 0 <= i < rest.len() implies (#[trigger] rest[i]).id <= usize::MAX
                && !rest[i].summary.contains('\n') by {
                assert(rest[i] == operations[i]);
            }
        }
        assert forall|i: int| 0 <= i < rest.len() implies ids.contains((#[trigger] rest[i]).id) by {
            assert(rest[i] == operations[i]);
        }
        lemma_untouched(rest, ids);
        lemma_plan_lines(rest);
        let before = plan_text(rest);
        let body = "pick "@ + decimal(last.id) + " "@ + last.summary;
        reveal_strlit("\n");
        reveal_strlit("pick ");
        reveal_strlit(" ");
        assert(plan_line(last) =~= body.push('\n'));
        assert(plan_text(operations) =~= before + body.push('\n'));
        assert(before.last() == '\n') by {
            if plan_lines(rest).len() > 0 {
                assert(before.last() == plan_lines(rest).last());
            } else {
                assert(before =~= header);
            }
        }
        lemma_decimal_reads_back(last.id, last.id);
        assert(!body.contains('\n')) by {
            if body.contains('\n') {
                let k = choose|k: int| 0 <= k < body.len() && body[k] == '\n';
                let n = 5 + decimal(last.id).len() as int;
                assert(operations[operations.len() - 1] == last);
                if 5 <= k < n {
                    assert(body[k] == decimal(last.id)[k - 5]);
                    assert(is_digit(decimal(last.id)[k - 5]));
                } else if k > n {
                    assert(body[k] == last.summary[k - n - 1]);
                    assert(last.summary.contains('\n'));
                }
            }
        }
        lemma_lines_append(before, body.push('\n'));
        lemma_one_line(body);
        let all = lines(plan_text(operations));
        let line = without_return(body);
        assert(all =~= lines(before).push(line));
        assert(all.drop_last() =~= lines(before));
        let seen = operation_ids(rest);
        assert(!seen.contains(last.id)) by {
            if seen.contains(last.id) {
                let k = choose|k: int| 0 <= k < seen.len() && seen[k] == last.id;
                assert(operation_ids(operations)[k] == operation_ids(rest)[k]);
                assert(operation_ids(operations)[operations.len() - 1] == last.id);
            }
        }
        assert(ids.contains(operations[operations.len() - 1].id));
        lemma_pick_entry(last, all.len(), ids, seen);
        assert(operation_ids(operations) =~= seen.push(last.id));
    }
}

/// A plan that is not edited picks all of its operations, in their order.
pub proof fn untouched_plans_pick_everything(operations: Seq<OperationView>)
    requires
        writable(operations),
    ensures
        read_plan(lines(plan_text(operations)), operation_ids(operations)) matches Ok(state)
            && state.selected == operation_ids(operations),
{
    let ids = operation_ids(operations);
    assert forall|i: int| 0 <= i < operations.len() implies ids.contains(
        (#[trigger] operations[i]).id,
    ) by {
        assert(ids[i] == operations[i].id);
    }
    lemma_untouched(operations, ids);
}

/// The operations of a report are numbered from one on, so that no number stands
/// twice.
pub proof fn operations_are_numbered(kinds: Seq<KindView>)
    ensures
        each_once(operation_ids(numbered(kinds))),
        operation_ids(numbered(kinds)).len() == kinds.len(),
        forall|i: int|
            0 <= i < kinds.len() ==> #[trigger] operation_ids(numbered(kinds))[i] == i + 1,
{
}

} // verus!
