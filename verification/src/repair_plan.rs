//! The repair plan: the operations that a report asks for, the text in which
//! the user picks among them, and what the picked ones report.
use crate::error::Error;
use crate::paths::{lemma_path_less_total, path_eq, path_less, rank_paths};
use crate::repair::{
    format_views, FormatView, RelationshipView, RepairRelationship, RepairReport,
    RepairRepositoryFormat, RepairRepositoryFormatStatus, RepairSkip, RepairStalePath,
    RepairStalePathStatus, RepairStatus, RepairUntrackedCheckout, RepairUntrackedCheckoutStatus,
    ReportView, SkipView, SharedGitDirResolution, StaleView, UntrackedView,
};
use crate::repair_report::{conversion_finding, convert_repo_format_to_bare};
use crate::repair_text::relation_text;
use crate::text::{
    clone_texts, decimal, decimal_text, lines, lines_of, one_text, parse_number, parsed_number,
    trim, trim_text, views, words, words_of, Rank,
};
use vstd::prelude::*;

verus! {

#[derive(Debug)]
pub enum RepairOperationKind {
    PruneStale(RepairStalePath),
    ConvertRepositoryFormat(RepairRepositoryFormat),
    TrackUnmanagedCheckout(RepairUntrackedCheckout),
    RepairRelationship(RepairRelationship),
}

pub enum KindView {
    PruneStale(StaleView),
    ConvertRepositoryFormat(FormatView),
    TrackUnmanagedCheckout(UntrackedView),
    RepairRelationship(RelationshipView),
}

impl View for RepairOperationKind {
    type V = KindView;

    open spec fn view(&self) -> KindView {
        match self {
            RepairOperationKind::PruneStale(x) => KindView::PruneStale(x@),
            RepairOperationKind::ConvertRepositoryFormat(x) => KindView::ConvertRepositoryFormat(x@),
            RepairOperationKind::TrackUnmanagedCheckout(x) => KindView::TrackUnmanagedCheckout(x@),
            RepairOperationKind::RepairRelationship(x) => KindView::RepairRelationship(x@),
        }
    }
}

#[derive(Debug)]
pub struct RepairOperation {
    pub id: usize,
    pub summary: String,
    pub kind: RepairOperationKind,
}

pub struct OperationView {
    pub id: nat,
    pub summary: Seq<char>,
    pub kind: KindView,
}

impl View for RepairOperation {
    type V = OperationView;

    open spec fn view(&self) -> OperationView {
        OperationView { id: self.id as nat, summary: self.summary@, kind: self.kind@ }
    }
}

pub open spec fn operation_views(v: Seq<RepairOperation>) -> Seq<OperationView> {
    v.map_values(|o: RepairOperation| o@)
}

/// What the user reads of an operation.
pub open spec fn operation_summary(kind: KindView) -> Seq<char> {
    match kind {
        KindView::PruneStale(x) => "prune stale managed path "@ + x.locator.key(),
        KindView::ConvertRepositoryFormat(x) => "convert clone-root repository to bare "@ + x.path,
        KindView::TrackUnmanagedCheckout(x) => "track unmanaged clone-root checkout "@
            + x.locator->0.key(),
        KindView::RepairRelationship(x) => "repair "@ + relation_text(
            x.relationship,
            x.dependent_locator,
            x.controlling_locator,
        ),
    }
}

pub open spec fn prunable(list: Seq<StaleView>) -> Seq<KindView>
    decreases list.len(),
{
    if list.len() == 0 {
        seq![]
    } else if list.last().status == RepairStalePathStatus::NeedsPrune {
        prunable(list.drop_last()).push(KindView::PruneStale(list.last()))
    } else {
        prunable(list.drop_last())
    }
}

/// The first format of `list` at or behind `i` whose path does not come before
/// the one of `f`.
pub open spec fn path_slot(list: Seq<FormatView>, f: FormatView, i: int) -> int
    decreases list.len() - i,
{
    if i < list.len() && path_less(list[i].path, f.path) {
        path_slot(list, f, i + 1)
    } else {
        i
    }
}

/// `list` with `f` at its place in the order of paths, unless its path is there
/// already.
pub open spec fn add_path(list: Seq<FormatView>, f: FormatView) -> Seq<FormatView> {
    let i = path_slot(list, f, 0);
    if i < list.len() && path_eq(list[i].path, f.path) {
        list
    } else {
        list.insert(i, f)
    }
}

/// The formats that need a conversion: for each path the first one, in the
/// order of the paths.
pub open spec fn convertible(list: Seq<FormatView>) -> Seq<FormatView>
    decreases list.len(),
{
    if list.len() == 0 {
        seq![]
    } else if list.last().status == RepairRepositoryFormatStatus::NeedsBareConversion {
        add_path(convertible(list.drop_last()), list.last())
    } else {
        convertible(list.drop_last())
    }
}

pub open spec fn conversions(list: Seq<FormatView>) -> Seq<KindView> {
    convertible(list).map_values(|f: FormatView| KindView::ConvertRepositoryFormat(f))
}

pub open spec fn trackable(list: Seq<UntrackedView>) -> Seq<KindView>
    decreases list.len(),
{
    if list.len() == 0 {
        seq![]
    } else if list.last().status == RepairUntrackedCheckoutStatus::NeedsTracking
        && list.last().locator is Some {
        trackable(list.drop_last()).push(KindView::TrackUnmanagedCheckout(list.last()))
    } else {
        trackable(list.drop_last())
    }
}

pub open spec fn repairable(list: Seq<RelationshipView>) -> Seq<KindView>
    decreases list.len(),
{
    if list.len() == 0 {
        seq![]
    } else if list.last().status == RepairStatus::NeedsRepair {
        repairable(list.drop_last()).push(KindView::RepairRelationship(list.last()))
    } else {
        repairable(list.drop_last())
    }
}

/// What a report asks to be done, in the order in which it is offered.
pub open spec fn asked_for(report: ReportView) -> Seq<KindView> {
    prunable(report.stale_paths) + conversions(report.repository_formats) + trackable(
        report.untracked_checkouts,
    ) + repairable(report.relationships)
}

/// The operations of a list of kinds, numbered from 1 on.
pub open spec fn numbered(kinds: Seq<KindView>) -> Seq<OperationView> {
    Seq::new(
        kinds.len(),
        |i: int|
            OperationView {
                id: (i + 1) as nat,
                summary: operation_summary(kinds[i]),
                kind: kinds[i],
            },
    )
}

pub open spec fn kind_views(v: Seq<RepairOperationKind>) -> Seq<KindView> {
    v.map_values(|k: RepairOperationKind| k@)
}

fn summary_of(kind: &RepairOperationKind) -> (r: String)
    requires
        kind matches RepairOperationKind::TrackUnmanagedCheckout(c) ==> c.locator is Some,
    ensures
        r@ == operation_summary(kind@),
{
    match kind {
        RepairOperationKind::PruneStale(x) => {
            let mut r = "prune stale managed path ".to_owned();
            r.append(&x.locator.key());
            r
        },
        RepairOperationKind::ConvertRepositoryFormat(x) => {
            let mut r = "convert clone-root repository to bare ".to_owned();
            r.append(&x.path);
            r
        },
        RepairOperationKind::TrackUnmanagedCheckout(x) => {
            let mut r = "track unmanaged clone-root checkout ".to_owned();
            if let Some(locator) = &x.locator {
                r.append(&locator.key());
            }
            r
        },
        RepairOperationKind::RepairRelationship(x) => {
            let mut text = x.relationship.clone();
            text.append(" ");
            text.append(&x.dependent_locator.key());
            text.append(" -> ");
            text.append(&x.controlling_locator.key());
            let mut r = "repair ".to_owned();
            r.append(&text);
            r
        },
    }
}

fn push_path(list: &mut Vec<RepairRepositoryFormat>, f: &RepairRepositoryFormat)
    ensures
        format_views(final(list)@) == add_path(format_views(old(list)@), f@),
{
    let ghost before = format_views(list@);
    let mut i: usize = 0;
    let mut found = false;
    while i < list.len() && !found
        invariant
            i <= list@.len(),
            list@ == old(list)@,
            before == format_views(list@),
            path_slot(before, f@, i as int) == path_slot(before, f@, 0),
            found ==> i < list@.len() && !path_less(before[i as int].path, f@.path),
        decreases list@.len() - i, (if found { 0int } else { 1int }),
    {
        proof {
            assert(before[i as int] == list@[i as int]@);
            lemma_path_less_total(before[i as int].path, f@.path);
        }
        if rank_paths(&list[i].path, &f.path) == Rank::Before {
            i += 1;
        } else {
            found = true;
        }
    }
    proof {
        assert(path_slot(before, f@, 0) == i);
        if i < list@.len() {
            assert(before[i as int] == list@[i as int]@);
        }
    }
    if i < list.len() && rank_paths(&list[i].path, &f.path) == Rank::Same {
        return ;
    }
    let copy = f.clone();
    list.insert(i, copy);
    proof {
        assert(format_views(list@) =~= before.insert(i as int, f@));
    }
}

fn convertible_formats(formats: &Vec<RepairRepositoryFormat>) -> (r: Vec<RepairRepositoryFormat>)
    ensures
        format_views(r@) == convertible(format_views(formats@)),
{
    let ghost all = format_views(formats@);
    let mut r: Vec<RepairRepositoryFormat> = Vec::new();
    proof {
        assert(format_views(r@) =~= convertible(all.take(0)));
    }
    let mut i: usize = 0;
    while i < formats.len()
        invariant
            i <= formats@.len(),
            all == format_views(formats@),
            format_views(r@) == convertible(all.take(i as int)),
        decreases formats@.len() - i,
    {
        proof {
            assert(all.take(i + 1).drop_last() =~= all.take(i as int));
            assert(all.take(i + 1).last() == formats@[i as int]@);
        }
        if formats[i].status == RepairRepositoryFormatStatus::NeedsBareConversion {
            push_path(&mut r, &formats[i]);
        }
        i += 1;
    }
    proof {
        assert(all.take(i as int) =~= all);
    }
    r
}

/// The kinds that a report asks for.
fn kinds_of(report: &RepairReport) -> (r: Vec<RepairOperationKind>)
    ensures
        kind_views(r@) == asked_for(report@),
        forall|i: int|
            0 <= i < r@.len() ==> ((#[trigger] r@[i])
                matches RepairOperationKind::TrackUnmanagedCheckout(c) ==> c.locator is Some),
{
    let mut r: Vec<RepairOperationKind> = Vec::new();
    let ghost all = report@.stale_paths;
    proof {
        assert(kind_views(r@) =~= prunable(all.take(0)));
    }
    let mut i: usize = 0;
    while i < report.stale_paths.len()
        invariant
            i <= report.stale_paths@.len(),
            all == report@.stale_paths,
            kind_views(r@) == prunable(all.take(i as int)),
            forall|j: int| 0 <= j < r@.len() ==> ((#[trigger] r@[j]) is PruneStale),
        decreases report.stale_paths@.len() - i,
    {
        let ghost before = kind_views(r@);
        proof {
            assert(all.take(i + 1).drop_last() =~= all.take(i as int));
            assert(all.take(i + 1).last() == report.stale_paths@[i as int]@);
        }
        if report.stale_paths[i].status == RepairStalePathStatus::NeedsPrune {
            let kind = RepairOperationKind::PruneStale(report.stale_paths[i].clone());
            let ghost k = kind@;
            r.push(kind);
            proof {
                assert(kind_views(r@) =~= before.push(k));
            }
        }
        i += 1;
    }
    proof {
        assert(all.take(i as int) =~= all);
    }
    let ghost head = kind_views(r@);
    let mut formats = convertible_formats(&report.repository_formats);
    let ghost conv = conversions(report@.repository_formats);
    proof {
        assert(head + conv.take(0) =~= head);
    }
    let mut i: usize = 0;
    while i < formats.len()
        invariant
            i <= formats@.len(),
            format_views(formats@) == convertible(report@.repository_formats),
            conv == conversions(report@.repository_formats),
            kind_views(r@) == head + conv.take(i as int),
            forall|j: int|
                0 <= j < r@.len() ==> ((#[trigger] r@[j])
                    matches RepairOperationKind::TrackUnmanagedCheckout(c) ==> c.locator is Some),
        decreases formats@.len() - i,
    {
        let ghost before = kind_views(r@);
        let kind = RepairOperationKind::ConvertRepositoryFormat(formats[i].clone());
        let ghost k = kind@;
        r.push(kind);
        i += 1;
        proof {
            assert(kind_views(r@) =~= before.push(k));
            assert(conv[i - 1] == k) by {
                assert(convertible(report@.repository_formats)[i - 1] == formats@[i - 1]@);
            }
            assert(kind_views(r@) =~= head + conv.take(i as int));
        }
    }
    proof {
        assert(conv.len() == formats@.len()) by {
            assert(format_views(formats@).len() == formats@.len());
        }
        assert(conv.take(i as int) =~= conv);
    }
    let ghost head = kind_views(r@);
    let ghost all = report@.untracked_checkouts;
    proof {
        assert(head + trackable(all.take(0)) =~= head);
    }
    let mut i: usize = 0;
    while i < report.untracked_checkouts.len()
        invariant
            i <= report.untracked_checkouts@.len(),
            all == report@.untracked_checkouts,
            kind_views(r@) == head + trackable(all.take(i as int)),
            forall|j: int|
                0 <= j < r@.len() ==> ((#[trigger] r@[j])
                    matches RepairOperationKind::TrackUnmanagedCheckout(c) ==> c.locator is Some),
        decreases report.untracked_checkouts@.len() - i,
    {
        let ghost before = kind_views(r@);
        let checkout = &report.untracked_checkouts[i];
        proof {
            assert(all.take(i + 1).drop_last() =~= all.take(i as int));
            assert(all.take(i + 1).last() == checkout@);
        }
        if checkout.status == RepairUntrackedCheckoutStatus::NeedsTracking
            && checkout.locator.is_some() {
            let copy = checkout.clone();
            proof {
                assert(copy@.locator is Some);
            }
            let kind = RepairOperationKind::TrackUnmanagedCheckout(copy);
            let ghost k = kind@;
            r.push(kind);
            proof {
                assert(kind_views(r@) =~= before.push(k));
                assert(kind_views(r@) =~= head + trackable(all.take(i + 1)));
            }
        }
        i += 1;
    }
    proof {
        assert(all.take(i as int) =~= all);
    }
    let ghost head = kind_views(r@);
    let ghost all = report@.relationships;
    proof {
        assert(head + repairable(all.take(0)) =~= head);
    }
    let mut i: usize = 0;
    while i < report.relationships.len()
        invariant
            i <= report.relationships@.len(),
            all == report@.relationships,
            kind_views(r@) == head + repairable(all.take(i as int)),
            forall|j: int|
                0 <= j < r@.len() ==> ((#[trigger] r@[j])
                    matches RepairOperationKind::TrackUnmanagedCheckout(c) ==> c.locator is Some),
        decreases report.relationships@.len() - i,
    {
        let ghost before = kind_views(r@);
        let relationship = &report.relationships[i];
        proof {
            assert(all.take(i + 1).drop_last() =~= all.take(i as int));
            assert(all.take(i + 1).last() == relationship@);
        }
        if relationship.status == RepairStatus::NeedsRepair {
            let kind = RepairOperationKind::RepairRelationship(relationship.clone());
            let ghost k = kind@;
            r.push(kind);
            proof {
                assert(kind_views(r@) =~= before.push(k));
                assert(kind_views(r@) =~= head + repairable(all.take(i + 1)));
            }
        }
        i += 1;
    }
    proof {
        assert(all.take(i as int) =~= all);
    }
    r
}

pub fn repair_operations_from_report(report: &RepairReport) -> (r: Vec<RepairOperation>)
    ensures
        operation_views(r@) == numbered(asked_for(report@)),
{
    let mut kinds = kinds_of(report);
    let ghost all = asked_for(report@);
    let n: usize = kinds.len();
    let mut r: Vec<RepairOperation> = Vec::new();
    let mut i: usize = 0;
    while i < n
        invariant
            i <= n,
            n == all.len(),
            kinds@.len() == n - i,
            r@.len() == i,
            forall|j: int| 0 <= j < n - i ==> (#[trigger] kinds@[j])@ == all[i + j],
            forall|j: int|
                0 <= j < kinds@.len() ==> ((#[trigger] kinds@[j])
                    matches RepairOperationKind::TrackUnmanagedCheckout(c) ==> c.locator is Some),
            forall|j: int| 0 <= j < i ==> (#[trigger] r@[j])@ == numbered(all)[j],
        decreases n - i,
    {
        let ghost before = kinds@;
        let kind = kinds.remove(0);
        proof {
            assert(before[0]@ == all[i + 0]);
            assert forall|j: int| 0 <= j < n - i - 1 implies (#[trigger] kinds@[j])@ == all[i + 1
                + j] by {
                assert(before[j + 1]@ == all[i + (j + 1)]);
            }
        }
        let summary = summary_of(&kind);
        r.push(RepairOperation { id: i + 1, summary, kind });
        i += 1;
    }
    proof {
        assert(operation_views(r@) =~= numbered(all));
    }
    r
}

/// What the plan says before its operations.
pub open spec fn plan_header() -> Seq<char> {
    "# repo-manager repair plan"@ + "\n"@ + "#"@ + "\n"@
        + "# Leave `pick` to apply an operation. Change `pick` to `drop`,"@ + "\n"@
        + "# or delete an operation line, to skip that operation."@ + "\n"@
        + "# Lines beginning with `#` are ignored."@ + "\n"@ + "\n"@
}

/// The line of one operation.
pub open spec fn plan_line(operation: OperationView) -> Seq<char> {
    "pick "@ + decimal(operation.id) + " "@ + operation.summary + "\n"@
}

pub open spec fn plan_lines(operations: Seq<OperationView>) -> Seq<char>
    decreases operations.len(),
{
    if operations.len() == 0 {
        seq![]
    } else {
        plan_lines(operations.drop_last()) + plan_line(operations.last())
    }
}

pub open spec fn plan_text(operations: Seq<OperationView>) -> Seq<char> {
    plan_header() + plan_lines(operations)
}

fn write_plan_line(operation: &RepairOperation) -> (r: String)
    ensures
        r@ == plan_line(operation@),
{
    let mut r = "pick ".to_owned();
    r.append(&decimal_text(operation.id as u128));
    r.append(" ");
    r.append(&operation.summary);
    r.append("\n");
    r
}

pub fn format_repair_plan(operations: &Vec<RepairOperation>) -> (r: String)
    ensures
        r@ == plan_text(operation_views(operations@)),
{
    let mut text = "# repo-manager repair plan".to_owned();
    text.append("\n");
    text.append("#");
    text.append("\n");
    text.append("# Leave `pick` to apply an operation. Change `pick` to `drop`,");
    text.append("\n");
    text.append("# or delete an operation line, to skip that operation.");
    text.append("\n");
    text.append("# Lines beginning with `#` are ignored.");
    text.append("\n");
    text.append("\n");
    let ghost all = operation_views(operations@);
    proof {
        assert(plan_header() + plan_lines(all.take(0)) =~= plan_header());
    }
    let mut i: usize = 0;
    while i < operations.len()
        invariant
            i <= operations@.len(),
            all == operation_views(operations@),
            text@ == plan_header() + plan_lines(all.take(i as int)),
        decreases operations@.len() - i,
    {
        let line = write_plan_line(&operations[i]);
        text.append(&line);
        i += 1;
        proof {
            assert(all.take(i as int).drop_last() =~= all.take(i - 1));
            assert(all.take(i as int).last() == operations@[i - 1]@);
            assert(text@ =~= plan_header() + plan_lines(all.take(i as int)));
        }
    }
    proof {
        assert(all.take(i as int) =~= all);
    }
    text
}

/// What one line of an edited plan asks for: nothing, or to pick or drop an
/// operation.
pub enum PlanEntry {
    Nothing,
    Pick(nat),
    Drop(nat),
}

pub open spec fn is_pick(command: Seq<char>) -> bool {
    command == "pick"@ || command == "p"@ || command == "apply"@
}

pub open spec fn is_drop(command: Seq<char>) -> bool {
    command == "drop"@ || command == "d"@ || command == "skip"@ || command == "s"@
}

pub open spec fn plan_complaint(number: nat, what: Seq<char>) -> Seq<char> {
    "repair plan line "@ + decimal(number) + what
}

/// One line of an edited plan, where `ids` are the operations and `seen` those
/// that earlier lines named.
pub open spec fn plan_entry(line: Seq<char>, number: nat, ids: Seq<nat>, seen: Seq<nat>) -> Result<
    PlanEntry,
    Seq<char>,
> {
    let t = trim_text(line);
    let w = words(t);
    if t.len() == 0 || t[0] == '#' {
        Ok(PlanEntry::Nothing)
    } else if w.len() == 0 {
        Err("empty repair plan line "@ + decimal(number))
    } else if w.len() == 1 {
        Err(plan_complaint(number, " is missing an operation id"@))
    } else {
        match parsed_number(w[1], usize::MAX as nat) {
            None => Err(
                plan_complaint(number, " has invalid operation id `"@ + w[1] + "`"@),
            ),
            Some(id) => if !ids.contains(id) {
                Err(plan_complaint(number, " references unknown operation id "@ + decimal(id)))
            } else if seen.contains(id) {
                Err(plan_complaint(number, " repeats operation id "@ + decimal(id)))
            } else if is_pick(w[0]) {
                Ok(PlanEntry::Pick(id))
            } else if is_drop(w[0]) {
                Ok(PlanEntry::Drop(id))
            } else {
                Err(
                    plan_complaint(
                        number,
                        " has unknown command `"@ + w[0] + "`; use `pick` or `drop`"@,
                    ),
                )
            },
        }
    }
}

/// What the lines of a plan so far picked, and all that they named.
pub struct PlanState {
    pub selected: Seq<nat>,
    pub seen: Seq<nat>,
}

/// The state behind all of `plan`, or the first complaint.
pub open spec fn read_plan(plan: Seq<Seq<char>>, ids: Seq<nat>) -> Result<PlanState, Seq<char>>
    decreases plan.len(),
{
    if plan.len() == 0 {
        Ok(PlanState { selected: seq![], seen: seq![] })
    } else {
        match read_plan(plan.drop_last(), ids) {
            Err(text) => Err(text),
            Ok(state) => match plan_entry(plan.last(), plan.len(), ids, state.seen) {
                Err(text) => Err(text),
                Ok(PlanEntry::Nothing) => Ok(state),
                Ok(PlanEntry::Pick(id)) => Ok(
                    PlanState { selected: state.selected.push(id), seen: state.seen.push(id) },
                ),
                Ok(PlanEntry::Drop(id)) => Ok(
                    PlanState { selected: state.selected, seen: state.seen.push(id) },
                ),
            },
        }
    }
}

pub open spec fn operation_ids(operations: Seq<OperationView>) -> Seq<nat> {
    operations.map_values(|o: OperationView| o.id)
}

pub open spec fn numbers(v: Seq<usize>) -> Seq<nat> {
    v.map_values(|n: usize| n as nat)
}

fn has_number(v: &Vec<usize>, n: usize) -> (r: bool)
    ensures
        r == numbers(v@).contains(n as nat),
{
    let mut i: usize = 0;
    while i < v.len()
        invariant
            i <= v@.len(),
            forall|j: int| 0 <= j < i ==> #[trigger] numbers(v@)[j] != n,
        decreases v@.len() - i,
    {
        proof {
            assert(numbers(v@)[i as int] == v@[i as int]);
        }
        if v[i] == n {
            return true;
        }
        i += 1;
    }
    false
}

fn complain(number: u128, what: &str) -> (r: Error)
    ensures
        r@ == plan_complaint(number as nat, what@),
{
    let mut text = "repair plan line ".to_owned();
    text.append(&decimal_text(number));
    text.append(what);
    Error::new(text)
}

fn complain_about(number: u128, before: &str, about: &str, behind: &str) -> (r: Error)
    ensures
        r@ == plan_complaint(number as nat, before@ + about@ + behind@),
{
    let mut what = before.to_owned();
    what.append(about);
    what.append(behind);
    complain(number, &what)
}

/// What a line asks for: nothing, or an operation and whether it is picked.
fn read_line(line: &str, number: u128, ids: &Vec<usize>, seen: &Vec<usize>) -> (r: Result<
    Option<(usize, bool)>,
    Error,
>)
    ensures
        match r {
            Err(e) => plan_entry(line@, number as nat, numbers(ids@), numbers(seen@)) == Err::<
                PlanEntry,
                Seq<char>,
            >(e@),
            Ok(None) => plan_entry(line@, number as nat, numbers(ids@), numbers(seen@)) == Ok::<
                PlanEntry,
                Seq<char>,
            >(PlanEntry::Nothing),
            Ok(Some((id, true))) => plan_entry(
                line@,
                number as nat,
                numbers(ids@),
                numbers(seen@),
            ) == Ok::<PlanEntry, Seq<char>>(PlanEntry::Pick(id as nat)),
            Ok(Some((id, false))) => plan_entry(
                line@,
                number as nat,
                numbers(ids@),
                numbers(seen@),
            ) == Ok::<PlanEntry, Seq<char>>(PlanEntry::Drop(id as nat)),
        },
{
    let t = trim(line);
    if t.as_str().is_empty() || t.as_str().get_char(0) == '#' {
        return Ok(None);
    }
    let w = words_of(&t);
    proof {
        assert(views(w@).len() == w@.len());
        if w@.len() > 0 {
            assert(views(w@)[0] == w@[0]@);
        }
        if w@.len() > 1 {
            assert(views(w@)[1] == w@[1]@);
        }
    }
    if w.len() == 0 {
        return Err(Error::about("empty repair plan line ", &decimal_text(number)));
    }
    if w.len() == 1 {
        return Err(complain(number, " is missing an operation id"));
    }
    let id: usize = match parse_number(&w[1], usize::MAX as u64) {
        Some(n) => n as usize,
        None => return Err(complain_about(number, " has invalid operation id `", &w[1], "`")),
    };
    if !has_number(ids, id) {
        let digits = decimal_text(id as u128);
        let mut what = " references unknown operation id ".to_owned();
        what.append(&digits);
        return Err(complain(number, &what));
    }
    if has_number(seen, id) {
        let digits = decimal_text(id as u128);
        let mut what = " repeats operation id ".to_owned();
        what.append(&digits);
        return Err(complain(number, &what));
    }
    let command = w[0].as_str();
    if command.eq("pick") || command.eq("p") || command.eq("apply") {
        Ok(Some((id, true)))
    } else if command.eq("drop") || command.eq("d") || command.eq("skip") || command.eq("s") {
        Ok(Some((id, false)))
    } else {
        Err(complain_about(number, " has unknown command `", command, "`; use `pick` or `drop`"))
    }
}

/// The operations that an edited plan picks.
pub fn parse_repair_plan(contents: &str, operations: &Vec<RepairOperation>) -> (r: Result<
    Vec<usize>,
    Error,
>)
    ensures
        match r {
            Ok(selected) => read_plan(
                lines(contents@),
                operation_ids(operation_views(operations@)),
            ) matches Ok(state) && state.selected == numbers(selected@),
            Err(e) => read_plan(lines(contents@), operation_ids(operation_views(operations@)))
                == Err::<PlanState, Seq<char>>(e@),
        },
{
    let mut ids: Vec<usize> = Vec::new();
    let mut i: usize = 0;
    while i < operations.len()
        invariant
            i <= operations@.len(),
            ids@.len() == i,
            forall|j: int| 0 <= j < i ==> #[trigger] ids@[j] == operations@[j].id,
        decreases operations@.len() - i,
    {
        ids.push(operations[i].id);
        i += 1;
    }
    let ghost known = operation_ids(operation_views(operations@));
    proof {
        assert(numbers(ids@) =~= known);
    }
    let plan = lines_of(contents);
    let ghost all = lines(contents@);
    let mut selected: Vec<usize> = Vec::new();
    let mut seen: Vec<usize> = Vec::new();
    proof {
        assert(numbers(selected@) =~= seq![]);
        assert(numbers(seen@) =~= seq![]);
        assert(views(plan@).len() == plan@.len());
    }
    let mut i: usize = 0;
    while i < plan.len()
        invariant
            i <= plan@.len(),
            all == lines(contents@),
            views(plan@) == all,
            plan@.len() == all.len(),
            numbers(ids@) == known,
            known == operation_ids(operation_views(operations@)),
            read_plan(all.take(i as int), known) == Ok::<PlanState, Seq<char>>(
                PlanState { selected: numbers(selected@), seen: numbers(seen@) },
            ),
        decreases plan@.len() - i,
    {
        let ghost s0 = numbers(selected@);
        let ghost n0 = numbers(seen@);
        proof {
            assert(all.take(i + 1).drop_last() =~= all.take(i as int));
            assert(all.take(i + 1).last() == plan@[i as int]@);
        }
        match read_line(&plan[i], i as u128 + 1, &ids, &seen) {
            Err(error) => {
                proof {
                    lemma_plan_stops(all, known, i + 1);
                }
                return Err(error);
            },
            Ok(None) => {},
            Ok(Some((id, pick))) => {
                if pick {
                    selected.push(id);
                    proof {
                        assert(numbers(selected@) =~= s0.push(id as nat));
                    }
                }
                seen.push(id);
                proof {
                    assert(numbers(seen@) =~= n0.push(id as nat));
                }
            },
        }
        i += 1;
    }
    proof {
        assert(all.take(i as int) =~= all);
    }
    Ok(selected)
}

/// A complaint about the beginning of a plan is the complaint about the plan.
proof fn lemma_plan_stops(plan: Seq<Seq<char>>, ids: Seq<nat>, k: int)
    requires
        0 <= k <= plan.len(),
        read_plan(plan.take(k), ids) is Err,
    ensures
        read_plan(plan, ids) == read_plan(plan.take(k), ids),
    decreases plan.len(),
{
    if k < plan.len() {
        assert(plan.drop_last().take(k) =~= plan.take(k));
        lemma_plan_stops(plan.drop_last(), ids, k);
    } else {
        assert(plan.take(k) =~= plan);
    }
}

/// What came of an operation.
#[derive(Debug)]
pub enum RepairOutcome {
    Done,
    /// A fork or mirror shares the Git directory of its canonical repository.
    Shared(SharedGitDirResolution),
    Failed(String),
}

/// Only a conversion and a relationship can fail without ending the repair, and
/// a relationship that is repaired tells how.
pub open spec fn outcome_fits(kind: KindView, outcome: RepairOutcome) -> bool {
    match kind {
        KindView::PruneStale(_) => outcome is Done,
        KindView::ConvertRepositoryFormat(_) => !(outcome is Shared),
        KindView::TrackUnmanagedCheckout(_) => outcome is Done,
        KindView::RepairRelationship(_) => !(outcome is Done),
    }
}

/// The report with what came of one more operation.
pub open spec fn with_outcome(report: ReportView, kind: KindView, outcome: RepairOutcome)
    -> ReportView {
    match kind {
        KindView::PruneStale(x) => ReportView {
            stale_paths: report.stale_paths.push(
                StaleView {
                    status: RepairStalePathStatus::Pruned,
                    reasons: seq!["removed stale managed checkout metadata"@],
                    blocking_dependents: seq![],
                    ..x
                },
            ),
            ..report
        },
        KindView::ConvertRepositoryFormat(x) => ReportView {
            repository_formats: report.repository_formats.push(
                conversion_finding(
                    x.repo_id,
                    x.locator,
                    x.path,
                    match outcome {
                        RepairOutcome::Failed(text) => Err(text@),
                        _ => Ok(()),
                    },
                ),
            ),
            ..report
        },
        KindView::TrackUnmanagedCheckout(x) => ReportView {
            untracked_checkouts: report.untracked_checkouts.push(
                if x.locator is Some {
                    UntrackedView {
                        status: RepairUntrackedCheckoutStatus::NowTracked,
                        reasons: seq!["recorded previously unmanaged clone-root checkout"@],
                        ..x
                    }
                } else {
                    UntrackedView {
                        status: RepairUntrackedCheckoutStatus::Skipped,
                        reasons: seq![
                            "origin remote is missing or is not a parseable repository locator"@,
                        ],
                        ..x
                    }
                },
            ),
            ..report
        },
        KindView::RepairRelationship(x) => match outcome {
            RepairOutcome::Shared(shared) => ReportView {
                relationships: report.relationships.push(
                    RelationshipView {
                        status: RepairStatus::Repaired,
                        shared_git_dir: Some(shared@),
                        ..x
                    },
                ),
                ..report
            },
            RepairOutcome::Failed(text) => ReportView {
                skipped: report.skipped.push(
                    SkipView {
                        relationship: x.relationship,
                        dependent_locator: x.dependent_locator,
                        controlling_locator: x.controlling_locator,
                        reason: text@,
                    },
                ),
                ..report
            },
            RepairOutcome::Done => report,
        },
    }
}

pub open spec fn empty_report() -> ReportView {
    ReportView {
        action: "check"@,
        check: false,
        repository_formats: seq![],
        stale_paths: seq![],
        untracked_checkouts: seq![],
        relationships: seq![],
        skipped: seq![],
    }
}

/// What the picked operations report, in their order.
pub open spec fn applied(
    operations: Seq<OperationView>,
    selected: Seq<nat>,
    outcomes: Seq<RepairOutcome>,
) -> ReportView
    decreases operations.len(),
{
    if operations.len() == 0 {
        empty_report()
    } else {
        let before = applied(operations.drop_last(), selected, outcomes);
        if selected.contains(operations.last().id) {
            with_outcome(before, operations.last().kind, outcomes[operations.len() - 1])
        } else {
            before
        }
    }
}

/// Adds what came of an operation to the report.
fn record_outcome(report: &mut RepairReport, kind: &RepairOperationKind, outcome: &RepairOutcome)
    requires
        outcome_fits(kind@, *outcome),
    ensures
        final(report)@ == with_outcome(old(report)@, kind@, *outcome),
{
    let ghost before = report@;
    match kind {
        RepairOperationKind::PruneStale(x) => {
            let entry = RepairStalePath {
                repo_id: x.repo_id,
                locator: x.locator.clone(),
                path: x.path.clone(),
                status: RepairStalePathStatus::Pruned,
                reasons: one_text("removed stale managed checkout metadata".to_owned()),
                blocking_dependents: Vec::new(),
            };
            let ghost e = entry@;
            proof {
                assert(e.blocking_dependents =~= seq![]);
            }
            report.stale_paths.push(entry);
            proof {
                assert(report@.stale_paths =~= before.stale_paths.push(e));
            }
        },
        RepairOperationKind::ConvertRepositoryFormat(x) => {
            let outcome = match outcome {
                RepairOutcome::Failed(text) => Err(text.clone()),
                _ => Ok(()),
            };
            let entry = convert_repo_format_to_bare(x.repo_id, &x.locator, &x.path, &outcome);
            let ghost e = entry@;
            report.repository_formats.push(entry);
            proof {
                assert(report@.repository_formats =~= before.repository_formats.push(e));
            }
        },
        RepairOperationKind::TrackUnmanagedCheckout(x) => {
            let entry = match &x.locator {
                Some(locator) => RepairUntrackedCheckout {
                    locator: Some(locator.clone()),
                    path: x.path.clone(),
                    status: RepairUntrackedCheckoutStatus::NowTracked,
                    reasons: one_text(
                        "recorded previously unmanaged clone-root checkout".to_owned(),
                    ),
                },
                None => RepairUntrackedCheckout {
                    locator: None,
                    path: x.path.clone(),
                    status: RepairUntrackedCheckoutStatus::Skipped,
                    reasons: one_text(
                        "origin remote is missing or is not a parseable repository locator".to_owned(),
                    ),
                },
            };
            let ghost e = entry@;
            report.untracked_checkouts.push(entry);
            proof {
                assert(report@.untracked_checkouts =~= before.untracked_checkouts.push(e));
            }
        },
        RepairOperationKind::RepairRelationship(x) => match outcome {
            RepairOutcome::Shared(shared) => {
                let entry = RepairRelationship {
                    relationship: x.relationship.clone(),
                    dependent_locator: x.dependent_locator.clone(),
                    controlling_locator: x.controlling_locator.clone(),
                    dependent_path: x.dependent_path.clone(),
                    controlling_path: x.controlling_path.clone(),
                    status: RepairStatus::Repaired,
                    reasons: clone_texts(&x.reasons),
                    shared_git_dir: Some(shared.clone()),
                };
                let ghost e = entry@;
                report.relationships.push(entry);
                proof {
                    assert(report@.relationships =~= before.relationships.push(e));
                }
            },
            RepairOutcome::Failed(text) => {
                let entry = RepairSkip {
                    relationship: x.relationship.clone(),
                    dependent_locator: x.dependent_locator.clone(),
                    controlling_locator: x.controlling_locator.clone(),
                    reason: text.clone(),
                };
                let ghost e = entry@;
                report.skipped.push(entry);
                proof {
                    assert(report@.skipped =~= before.skipped.push(e));
                }
            },
            RepairOutcome::Done => {},
        },
    }
}

/// Whether an operation is among the picked ones.
pub fn is_selected(operation: &RepairOperation, selected: &Vec<usize>) -> (r: bool)
    ensures
        r == numbers(selected@).contains(operation@.id),
{
    has_number(selected, operation.id)
}

/// The report of a repair, where `outcomes` tells for each operation what came
/// of it, if it was picked.
pub fn apply_repair_operations(
    operations: &Vec<RepairOperation>,
    selected: &Vec<usize>,
    outcomes: &Vec<RepairOutcome>,
) -> (r: RepairReport)
    requires
        outcomes@.len() == operations@.len(),
        forall|i: int|
            0 <= i < operations@.len() && numbers(selected@).contains(
                operations@[i].id as nat,
            ) ==> outcome_fits((#[trigger] operations@[i])@.kind, outcomes@[i]),
    ensures
        r@ == applied(operation_views(operations@), numbers(selected@), outcomes@),
{
    let mut report = RepairReport {
        action: "check",
        check: false,
        repository_formats: Vec::new(),
        stale_paths: Vec::new(),
        untracked_checkouts: Vec::new(),
        relationships: Vec::new(),
        skipped: Vec::new(),
    };
    let ghost all = operation_views(operations@);
    proof {
        assert(report@.repository_formats =~= seq![]);
        assert(report@.stale_paths =~= seq![]);
        assert(report@.untracked_checkouts =~= seq![]);
        assert(report@.relationships =~= seq![]);
        assert(report@.skipped =~= seq![]);
    }
    let mut i: usize = 0;
    while i < operations.len()
        invariant
            i <= operations@.len(),
            all == operation_views(operations@),
            outcomes@.len() == operations@.len(),
            forall|j: int|
                0 <= j < operations@.len() && numbers(selected@).contains(
                    operations@[j].id as nat,
                ) ==> outcome_fits((#[trigger] operations@[j])@.kind, outcomes@[j]),
            report@ == applied(all.take(i as int), numbers(selected@), outcomes@),
        decreases operations@.len() - i,
    {
        proof {
            assert(all.take(i + 1).drop_last() =~= all.take(i as int));
            assert(all.take(i + 1).last() == operations@[i as int]@);
        }
        if is_selected(&operations[i], selected) {
            record_outcome(&mut report, &operations[i].kind, &outcomes[i]);
        }
        i += 1;
    }
    proof {
        assert(all.take(i as int) =~= all);
    }
    report
}

} // verus!
