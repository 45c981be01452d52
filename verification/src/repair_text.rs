//! The report of a check or a repair as text for the terminal.
use crate::locator::{Locator, LocatorView};
use crate::paths::{lemma_path_less_total, path_eq, path_less, rank_paths};
use crate::repair::{
    format_views, relationship_views, skip_views, stale_views, untracked_views, DependentView,
    FormatView, RelationshipView, RepairRelationship, RepairReport, RepairRepositoryFormat,
    RepairRepositoryFormatStatus, RepairSkip, RepairStalePath, RepairStalePathStatus, RepairStatus,
    RepairUntrackedCheckout, RepairUntrackedCheckoutStatus, ReportView, SkipView, StaleView,
    UntrackedView,
};
use crate::text::{
    contains_item, contains_str, contains_text, decimal, decimal_text, join_texts, join_with,
    starts_with, starts_with_str, views, Rank,
};
use vstd::prelude::*;

verus! {

pub open spec fn add_new(have: Seq<Seq<char>>, new: Seq<Seq<char>>) -> Seq<Seq<char>>
    decreases new.len(),
{
    if new.len() == 0 {
        have
    } else {
        let before = add_new(have, new.drop_last());
        if before.contains(new.last()) {
            before
        } else {
            before.push(new.last())
        }
    }
}

fn push_new(have: &mut Vec<String>, new: &Vec<String>)
    ensures
        views(final(have)@) == add_new(views(old(have)@), views(new@)),
{
    broadcast use crate::text::lemma_views_push;

    let ghost all = views(new@);
    let ghost start = views(have@);
    let mut i: usize = 0;
    while i < new.len()
        invariant
            i <= new@.len(),
            all == views(new@),
            views(have@) == add_new(start, all.take(i as int)),
        decreases new@.len() - i,
    {
        proof {
            assert(all.take(i + 1).drop_last() =~= all.take(i as int));
            assert(all.take(i + 1).last() == new@[i as int]@);
        }
        if !contains_item(have, &new[i]) {
            have.push(new[i].clone());
        }
        i += 1;
    }
    proof {
        assert(all.take(i as int) =~= all);
    }
}

/// The formats of one path with one status, taken together.
#[derive(Debug)]
pub struct GroupedRepositoryFormat {
    pub path: String,
    pub status: RepairRepositoryFormatStatus,
    pub locators: Vec<String>,
    pub reasons: Vec<String>,
}

pub struct FormatGroup {
    pub path: Seq<char>,
    pub status: RepairRepositoryFormatStatus,
    pub locators: Seq<Seq<char>>,
    pub reasons: Seq<Seq<char>>,
}

impl View for GroupedRepositoryFormat {
    type V = FormatGroup;

    open spec fn view(&self) -> FormatGroup {
        FormatGroup {
            path: self.path@,
            status: self.status,
            locators: views(self.locators@),
            reasons: views(self.reasons@),
        }
    }
}

pub open spec fn group_views(v: Seq<GroupedRepositoryFormat>) -> Seq<FormatGroup> {
    v.map_values(|g: GroupedRepositoryFormat| g@)
}

pub open spec fn status_number(s: RepairRepositoryFormatStatus) -> int {
    match s {
        RepairRepositoryFormatStatus::NeedsBareConversion => 0,
        RepairRepositoryFormatStatus::ConvertedToBare => 1,
        RepairRepositoryFormatStatus::Skipped => 2,
    }
}

fn number_of(s: RepairRepositoryFormatStatus) -> (r: u8)
    ensures
        r == status_number(s),
{
    match s {
        RepairRepositoryFormatStatus::NeedsBareConversion => 0,
        RepairRepositoryFormatStatus::ConvertedToBare => 1,
        RepairRepositoryFormatStatus::Skipped => 2,
    }
}

/// The group comes before the format, by path and then by status.
pub open spec fn group_less(g: FormatGroup, f: FormatView) -> bool {
    ||| path_less(g.path, f.path)
    ||| path_eq(g.path, f.path) && status_number(g.status) < status_number(f.status)
}

pub open spec fn group_holds(g: FormatGroup, f: FormatView) -> bool {
    path_eq(g.path, f.path) && g.status == f.status
}

/// The first group at or behind `i` that does not come before the format.
pub open spec fn group_slot(groups: Seq<FormatGroup>, f: FormatView, i: int) -> int
    decreases groups.len() - i,
{
    if i < groups.len() && group_less(groups[i], f) {
        group_slot(groups, f, i + 1)
    } else {
        i
    }
}

pub open spec fn group_with(g: FormatGroup, f: FormatView) -> FormatGroup {
    FormatGroup {
        path: g.path,
        status: g.status,
        locators: g.locators.push(f.locator.key()),
        reasons: add_new(g.reasons, f.reasons),
    }
}

pub open spec fn empty_group(f: FormatView) -> FormatGroup {
    FormatGroup { path: f.path, status: f.status, locators: seq![], reasons: seq![] }
}

/// The groups with one more format: in the group of its path and status, or in
/// a new one at its place in the order.
pub open spec fn add_format(groups: Seq<FormatGroup>, f: FormatView) -> Seq<FormatGroup> {
    let i = group_slot(groups, f, 0);
    if i < groups.len() && group_holds(groups[i], f) {
        groups.update(i, group_with(groups[i], f))
    } else {
        groups.insert(i, group_with(empty_group(f), f))
    }
}

pub open spec fn grouped(formats: Seq<FormatView>) -> Seq<FormatGroup>
    decreases formats.len(),
{
    if formats.len() == 0 {
        seq![]
    } else {
        add_format(grouped(formats.drop_last()), formats.last())
    }
}

fn join_group(group: GroupedRepositoryFormat, f: &RepairRepositoryFormat) -> (r:
    GroupedRepositoryFormat)
    ensures
        r@ == group_with(group@, f@),
{
    broadcast use crate::text::lemma_views_push;

    let mut locators = group.locators;
    let mut reasons = group.reasons;
    locators.push(f.locator.key());
    push_new(&mut reasons, &f.reasons);
    GroupedRepositoryFormat { path: group.path, status: group.status, locators, reasons }
}

fn push_format(groups: &mut Vec<GroupedRepositoryFormat>, f: &RepairRepositoryFormat)
    ensures
        group_views(final(groups)@) == add_format(group_views(old(groups)@), f@),
{
    let ghost before = group_views(groups@);
    let mut i: usize = 0;
    let mut found = false;
    while i < groups.len() && !found
        invariant
            i <= groups@.len(),
            groups@ == old(groups)@,
            before == group_views(groups@),
            group_slot(before, f@, i as int) == group_slot(before, f@, 0),
            found ==> i < groups@.len() && !group_less(before[i as int], f@),
        decreases groups@.len() - i, (if found { 0int } else { 1int }),
    {
        proof {
            assert(before[i as int] == groups@[i as int]@);
            lemma_path_less_total(before[i as int].path, f@.path);
        }
        let less = match rank_paths(&groups[i].path, &f.path) {
            Rank::Before => true,
            Rank::Same => number_of(groups[i].status) < number_of(f.status),
            Rank::After => false,
        };
        if less {
            i += 1;
        } else {
            found = true;
        }
    }
    proof {
        assert(group_slot(before, f@, 0) == i);
        if i < groups@.len() {
            assert(before[i as int] == groups@[i as int]@);
        }
    }
    if i < groups.len() && rank_paths(&groups[i].path, &f.path) == Rank::Same && groups[i].status
        == f.status {
        let group = groups.remove(i);
        let ghost g = group@;
        let joined = join_group(group, f);
        let ghost j = joined@;
        groups.insert(i, joined);
        proof {
            assert(group_views(groups@) =~= before.update(i as int, j));
        }
    } else {
        let fresh = GroupedRepositoryFormat {
            path: f.path.clone(),
            status: f.status,
            locators: Vec::new(),
            reasons: Vec::new(),
        };
        proof {
            assert(views(fresh.locators@) =~= seq![]);
            assert(views(fresh.reasons@) =~= seq![]);
        }
        let joined = join_group(fresh, f);
        let ghost j = joined@;
        groups.insert(i, joined);
        proof {
            assert(group_views(groups@) =~= before.insert(i as int, j));
        }
    }
}

pub fn grouped_repository_formats(formats: &Vec<RepairRepositoryFormat>) -> (r: Vec<
    GroupedRepositoryFormat,
>)
    ensures
        group_views(r@) == grouped(format_views(formats@)),
{
    let ghost all = format_views(formats@);
    let mut groups: Vec<GroupedRepositoryFormat> = Vec::new();
    proof {
        assert(group_views(groups@) =~= grouped(all.take(0)));
    }
    let mut i: usize = 0;
    while i < formats.len()
        invariant
            i <= formats@.len(),
            all == format_views(formats@),
            group_views(groups@) == grouped(all.take(i as int)),
        decreases formats@.len() - i,
    {
        push_format(&mut groups, &formats[i]);
        i += 1;
        proof {
            assert(all.take(i as int).drop_last() =~= all.take(i - 1));
            assert(all.take(i as int).last() == formats@[i - 1]@);
        }
    }
    proof {
        assert(all.take(i as int) =~= all);
    }
    groups
}

/// The lines of the reasons that are not among `omitted`.
pub open spec fn reasons_text(reasons: Seq<Seq<char>>, omitted: Seq<char>) -> Seq<char>
    decreases reasons.len(),
{
    if reasons.len() == 0 {
        seq![]
    } else {
        let before = reasons_text(reasons.drop_last(), omitted);
        if reasons.last() == omitted {
            before
        } else {
            before + "      reason: "@ + reasons.last() + "\n"@
        }
    }
}

fn write_reasons(reasons: &Vec<String>, omitted: &str) -> (r: String)
    ensures
        r@ == reasons_text(views(reasons@), omitted@),
{
    let ghost all = views(reasons@);
    let mut r = String::new();
    let mut i: usize = 0;
    while i < reasons.len()
        invariant
            i <= reasons@.len(),
            all == views(reasons@),
            r@ == reasons_text(all.take(i as int), omitted@),
        decreases reasons@.len() - i,
    {
        proof {
            assert(all.take(i + 1).drop_last() =~= all.take(i as int));
            assert(all.take(i + 1).last() == reasons@[i as int]@);
        }
        if !reasons[i].as_str().eq(omitted) {
            r.append("      reason: ");
            r.append(&reasons[i]);
            r.append("\n");
        }
        i += 1;
    }
    proof {
        assert(all.take(i as int) =~= all);
    }
    r
}

/// `  [<number>] <status>: <what>`, a line.
pub open spec fn issue_line(number: nat, status: Seq<char>, what: Seq<char>) -> Seq<char> {
    "  ["@ + decimal(number) + "] "@ + status + ": "@ + what + "\n"@
}

fn write_issue(number: u128, status: &str, what: &str) -> (r: String)
    ensures
        r@ == issue_line(number as nat, status@, what@),
{
    let mut r = "  [".to_owned();
    r.append(&decimal_text(number));
    r.append("] ");
    r.append(status);
    r.append(": ");
    r.append(what);
    r.append("\n");
    r
}

/// A line that counts the items of a section.
pub open spec fn section_line(heading: Seq<char>, count: nat) -> Seq<char> {
    "\n"@ + heading + decimal(count) + "\n"@
}

fn write_section(heading: &str, count: usize) -> (r: String)
    ensures
        r@ == section_line(heading@, count as nat),
{
    let mut r = "\n".to_owned();
    r.append(heading);
    r.append(&decimal_text(count as u128));
    r.append("\n");
    r
}

pub open spec fn path_line(path: Seq<char>) -> Seq<char> {
    "      path: "@ + path + "\n"@
}

fn write_path(path: &str) -> (r: String)
    ensures
        r@ == path_line(path@),
{
    let mut r = "      path: ".to_owned();
    r.append(path);
    r.append("\n");
    r
}

pub open spec fn stale_status(s: RepairStalePathStatus) -> Seq<char> {
    match s {
        RepairStalePathStatus::NeedsPrune => "needs prune"@,
        RepairStalePathStatus::Pruned => "pruned"@,
        RepairStalePathStatus::Blocked => "blocked"@,
    }
}

pub open spec fn blocking_text(dependents: Seq<DependentView>) -> Seq<char>
    decreases dependents.len(),
{
    if dependents.len() == 0 {
        seq![]
    } else {
        let d = dependents.last();
        blocking_text(dependents.drop_last()) + "      blocks "@ + d.relationship + ": "@
            + d.locator.key() + " "@ + d.path + "\n"@
    }
}

pub open spec fn stale_item(number: nat, stale: StaleView) -> Seq<char> {
    issue_line(number, stale_status(stale.status), stale.locator.key()) + path_line(stale.path)
        + reasons_text(stale.reasons, "recorded checkout path does not exist"@) + blocking_text(
        stale.blocking_dependents,
    )
}

fn write_stale(number: u128, stale: &RepairStalePath) -> (r: String)
    ensures
        r@ == stale_item(number as nat, stale@),
{
    let status = match stale.status {
        RepairStalePathStatus::NeedsPrune => "needs prune",
        RepairStalePathStatus::Pruned => "pruned",
        RepairStalePathStatus::Blocked => "blocked",
    };
    let mut r = write_issue(number, status, &stale.locator.key());
    r.append(&write_path(&stale.path));
    r.append(&write_reasons(&stale.reasons, "recorded checkout path does not exist"));
    let ghost start = r@;
    let ghost all = stale@.blocking_dependents;
    let mut i: usize = 0;
    proof {
        assert(start + blocking_text(all.take(0)) =~= start);
    }
    while i < stale.blocking_dependents.len()
        invariant
            i <= stale.blocking_dependents@.len(),
            all == stale@.blocking_dependents,
            r@ == start + blocking_text(all.take(i as int)),
        decreases stale.blocking_dependents@.len() - i,
    {
        let dependent = &stale.blocking_dependents[i];
        r.append("      blocks ");
        r.append(&dependent.relationship);
        r.append(": ");
        r.append(&dependent.locator.key());
        r.append(" ");
        r.append(&dependent.path);
        r.append("\n");
        i += 1;
        proof {
            assert(all.take(i as int).drop_last() =~= all.take(i - 1));
            assert(all.take(i as int).last() == dependent@);
            assert(r@ =~= start + blocking_text(all.take(i as int)));
        }
    }
    proof {
        assert(all.take(i as int) =~= all);
    }
    r
}

pub open spec fn format_status(s: RepairRepositoryFormatStatus) -> Seq<char> {
    match s {
        RepairRepositoryFormatStatus::NeedsBareConversion => "needs bare conversion"@,
        RepairRepositoryFormatStatus::ConvertedToBare => "converted to bare"@,
        RepairRepositoryFormatStatus::Skipped => "skipped"@,
    }
}

pub open spec fn format_item(number: nat, g: FormatGroup) -> Seq<char> {
    issue_line(number, format_status(g.status), g.path) + "      locator(s): "@ + join_texts(
        g.locators,
        ", "@,
    ) + "\n"@ + reasons_text(
        g.reasons,
        "clone-as-bare is enabled but this managed clone-root repository is non-bare"@,
    )
}

fn write_format(number: u128, g: &GroupedRepositoryFormat) -> (r: String)
    ensures
        r@ == format_item(number as nat, g@),
{
    let status = match g.status {
        RepairRepositoryFormatStatus::NeedsBareConversion => "needs bare conversion",
        RepairRepositoryFormatStatus::ConvertedToBare => "converted to bare",
        RepairRepositoryFormatStatus::Skipped => "skipped",
    };
    let mut r = write_issue(number, status, &g.path);
    r.append("      locator(s): ");
    r.append(&join_with(&g.locators, ", "));
    r.append("\n");
    r.append(
        &write_reasons(
            &g.reasons,
            "clone-as-bare is enabled but this managed clone-root repository is non-bare",
        ),
    );
    r
}

pub open spec fn untracked_status(s: RepairUntrackedCheckoutStatus) -> Seq<char> {
    match s {
        RepairUntrackedCheckoutStatus::NeedsTracking => "needs tracking"@,
        RepairUntrackedCheckoutStatus::NowTracked => "tracked"@,
        RepairUntrackedCheckoutStatus::Skipped => "skipped"@,
    }
}

pub open spec fn untracked_item(number: nat, c: UntrackedView) -> Seq<char> {
    issue_line(
        number,
        untracked_status(c.status),
        match c.locator {
            Some(locator) => locator.key(),
            None => "<unknown>"@,
        },
    ) + path_line(c.path) + all_reasons_text(c.reasons)
}

/// The lines of all reasons.
pub open spec fn all_reasons_text(reasons: Seq<Seq<char>>) -> Seq<char>
    decreases reasons.len(),
{
    if reasons.len() == 0 {
        seq![]
    } else {
        all_reasons_text(reasons.drop_last()) + "      reason: "@ + reasons.last() + "\n"@
    }
}

fn write_all_reasons(reasons: &Vec<String>) -> (r: String)
    ensures
        r@ == all_reasons_text(views(reasons@)),
{
    let ghost all = views(reasons@);
    let mut r = String::new();
    let mut i: usize = 0;
    while i < reasons.len()
        invariant
            i <= reasons@.len(),
            all == views(reasons@),
            r@ == all_reasons_text(all.take(i as int)),
        decreases reasons@.len() - i,
    {
        r.append("      reason: ");
        r.append(&reasons[i]);
        r.append("\n");
        i += 1;
        proof {
            assert(all.take(i as int).drop_last() =~= all.take(i - 1));
        }
    }
    proof {
        assert(all.take(i as int) =~= all);
    }
    r
}

fn write_untracked(number: u128, c: &RepairUntrackedCheckout) -> (r: String)
    ensures
        r@ == untracked_item(number as nat, c@),
{
    let status = match c.status {
        RepairUntrackedCheckoutStatus::NeedsTracking => "needs tracking",
        RepairUntrackedCheckoutStatus::NowTracked => "tracked",
        RepairUntrackedCheckoutStatus::Skipped => "skipped",
    };
    let what = match &c.locator {
        Some(locator) => locator.key(),
        None => "<unknown>".to_owned(),
    };
    let mut r = write_issue(number, status, &what);
    r.append(&write_path(&c.path));
    r.append(&write_all_reasons(&c.reasons));
    r
}

pub open spec fn canonical_non_bare(reason: Seq<char>) -> bool {
    starts_with(reason, "canonical checkout is non-bare but clone-as-bare is enabled:"@)
}

pub open spec fn dependent_non_bare(reason: Seq<char>) -> bool {
    !canonical_non_bare(reason) && contains_text(
        reason,
        " checkout is non-bare but clone-as-bare is enabled:"@,
    )
}

/// The reasons that are not about a repository that is not bare, each once.
pub open spec fn other_reasons(reasons: Seq<Seq<char>>) -> Seq<Seq<char>>
    decreases reasons.len(),
{
    if reasons.len() == 0 {
        seq![]
    } else {
        let before = other_reasons(reasons.drop_last());
        let last = reasons.last();
        if canonical_non_bare(last) || dependent_non_bare(last) || before.contains(last) {
            before
        } else {
            before.push(last)
        }
    }
}

/// The reasons of a relationship, with what they say of repositories that are
/// not bare in one sentence at the end.
pub open spec fn summarized(relationship: Seq<char>, reasons: Seq<Seq<char>>) -> Seq<Seq<char>> {
    let canonical = exists|i: int|
        0 <= i < reasons.len() && canonical_non_bare(#[trigger] reasons[i]);
    let dependent = exists|i: int|
        0 <= i < reasons.len() && dependent_non_bare(#[trigger] reasons[i]);
    let others = other_reasons(reasons);
    if canonical && dependent {
        others.push(
            "canonical and "@ + relationship
                + " repositories are non-bare while clone-as-bare is enabled"@,
        )
    } else if canonical {
        others.push("canonical repository is non-bare while clone-as-bare is enabled"@)
    } else if dependent {
        others.push(relationship + " repository is non-bare while clone-as-bare is enabled"@)
    } else {
        others
    }
}

pub fn summarized_relationship_reasons(relationship: &RepairRelationship) -> (r: Vec<String>)
    ensures
        views(r@) == summarized(relationship.relationship@, views(relationship.reasons@)),
{
    broadcast use crate::text::lemma_views_push;

    let ghost all = views(relationship.reasons@);
    let mut r: Vec<String> = Vec::new();
    let mut canonical = false;
    let mut dependent = false;
    proof {
        assert(views(r@) =~= other_reasons(all.take(0)));
    }
    let mut i: usize = 0;
    while i < relationship.reasons.len()
        invariant
            i <= relationship.reasons@.len(),
            all == views(relationship.reasons@),
            views(r@) == other_reasons(all.take(i as int)),
            canonical == exists|j: int| 0 <= j < i && canonical_non_bare(#[trigger] all[j]),
            dependent == exists|j: int| 0 <= j < i && dependent_non_bare(#[trigger] all[j]),
        decreases relationship.reasons@.len() - i,
    {
        let reason = &relationship.reasons[i];
        proof {
            assert(all.take(i + 1).drop_last() =~= all.take(i as int));
            assert(all.take(i + 1).last() == reason@);
            assert(all[i as int] == reason@);
        }
        if starts_with_str(
            reason,
            "canonical checkout is non-bare but clone-as-bare is enabled:",
        ) {
            canonical = true;
        } else if contains_str(reason, " checkout is non-bare but clone-as-bare is enabled:") {
            dependent = true;
        } else if !contains_item(&r, reason) {
            r.push(reason.clone());
        }
        i += 1;
    }
    proof {
        assert(all.take(i as int) =~= all);
    }
    if canonical && dependent {
        let mut text = "canonical and ".to_owned();
        text.append(&relationship.relationship);
        text.append(" repositories are non-bare while clone-as-bare is enabled");
        r.push(text);
    } else if canonical {
        r.push("canonical repository is non-bare while clone-as-bare is enabled".to_owned());
    } else if dependent {
        let mut text = relationship.relationship.clone();
        text.append(" repository is non-bare while clone-as-bare is enabled");
        r.push(text);
    }
    r
}

pub open spec fn relation_text(
    relationship: Seq<char>,
    dependent: LocatorView,
    controlling: LocatorView,
) -> Seq<char> {
    relationship + " "@ + dependent.key() + " -> "@ + controlling.key()
}

fn write_relation(relationship: &str, dependent: &Locator, controlling: &Locator) -> (r: String)
    ensures
        r@ == relation_text(relationship@, dependent@, controlling@),
{
    let mut r = relationship.to_owned();
    r.append(" ");
    r.append(&dependent.key());
    r.append(" -> ");
    r.append(&controlling.key());
    r
}

pub open spec fn repair_status(s: RepairStatus) -> Seq<char> {
    match s {
        RepairStatus::Sound => "ok"@,
        RepairStatus::NeedsRepair => "needs repair"@,
        RepairStatus::Repaired => "repaired"@,
    }
}

pub open spec fn relationship_item(number: nat, r: RelationshipView) -> Seq<char> {
    issue_line(
        number,
        repair_status(r.status),
        relation_text(r.relationship, r.dependent_locator, r.controlling_locator),
    ) + all_reasons_text(summarized(r.relationship, r.reasons))
}

fn write_relationship(number: u128, relationship: &RepairRelationship) -> (r: String)
    ensures
        r@ == relationship_item(number as nat, relationship@),
{
    let status = match relationship.status {
        RepairStatus::Sound => "ok",
        RepairStatus::NeedsRepair => "needs repair",
        RepairStatus::Repaired => "repaired",
    };
    let what = write_relation(
        &relationship.relationship,
        &relationship.dependent_locator,
        &relationship.controlling_locator,
    );
    let mut r = write_issue(number, status, &what);
    r.append(&write_all_reasons(&summarized_relationship_reasons(relationship)));
    r
}

pub open spec fn skip_item(number: nat, s: SkipView) -> Seq<char> {
    "  ["@ + decimal(number) + "] "@ + relation_text(
        s.relationship,
        s.dependent_locator,
        s.controlling_locator,
    ) + "\n      reason: "@ + s.reason + "\n"@
}

fn write_skip(number: u128, s: &RepairSkip) -> (r: String)
    ensures
        r@ == skip_item(number as nat, s@),
{
    let mut r = "  [".to_owned();
    r.append(&decimal_text(number));
    r.append("] ");
    r.append(&write_relation(&s.relationship, &s.dependent_locator, &s.controlling_locator));
    r.append("\n      reason: ");
    r.append(&s.reason);
    r.append("\n");
    r
}

/// The items of `list`, numbered from `first` on.
pub open spec fn stale_items(list: Seq<StaleView>, first: nat) -> Seq<char>
    decreases list.len(),
{
    if list.len() == 0 {
        seq![]
    } else {
        stale_items(list.drop_last(), first) + stale_item(
            (first + list.len() - 1) as nat,
            list.last(),
        )
    }
}

fn write_stale_items(list: &Vec<RepairStalePath>, first: u128) -> (r: String)
    requires
        first <= 0x1_0000_0000_0000_0000_0000,
    ensures
        r@ == stale_items(stale_views(list@), first as nat),
{
    let ghost all = stale_views(list@);
    let mut r = String::new();
    let mut i: usize = 0;
    while i < list.len()
        invariant
            i <= list@.len(),
            first <= 0x1_0000_0000_0000_0000_0000,
            all == stale_views(list@),
            r@ == stale_items(all.take(i as int), first as nat),
        decreases list@.len() - i,
    {
        r.append(&write_stale(first + i as u128, &list[i]));
        i += 1;
        proof {
            assert(all.take(i as int).drop_last() =~= all.take(i - 1));
            assert(all.take(i as int).last() == list@[i - 1]@);
        }
    }
    proof {
        assert(all.take(i as int) =~= all);
    }
    r
}

/// The items of `list`, numbered from `first` on.
pub open spec fn format_items(list: Seq<FormatGroup>, first: nat) -> Seq<char>
    decreases list.len(),
{
    if list.len() == 0 {
        seq![]
    } else {
        format_items(list.drop_last(), first) + format_item(
            (first + list.len() - 1) as nat,
            list.last(),
        )
    }
}

fn write_format_items(list: &Vec<GroupedRepositoryFormat>, first: u128) -> (r: String)
    requires
        first <= 0x1_0000_0000_0000_0000_0000,
    ensures
        r@ == format_items(group_views(list@), first as nat),
{
    let ghost all = group_views(list@);
    let mut r = String::new();
    let mut i: usize = 0;
    while i < list.len()
        invariant
            i <= list@.len(),
            first <= 0x1_0000_0000_0000_0000_0000,
            all == group_views(list@),
            r@ == format_items(all.take(i as int), first as nat),
        decreases list@.len() - i,
    {
        r.append(&write_format(first + i as u128, &list[i]));
        i += 1;
        proof {
            assert(all.take(i as int).drop_last() =~= all.take(i - 1));
            assert(all.take(i as int).last() == list@[i - 1]@);
        }
    }
    proof {
        assert(all.take(i as int) =~= all);
    }
    r
}

/// The items of `list`, numbered from `first` on.
pub open spec fn untracked_items(list: Seq<UntrackedView>, first: nat) -> Seq<char>
    decreases list.len(),
{
    if list.len() == 0 {
        seq![]
    } else {
        untracked_items(list.drop_last(), first) + untracked_item(
            (first + list.len() - 1) as nat,
            list.last(),
        )
    }
}

fn write_untracked_items(list: &Vec<RepairUntrackedCheckout>, first: u128) -> (r: String)
    requires
        first <= 0x1_0000_0000_0000_0000_0000,
    ensures
        r@ == untracked_items(untracked_views(list@), first as nat),
{
    let ghost all = untracked_views(list@);
    let mut r = String::new();
    let mut i: usize = 0;
    while i < list.len()
        invariant
            i <= list@.len(),
            first <= 0x1_0000_0000_0000_0000_0000,
            all == untracked_views(list@),
            r@ == untracked_items(all.take(i as int), first as nat),
        decreases list@.len() - i,
    {
        r.append(&write_untracked(first + i as u128, &list[i]));
        i += 1;
        proof {
            assert(all.take(i as int).drop_last() =~= all.take(i - 1));
            assert(all.take(i as int).last() == list@[i - 1]@);
        }
    }
    proof {
        assert(all.take(i as int) =~= all);
    }
    r
}

/// The items of `list`, numbered from `first` on.
pub open spec fn skip_items(list: Seq<SkipView>, first: nat) -> Seq<char>
    decreases list.len(),
{
    if list.len() == 0 {
        seq![]
    } else {
        skip_items(list.drop_last(), first) + skip_item(
            (first + list.len() - 1) as nat,
            list.last(),
        )
    }
}

fn write_skip_items(list: &Vec<RepairSkip>, first: u128) -> (r: String)
    requires
        first <= 0x1_0000_0000_0000_0000_0000,
    ensures
        r@ == skip_items(skip_views(list@), first as nat),
{
    let ghost all = skip_views(list@);
    let mut r = String::new();
    let mut i: usize = 0;
    while i < list.len()
        invariant
            i <= list@.len(),
            first <= 0x1_0000_0000_0000_0000_0000,
            all == skip_views(list@),
            r@ == skip_items(all.take(i as int), first as nat),
        decreases list@.len() - i,
    {
        r.append(&write_skip(first + i as u128, &list[i]));
        i += 1;
        proof {
            assert(all.take(i as int).drop_last() =~= all.take(i - 1));
            assert(all.take(i as int).last() == list@[i - 1]@);
        }
    }
    proof {
        assert(all.take(i as int) =~= all);
    }
    r
}

/// The relationships that are not sound.
pub open spec fn relationship_issues(list: Seq<RelationshipView>) -> Seq<RelationshipView>
    decreases list.len(),
{
    if list.len() == 0 {
        seq![]
    } else if list.last().status == RepairStatus::Sound {
        relationship_issues(list.drop_last())
    } else {
        relationship_issues(list.drop_last()).push(list.last())
    }
}

/// The items of `list`, numbered from `first` on.
pub open spec fn relationship_items(list: Seq<RelationshipView>, first: nat) -> Seq<char>
    decreases list.len(),
{
    if list.len() == 0 {
        seq![]
    } else {
        relationship_items(list.drop_last(), first) + relationship_item(
            (first + list.len() - 1) as nat,
            list.last(),
        )
    }
}

/// The items of the relationships that are not sound, and how many they are.
fn write_relationship_items(list: &Vec<RepairRelationship>, first: u128) -> (r: (String, usize))
    requires
        first <= 0x1_0000_0000_0000_0000_0000,
    ensures
        r.0@ == relationship_items(relationship_issues(relationship_views(list@)), first as nat),
        r.1 == relationship_issues(relationship_views(list@)).len(),
{
    let ghost all = relationship_views(list@);
    let mut r = String::new();
    let mut n: usize = 0;
    let mut i: usize = 0;
    while i < list.len()
        invariant
            i <= list@.len(),
            n <= i,
            first <= 0x1_0000_0000_0000_0000_0000,
            all == relationship_views(list@),
            n == relationship_issues(all.take(i as int)).len(),
            r@ == relationship_items(relationship_issues(all.take(i as int)), first as nat),
        decreases list@.len() - i,
    {
        proof {
            assert(all.take(i + 1).drop_last() =~= all.take(i as int));
            assert(all.take(i + 1).last() == list@[i as int]@);
        }
        if list[i].status != RepairStatus::Sound {
            r.append(&write_relationship(first + n as u128, &list[i]));
            n += 1;
            proof {
                assert(relationship_issues(all.take(i + 1)).drop_last() =~= relationship_issues(
                    all.take(i as int),
                ));
            }
        }
        i += 1;
    }
    proof {
        assert(all.take(i as int) =~= all);
    }
    (r, n)
}

/// How many items of `list` have the status.
pub open spec fn count_stale(list: Seq<StaleView>, status: RepairStalePathStatus) -> nat
    decreases list.len(),
{
    if list.len() == 0 {
        0
    } else {
        count_stale(list.drop_last(), status) + if list.last().status == status {
            1nat
        } else {
            0nat
        }
    }
}

fn number_stale(list: &Vec<RepairStalePath>, status: RepairStalePathStatus) -> (r: usize)
    ensures
        r == count_stale(stale_views(list@), status),
{
    let ghost all = stale_views(list@);
    let mut n: usize = 0;
    let mut i: usize = 0;
    while i < list.len()
        invariant
            i <= list@.len(),
            n <= i,
            all == stale_views(list@),
            n == count_stale(all.take(i as int), status),
        decreases list@.len() - i,
    {
        proof {
            assert(all.take(i + 1).drop_last() =~= all.take(i as int));
            assert(all.take(i + 1).last() == list@[i as int]@);
        }
        if list[i].status == status {
            n += 1;
        }
        i += 1;
    }
    proof {
        assert(all.take(i as int) =~= all);
    }
    n
}

/// How many items of `list` have the status.
pub open spec fn count_formats(list: Seq<FormatView>, status: RepairRepositoryFormatStatus) -> nat
    decreases list.len(),
{
    if list.len() == 0 {
        0
    } else {
        count_formats(list.drop_last(), status) + if list.last().status == status {
            1nat
        } else {
            0nat
        }
    }
}

fn number_formats(list: &Vec<RepairRepositoryFormat>, status: RepairRepositoryFormatStatus) -> (r: usize)
    ensures
        r == count_formats(format_views(list@), status),
{
    let ghost all = format_views(list@);
    let mut n: usize = 0;
    let mut i: usize = 0;
    while i < list.len()
        invariant
            i <= list@.len(),
            n <= i,
            all == format_views(list@),
            n == count_formats(all.take(i as int), status),
        decreases list@.len() - i,
    {
        proof {
            assert(all.take(i + 1).drop_last() =~= all.take(i as int));
            assert(all.take(i + 1).last() == list@[i as int]@);
        }
        if list[i].status == status {
            n += 1;
        }
        i += 1;
    }
    proof {
        assert(all.take(i as int) =~= all);
    }
    n
}

/// How many items of `list` have the status.
pub open spec fn count_untracked(list: Seq<UntrackedView>, status: RepairUntrackedCheckoutStatus) -> nat
    decreases list.len(),
{
    if list.len() == 0 {
        0
    } else {
        count_untracked(list.drop_last(), status) + if list.last().status == status {
            1nat
        } else {
            0nat
        }
    }
}

fn number_untracked(list: &Vec<RepairUntrackedCheckout>, status: RepairUntrackedCheckoutStatus) -> (r: usize)
    ensures
        r == count_untracked(untracked_views(list@), status),
{
    let ghost all = untracked_views(list@);
    let mut n: usize = 0;
    let mut i: usize = 0;
    while i < list.len()
        invariant
            i <= list@.len(),
            n <= i,
            all == untracked_views(list@),
            n == count_untracked(all.take(i as int), status),
        decreases list@.len() - i,
    {
        proof {
            assert(all.take(i + 1).drop_last() =~= all.take(i as int));
            assert(all.take(i + 1).last() == list@[i as int]@);
        }
        if list[i].status == status {
            n += 1;
        }
        i += 1;
    }
    proof {
        assert(all.take(i as int) =~= all);
    }
    n
}

/// How many items of `list` have the status.
pub open spec fn count_relationships(list: Seq<RelationshipView>, status: RepairStatus) -> nat
    decreases list.len(),
{
    if list.len() == 0 {
        0
    } else {
        count_relationships(list.drop_last(), status) + if list.last().status == status {
            1nat
        } else {
            0nat
        }
    }
}

fn number_relationships(list: &Vec<RepairRelationship>, status: RepairStatus) -> (r: usize)
    ensures
        r == count_relationships(relationship_views(list@), status),
{
    let ghost all = relationship_views(list@);
    let mut n: usize = 0;
    let mut i: usize = 0;
    while i < list.len()
        invariant
            i <= list@.len(),
            n <= i,
            all == relationship_views(list@),
            n == count_relationships(all.take(i as int), status),
        decreases list@.len() - i,
    {
        proof {
            assert(all.take(i + 1).drop_last() =~= all.take(i as int));
            assert(all.take(i + 1).last() == list@[i as int]@);
        }
        if list[i].status == status {
            n += 1;
        }
        i += 1;
    }
    proof {
        assert(all.take(i as int) =~= all);
    }
    n
}

/// `<before><count><behind>`, a line.
pub open spec fn count_line(before: Seq<char>, count: nat, behind: Seq<char>) -> Seq<char> {
    before + decimal(count) + behind + "\n"@
}

fn write_count(before: &str, count: u128, behind: &str) -> (r: String)
    ensures
        r@ == count_line(before@, count as nat, behind@),
{
    let mut r = before.to_owned();
    r.append(&decimal_text(count));
    r.append(behind);
    r.append("\n");
    r
}

/// A count line, where there is something to count.
pub open spec fn some_line(count: nat, behind: Seq<char>) -> Seq<char> {
    if count > 0 {
        count_line(""@, count, behind)
    } else {
        ""@
    }
}

fn write_some(count: usize, behind: &str) -> (r: String)
    ensures
        r@ == some_line(count as nat, behind@),
{
    if count > 0 {
        write_count("", count as u128, behind)
    } else {
        "".to_owned()
    }
}

/// The lines that say how much was found, and how much was done.
pub open spec fn summary_text(report: ReportView) -> Seq<char> {
    let checked = count_line(
        "checked "@,
        report.relationships.len() + report.skipped.len(),
        " managed relationship(s)"@,
    );
    let counts = if report.check {
        checked + count_line(
            ""@,
            count_relationships(report.relationships, RepairStatus::NeedsRepair),
            " relationship(s) need repair"@,
        ) + count_line(
            ""@,
            count_formats(
                report.repository_formats,
                RepairRepositoryFormatStatus::NeedsBareConversion,
            ),
            " repository format(s) need conversion"@,
        ) + count_line(
            ""@,
            count_stale(report.stale_paths, RepairStalePathStatus::NeedsPrune),
            " stale path(s) need pruning"@,
        ) + count_line(
            ""@,
            count_untracked(
                report.untracked_checkouts,
                RepairUntrackedCheckoutStatus::NeedsTracking,
            ),
            " unmanaged checkout(s) need tracking"@,
        )
    } else {
        checked + count_line(
            "repaired "@,
            count_relationships(report.relationships, RepairStatus::Repaired),
            " relationship(s)"@,
        ) + count_line(
            "converted "@,
            count_formats(
                report.repository_formats,
                RepairRepositoryFormatStatus::ConvertedToBare,
            ),
            " repository format(s)"@,
        ) + count_line(
            "pruned "@,
            count_stale(report.stale_paths, RepairStalePathStatus::Pruned),
            " stale managed path(s)"@,
        ) + count_line(
            "tracked "@,
            count_untracked(report.untracked_checkouts, RepairUntrackedCheckoutStatus::NowTracked),
            " unmanaged checkout(s)"@,
        )
    };
    counts + some_line(
        count_formats(report.repository_formats, RepairRepositoryFormatStatus::Skipped),
        " repository format conversion(s) skipped"@,
    ) + some_line(
        count_stale(report.stale_paths, RepairStalePathStatus::Blocked),
        " stale path(s) blocked by existing fork/mirror checkout(s)"@,
    ) + some_line(
        count_untracked(report.untracked_checkouts, RepairUntrackedCheckoutStatus::Skipped),
        " unmanaged checkout(s) skipped"@,
    )
}

fn write_summary(report: &RepairReport) -> (r: String)
    ensures
        r@ == summary_text(report@),
{
    let checked: u128 = report.relationships.len() as u128 + report.skipped.len() as u128;
    let mut r = write_count("checked ", checked, " managed relationship(s)");
    if report.check {
        let n = number_relationships(&report.relationships, RepairStatus::NeedsRepair);
        r.append(&write_count("", n as u128, " relationship(s) need repair"));
        let n = number_formats(
            &report.repository_formats,
            RepairRepositoryFormatStatus::NeedsBareConversion,
        );
        r.append(&write_count("", n as u128, " repository format(s) need conversion"));
        let n = number_stale(&report.stale_paths, RepairStalePathStatus::NeedsPrune);
        r.append(&write_count("", n as u128, " stale path(s) need pruning"));
        let n = number_untracked(
            &report.untracked_checkouts,
            RepairUntrackedCheckoutStatus::NeedsTracking,
        );
        r.append(&write_count("", n as u128, " unmanaged checkout(s) need tracking"));
    } else {
        let n = number_relationships(&report.relationships, RepairStatus::Repaired);
        r.append(&write_count("repaired ", n as u128, " relationship(s)"));
        let n = number_formats(
            &report.repository_formats,
            RepairRepositoryFormatStatus::ConvertedToBare,
        );
        r.append(&write_count("converted ", n as u128, " repository format(s)"));
        let n = number_stale(&report.stale_paths, RepairStalePathStatus::Pruned);
        r.append(&write_count("pruned ", n as u128, " stale managed path(s)"));
        let n = number_untracked(
            &report.untracked_checkouts,
            RepairUntrackedCheckoutStatus::NowTracked,
        );
        r.append(&write_count("tracked ", n as u128, " unmanaged checkout(s)"));
    }
    let n = number_formats(&report.repository_formats, RepairRepositoryFormatStatus::Skipped);
    r.append(&write_some(n, " repository format conversion(s) skipped"));
    let n = number_stale(&report.stale_paths, RepairStalePathStatus::Blocked);
    r.append(&write_some(n, " stale path(s) blocked by existing fork/mirror checkout(s)"));
    let n = number_untracked(&report.untracked_checkouts, RepairUntrackedCheckoutStatus::Skipped);
    r.append(&write_some(n, " unmanaged checkout(s) skipped"));
    r
}

/// A section: its heading with the number of its items, and the items. Nothing
/// where it has none.
pub open spec fn section_text(heading: Seq<char>, count: nat, items: Seq<char>) -> Seq<char> {
    if count == 0 {
        ""@
    } else {
        section_line(heading, count) + items
    }
}

fn write_whole_section(heading: &str, count: usize, items: String) -> (r: String)
    ensures
        r@ == section_text(heading@, count as nat, items@),
{
    if count == 0 {
        "".to_owned()
    } else {
        let mut r = write_section(heading, count);
        r.append(&items);
        r
    }
}

/// The report as text. The issues are numbered from 1 on through all sections.
pub open spec fn report_text(report: ReportView) -> Seq<char> {
    let stale = report.stale_paths.len();
    let groups = grouped(report.repository_formats);
    let untracked = report.untracked_checkouts.len();
    let issues = relationship_issues(report.relationships);
    summary_text(report) + section_text(
        "stale managed path(s): "@,
        stale,
        stale_items(report.stale_paths, 1),
    ) + section_text(
        "managed repository format issue(s): "@,
        groups.len(),
        format_items(groups, 1 + stale),
    ) + section_text(
        "unmanaged clone-root checkout(s): "@,
        untracked,
        untracked_items(report.untracked_checkouts, 1 + stale + groups.len()),
    ) + section_text(
        "relationship issue(s): "@,
        issues.len(),
        relationship_items(issues, 1 + stale + groups.len() + untracked),
    ) + section_text(
        "skipped relationship(s): "@,
        report.skipped.len(),
        skip_items(report.skipped, 1 + stale + groups.len() + untracked + issues.len()),
    )
}

pub fn format_repair_report(report: &RepairReport) -> (r: String)
    ensures
        r@ == report_text(report@),
{
    let mut text = write_summary(report);
    let mut number: u128 = 1;
    let n = report.stale_paths.len();
    let items = write_stale_items(&report.stale_paths, number);
    text.append(&write_whole_section("stale managed path(s): ", n, items));
    number += n as u128;
    let groups = grouped_repository_formats(&report.repository_formats);
    proof {
        assert(group_views(groups@).len() == groups@.len());
    }
    let n = groups.len();
    let items = write_format_items(&groups, number);
    text.append(&write_whole_section("managed repository format issue(s): ", n, items));
    number += n as u128;
    let n = report.untracked_checkouts.len();
    let items = write_untracked_items(&report.untracked_checkouts, number);
    text.append(&write_whole_section("unmanaged clone-root checkout(s): ", n, items));
    number += n as u128;
    let (items, n) = write_relationship_items(&report.relationships, number);
    text.append(&write_whole_section("relationship issue(s): ", n, items));
    number += n as u128;
    let n = report.skipped.len();
    let items = write_skip_items(&report.skipped, number);
    text.append(&write_whole_section("skipped relationship(s): ", n, items));
    text
}

} // verus!
