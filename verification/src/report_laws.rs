//! What holds of every report of a check as the user reads it.
use crate::paths::components;
use crate::repair::{
    FormatView, RelationshipView, RepairRepositoryFormatStatus, RepairStalePathStatus, RepairStatus,
    RepairUntrackedCheckoutStatus, ReportView, SkipView, StaleView, UntrackedView,
};
use crate::repair_text::{
    add_new, count_formats, count_relationships, count_stale, count_untracked, group_slot,
    group_with, grouped, relationship_issues, relationship_item, relationship_items, report_text,
    section_line, skip_item, skip_items, stale_item, stale_items, summarized, summary_text,
    untracked_item, untracked_items, FormatGroup,
};
use crate::text::{contains_text, decimal, occurs_at, starts_with};
use vstd::prelude::*;

verus! {

/// The counts of a report are how many findings have each status.
pub proof fn counts_count_the_findings(
    stale: Seq<StaleView>,
    formats: Seq<FormatView>,
    untracked: Seq<UntrackedView>,
    relationships: Seq<RelationshipView>,
    s: RepairStalePathStatus,
    f: RepairRepositoryFormatStatus,
    u: RepairUntrackedCheckoutStatus,
    r: RepairStatus,
)
    ensures
        count_stale(stale, s) == stale.filter(|x: StaleView| x.status == s).len(),
        count_formats(formats, f) == formats.filter(|x: FormatView| x.status == f).len(),
        count_untracked(untracked, u) == untracked.filter(|x: UntrackedView| x.status == u).len(),
        count_relationships(relationships, r) == relationships.filter(
            |x: RelationshipView| x.status == r,
        ).len(),
    decreases stale.len() + formats.len() + untracked.len() + relationships.len(),
{
    reveal(Seq::filter);
    if stale.len() > 0 {
        counts_count_the_findings(stale.drop_last(), formats, untracked, relationships, s, f, u, r);
    } else if formats.len() > 0 {
        counts_count_the_findings(stale, formats.drop_last(), untracked, relationships, s, f, u, r);
    } else if untracked.len() > 0 {
        counts_count_the_findings(stale, formats, untracked.drop_last(), relationships, s, f, u, r);
    } else if relationships.len() > 0 {
        counts_count_the_findings(stale, formats, untracked, relationships.drop_last(), s, f, u, r);
    }
}

proof fn lemma_in_front(a: Seq<char>, b: Seq<char>, p: Seq<char>)
    requires
        contains_text(a, p),
    ensures
        contains_text(a + b, p),
{
    let i = choose|i: int| occurs_at(a, p, i);
    assert((a + b).subrange(i, i + p.len()) =~= a.subrange(i, i + p.len()));
    assert(occurs_at(a + b, p, i));
}

proof fn lemma_behind(a: Seq<char>, b: Seq<char>, p: Seq<char>)
    requires
        contains_text(b, p),
    ensures
        contains_text(a + b, p),
{
    let i = choose|i: int| occurs_at(b, p, i);
    let k = i + a.len();
    assert((a + b).subrange(k, k + p.len()) =~= b.subrange(i, i + p.len()));
    assert(occurs_at(a + b, p, k));
}

proof fn lemma_whole(p: Seq<char>)
    ensures
        contains_text(p, p),
{
    assert(p.subrange(0, p.len() as int) =~= p);
    assert(occurs_at(p, p, 0));
}

proof fn lemma_within(a: Seq<char>, p: Seq<char>, b: Seq<char>)
    ensures
        contains_text(a + p + b, p),
{
    lemma_whole(p);
    lemma_behind(a, p, p);
    lemma_in_front(a + p, b, p);
}

proof fn lemma_stale_item(number: nat, x: StaleView)
    ensures
        contains_text(stale_item(number, x), x.path),
        contains_text(stale_item(number, x), x.locator.key()),
{
    let line = crate::repair_text::issue_line(
        number,
        crate::repair_text::stale_status(x.status),
        x.locator.key(),
    );
    let place = crate::repair_text::path_line(x.path);
    let reasons = crate::repair_text::reasons_text(
        x.reasons,
        "recorded checkout path does not exist"@,
    );
    let blocked = crate::repair_text::blocking_text(x.blocking_dependents);
    lemma_within(
        "  ["@ + decimal(number) + "] "@ + crate::repair_text::stale_status(x.status) + ": "@,
        x.locator.key(),
        "\n"@,
    );
    lemma_within("      path: "@, x.path, "\n"@);
    lemma_in_front(line, place, x.locator.key());
    lemma_behind(line, place, x.path);
    lemma_in_front(line + place, reasons, x.locator.key());
    lemma_in_front(line + place, reasons, x.path);
    lemma_in_front(line + place + reasons, blocked, x.locator.key());
    lemma_in_front(line + place + reasons, blocked, x.path);
}

proof fn lemma_stale_items(list: Seq<StaleView>, first: nat, i: int)
    requires
        0 <= i < list.len(),
    ensures
        contains_text(stale_items(list, first), list[i].path),
        contains_text(stale_items(list, first), list[i].locator.key()),
    decreases list.len(),
{
    let rest = list.drop_last();
    let number = (first + list.len() - 1) as nat;
    if i < rest.len() {
        lemma_stale_items(rest, first, i);
        assert(rest[i] == list[i]);
        lemma_in_front(stale_items(rest, first), stale_item(number, list.last()), list[i].path);
        lemma_in_front(
            stale_items(rest, first),
            stale_item(number, list.last()),
            list[i].locator.key(),
        );
    } else {
        lemma_stale_item(number, list[i]);
        lemma_behind(stale_items(rest, first), stale_item(number, list[i]), list[i].path);
        lemma_behind(stale_items(rest, first), stale_item(number, list[i]), list[i].locator.key());
    }
}

proof fn lemma_untracked_items(list: Seq<UntrackedView>, first: nat, i: int)
    requires
        0 <= i < list.len(),
    ensures
        contains_text(untracked_items(list, first), list[i].path),
    decreases list.len(),
{
    let rest = list.drop_last();
    let number = (first + list.len() - 1) as nat;
    let x = list.last();
    if i < rest.len() {
        lemma_untracked_items(rest, first, i);
        assert(rest[i] == list[i]);
        lemma_in_front(untracked_items(rest, first), untracked_item(number, x), list[i].path);
    } else {
        let line = crate::repair_text::issue_line(
            number,
            crate::repair_text::untracked_status(x.status),
            match x.locator {
                Some(locator) => locator.key(),
                None => "<unknown>"@,
            },
        );
        let place = crate::repair_text::path_line(x.path);
        lemma_within("      path: "@, x.path, "\n"@);
        lemma_behind(line, place, x.path);
        lemma_in_front(line + place, crate::repair_text::all_reasons_text(x.reasons), x.path);
        lemma_behind(untracked_items(rest, first), untracked_item(number, x), x.path);
    }
}

proof fn lemma_skip_items(list: Seq<SkipView>, first: nat, i: int)
    requires
        0 <= i < list.len(),
    ensures
        contains_text(skip_items(list, first), list[i].reason),
    decreases list.len(),
{
    let rest = list.drop_last();
    let number = (first + list.len() - 1) as nat;
    let x = list.last();
    if i < rest.len() {
        lemma_skip_items(rest, first, i);
        assert(rest[i] == list[i]);
        lemma_in_front(skip_items(rest, first), skip_item(number, x), list[i].reason);
    } else {
        lemma_within(
            "  ["@ + decimal(number) + "] "@ + crate::repair_text::relation_text(
                x.relationship,
                x.dependent_locator,
                x.controlling_locator,
            ) + "\n      reason: "@,
            x.reason,
            "\n"@,
        );
        lemma_behind(skip_items(rest, first), skip_item(number, x), x.reason);
    }
}

proof fn lemma_relationship_items(list: Seq<RelationshipView>, first: nat, i: int)
    requires
        0 <= i < list.len(),
    ensures
        contains_text(
            relationship_items(list, first),
            list[i].dependent_locator.key() + " -> "@ + list[i].controlling_locator.key(),
        ),
    decreases list.len(),
{
    let rest = list.drop_last();
    let number = (first + list.len() - 1) as nat;
    let x = list.last();
    let both = list[i].dependent_locator.key() + " -> "@ + list[i].controlling_locator.key();
    if i < rest.len() {
        lemma_relationship_items(rest, first, i);
        assert(rest[i] == list[i]);
        lemma_in_front(relationship_items(rest, first), relationship_item(number, x), both);
    } else {
        let status = crate::repair_text::repair_status(x.status);
        let what = crate::repair_text::relation_text(
            x.relationship,
            x.dependent_locator,
            x.controlling_locator,
        );
        let line = crate::repair_text::issue_line(number, status, what);
        let head = "  ["@ + decimal(number) + "] "@ + status + ": "@;
        assert(what =~= x.relationship + " "@ + both);
        assert(line =~= head + (x.relationship + " "@) + both + "\n"@);
        lemma_within(head + (x.relationship + " "@), both, "\n"@);
        lemma_in_front(
            line,
            crate::repair_text::all_reasons_text(summarized(x.relationship, x.reasons)),
            both,
        );
        lemma_behind(relationship_items(rest, first), relationship_item(number, x), both);
    }
}

/// The relationships that are told of are those that are not sound.
pub proof fn only_unsound_relationships_are_told(list: Seq<RelationshipView>, x: RelationshipView)
    ensures
        relationship_issues(list).contains(x) <==> list.contains(x) && x.status
            != RepairStatus::Sound,
    decreases list.len(),
{
    if list.len() > 0 {
        let rest = list.drop_last();
        let last = list.last();
        let before = relationship_issues(rest);
        let issues = relationship_issues(list);
        only_unsound_relationships_are_told(rest, x);
        assert(list[list.len() - 1] == last);
        if issues.contains(x) {
            let m = choose|m: int| 0 <= m < issues.len() && issues[m] == x;
            if m < before.len() {
                assert(before[m] == x);
                let i = choose|i: int| 0 <= i < rest.len() && rest[i] == x;
                assert(list[i] == x);
            }
        }
        if list.contains(x) && x.status != RepairStatus::Sound {
            let i = choose|i: int| 0 <= i < list.len() && list[i] == x;
            if i < rest.len() {
                assert(rest[i] == x);
                let m = choose|m: int| 0 <= m < before.len() && before[m] == x;
                assert(issues[m] == x);
            } else {
                assert(issues[before.len() as int] == x);
            }
        }
    }
}

/// The report tells of everything that it holds: where each stale repository was and
/// what it is called, where each untracked checkout is, between which repositories each
/// relationship is that is not sound, and why one was passed over.
pub proof fn reports_tell_what_they_hold(report: ReportView, i: int)
    ensures
        0 <= i < report.stale_paths.len() ==> contains_text(
            report_text(report),
            report.stale_paths[i].path,
        ) && contains_text(report_text(report), report.stale_paths[i].locator.key()),
        0 <= i < report.untracked_checkouts.len() ==> contains_text(
            report_text(report),
            report.untracked_checkouts[i].path,
        ),
        0 <= i < report.relationships.len() && report.relationships[i].status != RepairStatus::Sound
            ==> contains_text(
            report_text(report),
            report.relationships[i].dependent_locator.key() + " -> "@
                + report.relationships[i].controlling_locator.key(),
        ),
        0 <= i < report.skipped.len() ==> contains_text(
            report_text(report),
            report.skipped[i].reason,
        ),
{
    let stale = report.stale_paths.len();
    let groups = grouped(report.repository_formats);
    let untracked = report.untracked_checkouts.len();
    let issues = relationship_issues(report.relationships);
    let a = summary_text(report);
    let b = crate::repair_text::section_text(
        "stale managed path(s): "@,
        stale,
        stale_items(report.stale_paths, 1),
    );
    let c = crate::repair_text::section_text(
        "managed repository format issue(s): "@,
        groups.len(),
        crate::repair_text::format_items(groups, 1 + stale),
    );
    let d = crate::repair_text::section_text(
        "unmanaged clone-root checkout(s): "@,
        untracked,
        untracked_items(report.untracked_checkouts, 1 + stale + groups.len()),
    );
    let e = crate::repair_text::section_text(
        "relationship issue(s): "@,
        issues.len(),
        relationship_items(issues, 1 + stale + groups.len() + untracked),
    );
    let f = crate::repair_text::section_text(
        "skipped relationship(s): "@,
        report.skipped.len(),
        skip_items(report.skipped, 1 + stale + groups.len() + untracked + issues.len()),
    );
    assert(report_text(report) == a + b + c + d + e + f);
    if 0 <= i < report.stale_paths.len() {
        let x = report.stale_paths[i];
        lemma_stale_items(report.stale_paths, 1, i);
        let line = section_line("stale managed path(s): "@, stale);
        let items = stale_items(report.stale_paths, 1);
        lemma_behind(line, items, x.path);
        lemma_behind(line, items, x.locator.key());
        lemma_sections(a, b, c, d, e, f, x.path);
        lemma_sections(a, b, c, d, e, f, x.locator.key());
    }
    if 0 <= i < report.untracked_checkouts.len() {
        let x = report.untracked_checkouts[i];
        let items = untracked_items(report.untracked_checkouts, 1 + stale + groups.len());
        lemma_untracked_items(report.untracked_checkouts, 1 + stale + groups.len(), i);
        lemma_behind(
            section_line("unmanaged clone-root checkout(s): "@, untracked),
            items,
            x.path,
        );
        lemma_sections(a, b, c, d, e, f, x.path);
    }
    if 0 <= i < report.relationships.len() && report.relationships[i].status != RepairStatus::Sound {
        let x = report.relationships[i];
        only_unsound_relationships_are_told(report.relationships, x);
        assert(report.relationships.contains(x));
        let k = choose|k: int| 0 <= k < issues.len() && issues[k] == x;
        let first = 1 + stale + groups.len() + untracked;
        lemma_relationship_items(issues, first, k);
        let both = x.dependent_locator.key() + " -> "@ + x.controlling_locator.key();
        lemma_behind(
            section_line("relationship issue(s): "@, issues.len()),
            relationship_items(issues, first),
            both,
        );
        lemma_sections(a, b, c, d, e, f, both);
    }
    if 0 <= i < report.skipped.len() {
        let x = report.skipped[i];
        let first = 1 + stale + groups.len() + untracked + issues.len();
        lemma_skip_items(report.skipped, first, i);
        lemma_behind(
            section_line("skipped relationship(s): "@, report.skipped.len()),
            skip_items(report.skipped, first),
            x.reason,
        );
        lemma_sections(a, b, c, d, e, f, x.reason);
    }
}

proof fn lemma_sections(
    a: Seq<char>,
    b: Seq<char>,
    c: Seq<char>,
    d: Seq<char>,
    e: Seq<char>,
    f: Seq<char>,
    p: Seq<char>,
)
    requires
        contains_text(b, p) || contains_text(d, p) || contains_text(e, p) || contains_text(f, p),
    ensures
        contains_text(a + b + c + d + e + f, p),
{
    if contains_text(b, p) {
        lemma_behind(a, b, p);
        lemma_in_front(a + b, c, p);
        lemma_in_front(a + b + c, d, p);
        lemma_in_front(a + b + c + d, e, p);
        lemma_in_front(a + b + c + d + e, f, p);
    } else if contains_text(d, p) {
        lemma_behind(a + b + c, d, p);
        lemma_in_front(a + b + c + d, e, p);
        lemma_in_front(a + b + c + d + e, f, p);
    } else if contains_text(e, p) {
        lemma_behind(a + b + c + d, e, p);
        lemma_in_front(a + b + c + d + e, f, p);
    } else {
        lemma_behind(a + b + c + d + e, f, p);
    }
}

proof fn lemma_add_new(have: Seq<Seq<char>>, new: Seq<Seq<char>>, x: Seq<char>)
    ensures
        add_new(have, new).contains(x) <==> have.contains(x) || new.contains(x),
    decreases new.len(),
{
    if new.len() > 0 {
        let rest = new.drop_last();
        let before = add_new(have, rest);
        let all = add_new(have, new);
        lemma_add_new(have, rest, x);
        assert(new[new.len() - 1] == new.last());
        if new.contains(x) {
            let i = choose|i: int| 0 <= i < new.len() && new[i] == x;
            if i < rest.len() {
                assert(rest[i] == x);
            }
        }
        if rest.contains(x) {
            let i = choose|i: int| 0 <= i < rest.len() && rest[i] == x;
            assert(new[i] == x);
        }
        if before.contains(x) {
            let i = choose|i: int| 0 <= i < before.len() && before[i] == x;
            assert(all[i] == x);
        }
        if all.contains(x) && !before.contains(x) {
            let i = choose|i: int| 0 <= i < all.len() && all[i] == x;
            if i < before.len() {
                assert(before[i] == x);
            }
        }
        if !before.contains(new.last()) {
            assert(all[before.len() as int] == new.last());
        }
    }
}

/// A group tells of the format: of its path and status, with its locator and all that
/// is said of it.
pub open spec fn tells_format(g: FormatGroup, f: FormatView) -> bool {
    &&& components(g.path) == components(f.path)
    &&& g.status == f.status
    &&& g.locators.contains(f.locator.authority + "/"@ + f.locator.remote_path)
    &&& forall|x: Seq<char>| #[trigger] f.reasons.contains(x) ==> g.reasons.contains(x)
}

pub open spec fn some_group_tells(groups: Seq<FormatGroup>, f: FormatView) -> bool {
    exists|i: int| 0 <= i < groups.len() && tells_format(#[trigger] groups[i], f)
}

proof fn lemma_group_slot(groups: Seq<FormatGroup>, f: FormatView, i: int)
    requires
        0 <= i <= groups.len(),
    ensures
        i <= group_slot(groups, f, i) <= groups.len(),
    decreases groups.len() - i,
{
    if i < groups.len() && crate::repair_text::group_less(groups[i], f) {
        lemma_group_slot(groups, f, i + 1);
    }
}

proof fn lemma_group_with(g: FormatGroup, f: FormatView, other: FormatView)
    ensures
        components(g.path) == components(f.path) && g.status == f.status ==> tells_format(
            group_with(g, f),
            f,
        ),
        tells_format(g, other) ==> tells_format(group_with(g, f), other),
{
    let after = group_with(g, f);
    assert(after.locators[g.locators.len() as int] == f.locator.key());
    assert forall|x: Seq<char>| f.reasons.contains(x) || g.reasons.contains(
        x,
    ) implies #[trigger] after.reasons.contains(x) by {
        lemma_add_new(g.reasons, f.reasons, x);
    }
    if tells_format(g, other) {
        let key = other.locator.authority + "/"@ + other.locator.remote_path;
        let i = choose|i: int| 0 <= i < g.locators.len() && g.locators[i] == key;
        assert(after.locators[i] == key);
        assert forall|x: Seq<char>| #[trigger] other.reasons.contains(
            x,
        ) implies after.reasons.contains(x) by {
            assert(g.reasons.contains(x));
        }
    }
    assert forall|x: Seq<char>| #[trigger] f.reasons.contains(x) implies after.reasons.contains(
        x,
    ) by {}
}

/// Every format is told of in some group of its path and status, with all that is said
/// of it, and there are no more groups than formats.
pub proof fn every_format_is_in_a_group(formats: Seq<FormatView>, k: int)
    requires
        0 <= k < formats.len(),
    ensures
        some_group_tells(grouped(formats), formats[k]),
        grouped(formats).len() <= formats.len(),
    decreases formats.len(),
{
    let rest = formats.drop_last();
    let last = formats.last();
    let before = grouped(rest);
    let groups = grouped(formats);
    let i = group_slot(before, last, 0);
    lemma_group_slot(before, last, 0);
    let joined = i < before.len() && crate::repair_text::group_holds(before[i], last);
    if k < rest.len() {
        every_format_is_in_a_group(rest, k);
        assert(rest[k] == formats[k]);
        let j = choose|j: int| 0 <= j < before.len() && tells_format(#[trigger] before[j], rest[k]);
        if joined {
            lemma_group_with(before[i], last, rest[k]);
            assert(tells_format(groups[j], formats[k]));
        } else {
            let m = if j < i {
                j
            } else {
                j + 1
            };
            assert(groups[m] == before[j]);
        }
    } else {
        if rest.len() > 0 {
            every_format_is_in_a_group(rest, 0);
        } else {
            assert(before =~= Seq::<FormatGroup>::empty());
        }
        if joined {
            lemma_group_with(before[i], last, last);
        } else {
            lemma_group_with(crate::repair_text::empty_group(last), last, last);
        }
        assert(tells_format(groups[i], formats[k]));
    }
}

/// A reason that is about a repository that is not bare.
pub open spec fn about_bareness(reason: Seq<char>) -> bool {
    starts_with(reason, "canonical checkout is non-bare but clone-as-bare is enabled:"@)
        || contains_text(reason, " checkout is non-bare but clone-as-bare is enabled:"@)
}

proof fn lemma_other_reasons(reasons: Seq<Seq<char>>, x: Seq<char>)
    ensures
        crate::repair_text::other_reasons(reasons).contains(x) <==> reasons.contains(x)
            && !about_bareness(x),
    decreases reasons.len(),
{
    if reasons.len() > 0 {
        let rest = reasons.drop_last();
        let last = reasons.last();
        let before = crate::repair_text::other_reasons(rest);
        let all = crate::repair_text::other_reasons(reasons);
        lemma_other_reasons(rest, x);
        assert(reasons[reasons.len() - 1] == last);
        if reasons.contains(x) {
            let i = choose|i: int| 0 <= i < reasons.len() && reasons[i] == x;
            if i < rest.len() {
                assert(rest[i] == x);
            }
        }
        if rest.contains(x) {
            let i = choose|i: int| 0 <= i < rest.len() && rest[i] == x;
            assert(reasons[i] == x);
        }
        if before.contains(x) {
            let i = choose|i: int| 0 <= i < before.len() && before[i] == x;
            assert(all[i] == x);
        }
        if all.contains(x) && !before.contains(x) {
            let i = choose|i: int| 0 <= i < all.len() && all[i] == x;
            if i < before.len() {
                assert(before[i] == x);
            }
        }
        if all != before {
            assert(all[before.len() as int] == last);
        }
    }
}

/// The reasons of a relationship are all told, but for those about repositories that
/// are not bare, which are told in one sentence.
pub proof fn reasons_are_told_once(
    relationship: Seq<char>,
    reasons: Seq<Seq<char>>,
    x: Seq<char>,
)
    ensures
        ({
            let told = summarized(relationship, reasons);
            let bare = exists|i: int| 0 <= i < reasons.len() && about_bareness(#[trigger] reasons[i]);
            &&& reasons.contains(x) && !about_bareness(x) ==> told.contains(x)
            &&& !bare ==> (told.contains(x) <==> reasons.contains(x))
            &&& bare ==> told.len() > 0
        }),
{
    let others = crate::repair_text::other_reasons(reasons);
    let told = summarized(relationship, reasons);
    lemma_other_reasons(reasons, x);
    if others.contains(x) {
        let i = choose|i: int| 0 <= i < others.len() && others[i] == x;
        assert(told[i] == x);
    }
    let bare = exists|i: int| 0 <= i < reasons.len() && about_bareness(#[trigger] reasons[i]);
    if bare {
        let i = choose|i: int| 0 <= i < reasons.len() && about_bareness(#[trigger] reasons[i]);
        assert(crate::repair_text::canonical_non_bare(reasons[i])
            || crate::repair_text::dependent_non_bare(reasons[i]));
    } else {
        assert forall|i: int| 0 <= i < reasons.len() implies !crate::repair_text::canonical_non_bare(
            #[trigger] reasons[i],
        ) && !crate::repair_text::dependent_non_bare(reasons[i]) by {
            assert(!about_bareness(reasons[i]));
        }
        if reasons.contains(x) {
            let i = choose|i: int| 0 <= i < reasons.len() && reasons[i] == x;
            assert(!about_bareness(reasons[i]));
        }
    }
}

} // verus!
