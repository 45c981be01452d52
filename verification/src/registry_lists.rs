//! What holds of the lists that the registry gives out.
use crate::locator::LocatorView;
use crate::registry::{
    locator_less, record_of, record_slot, sorted_records, with_id, AliasView, ForkRow, RecordView,
    RegistryView, RelatedView, RepoView,
};
use crate::registry_relations::{
    add_link, add_links, alias_slot, all_links, confirmed_links, fork_link, link_slot,
    sorted_aliases, sorted_forks, suggestion_link, suggestion_of, suggestions, SuggestionView,
};
use crate::relations::LinkView;
use crate::text::{lemma_less_from_total, lemma_less_from_trans, text_less};
use vstd::prelude::*;

verus! {

/// Locators come in the order of their authorities, and under one authority in the
/// order of their remote paths.
pub proof fn locators_are_ordered_by_authority(a: LocatorView, b: LocatorView)
    ensures
        a.authority != b.authority ==> (locator_less(a, b) <==> text_less(a.authority, b.authority)),
        a.authority == b.authority ==> (locator_less(a, b) <==> text_less(
            a.remote_path,
            b.remote_path,
        )),
        locator_less(a, b) || locator_less(b, a) || a == b,
        !(locator_less(a, b) && locator_less(b, a)),
{
    lemma_less_from_total(a.authority, b.authority, 0);
    lemma_less_from_total(a.remote_path, b.remote_path, 0);
}

pub proof fn lemma_locator_less_trans(a: LocatorView, b: LocatorView, c: LocatorView)
    requires
        !locator_less(b, a),
        !locator_less(c, b),
    ensures
        !locator_less(c, a),
{
    locators_are_ordered_by_authority(a, b);
    locators_are_ordered_by_authority(b, c);
    locators_are_ordered_by_authority(a, c);
    lemma_less_from_total(a.authority, b.authority, 0);
    lemma_less_from_total(b.authority, c.authority, 0);
    if text_less(a.authority, b.authority) && text_less(b.authority, c.authority) {
        lemma_less_from_trans(a.authority, b.authority, c.authority, 0);
    }
    if text_less(a.remote_path, b.remote_path) && text_less(b.remote_path, c.remote_path) {
        lemma_less_from_trans(a.remote_path, b.remote_path, c.remote_path, 0);
    }
    lemma_less_from_total(a.authority, c.authority, 0);
}

/// No record comes before one whose locator is smaller.
pub open spec fn records_in_order(records: Seq<RecordView>) -> bool {
    forall|i: int, j: int|
        0 <= i < j < records.len() ==> !locator_less(
            (#[trigger] records[j]).current,
            (#[trigger] records[i]).current,
        )
}

proof fn lemma_record_slot(records: Seq<RecordView>, locator: LocatorView, i: int)
    requires
        0 <= i <= records.len(),
    ensures
        i <= record_slot(records, locator, i) <= records.len(),
        forall|k: int|
            i <= k < record_slot(records, locator, i) ==> !locator_less(
                locator,
                (#[trigger] records[k]).current,
            ),
        record_slot(records, locator, i) < records.len() ==> locator_less(
            locator,
            records[record_slot(records, locator, i)].current,
        ),
    decreases records.len() - i,
{
    if i < records.len() && !locator_less(locator, records[i].current) {
        lemma_record_slot(records, locator, i + 1);
    }
}

pub proof fn lemma_records_insert(before: Seq<RecordView>, record: RecordView)
    requires
        records_in_order(before),
    ensures
        ({
            let after = before.insert(record_slot(before, record.current, 0), record);
            &&& records_in_order(after)
            &&& after.len() == before.len() + 1
            &&& after.contains(record)
            &&& forall|r: RecordView| before.contains(r) ==> #[trigger] after.contains(r)
            &&& forall|j: int|
                0 <= j < after.len() ==> before.contains(#[trigger] after[j]) || after[j] == record
        }),
{
    let k = record_slot(before, record.current, 0);
    lemma_record_slot(before, record.current, 0);
    let after = before.insert(k, record);
    assert(after[k] == record);
    assert forall|r: RecordView| before.contains(r) implies #[trigger] after.contains(r) by {
        let m = choose|m: int| 0 <= m < before.len() && before[m] == r;
        assert(after[if m < k {
            m
        } else {
            m + 1
        }] == r);
    }
    assert forall|j: int| 0 <= j < after.len() implies before.contains(#[trigger] after[j])
        || after[j] == record by {
        if j < k {
            assert(after[j] == before[j]);
        } else if j > k {
            assert(after[j] == before[j - 1]);
        }
    }
    assert forall|i: int, j: int| 0 <= i < j < after.len() implies !locator_less(
        (#[trigger] after[j]).current,
        (#[trigger] after[i]).current,
    ) by {
        if j == k {
            assert(after[i] == before[i]);
        } else if i == k {
            assert(after[j] == before[j - 1]);
            locators_are_ordered_by_authority(record.current, before[k].current);
            if j - 1 > k {
                assert(!locator_less(before[j - 1].current, before[k].current));
                lemma_locator_less_trans(
                    record.current,
                    before[k].current,
                    before[j - 1].current,
                );
            }
        } else {
            let a = if i < k {
                i
            } else {
                i - 1
            };
            let b = if j < k {
                j
            } else {
                j - 1
            };
            assert(after[i] == before[a]);
            assert(after[j] == before[b]);
        }
    }
}

/// Every repository is listed, and nothing else, in the order of the locators.
pub proof fn all_repositories_are_listed(repos: Seq<RepoView>)
    ensures
        records_in_order(sorted_records(repos)),
        sorted_records(repos).len() == repos.len(),
        forall|i: int|
            0 <= i < repos.len() ==> sorted_records(repos).contains(
                RecordView {
                    id: (#[trigger] repos[i]).id,
                    current: repos[i].current,
                    path: repos[i].path,
                },
            ),
        forall|j: int|
            0 <= j < sorted_records(repos).len() ==> exists|i: int|
                0 <= i < repos.len() && #[trigger] sorted_records(repos)[j] == record_of(
                    #[trigger] repos[i],
                ),
    decreases repos.len(),
{
    if repos.len() > 0 {
        let rest = repos.drop_last();
        let before = sorted_records(rest);
        let found = sorted_records(repos);
        let last = record_of(repos.last());
        all_repositories_are_listed(rest);
        lemma_records_insert(before, last);
        assert forall|i: int| 0 <= i < rest.len() implies #[trigger] rest[i] == repos[i] by {}
        assert forall|i: int| 0 <= i < repos.len() implies found.contains(
            RecordView {
                id: (#[trigger] repos[i]).id,
                current: repos[i].current,
                path: repos[i].path,
            },
        ) by {
            if i < rest.len() {
                assert(rest[i] == repos[i]);
                assert(before.contains(record_of(rest[i])));
            } else {
                assert(last == record_of(repos[i]));
            }
        }
        assert forall|j: int| 0 <= j < found.len() implies exists|i: int|
            0 <= i < repos.len() && #[trigger] found[j] == record_of(#[trigger] repos[i]) by {
            if before.contains(found[j]) {
                let m = choose|m: int| 0 <= m < before.len() && before[m] == found[j];
                let i = choose|i: int|
                    0 <= i < rest.len() && before[m] == record_of(#[trigger] rest[i]);
                assert(repos[i] == rest[i]);
            } else {
                assert(found[j] == record_of(repos[repos.len() - 1]));
            }
        }
    }
}

/// A repository with the number, at the place.
pub open spec fn at_place(
    repos: Seq<RepoView>,
    id: i64,
    locator: LocatorView,
    path: Seq<char>,
) -> bool {
    exists|k: int|
        0 <= k < repos.len() && (#[trigger] repos[k]).id == id && repos[k].current == locator
            && repos[k].path == path
}

/// There is a repository with the number.
pub open spec fn is_there(repos: Seq<RepoView>, id: i64) -> bool {
    exists|k: int| 0 <= k < repos.len() && (#[trigger] repos[k]).id == id
}

pub proof fn lemma_with_id(repos: Seq<RepoView>, id: i64, i: int)
    requires
        0 <= i,
    ensures
        ({
            let k = with_id(repos, id, i);
            &&& k == -1 || (i <= k < repos.len() && repos[k].id == id)
            &&& k == -1 ==> forall|j: int| i <= j < repos.len() ==> (#[trigger] repos[j]).id != id
        }),
    decreases repos.len() - i,
{
    if i < repos.len() && repos[i].id != id {
        lemma_with_id(repos, id, i + 1);
    }
}

/// A suggestion tells of a row, and where its two repositories are.
pub open spec fn tells_pair(repos: Seq<RepoView>, row: RelatedView, s: SuggestionView) -> bool {
    &&& s.id == row.id
    &&& s.repo_id == row.repo_id
    &&& s.related_repo_id == row.related_repo_id
    &&& s.shared_refs == row.shared_refs
    &&& s.resolution == row.resolution
    &&& at_place(repos, s.repo_id, s.repo_locator, s.repo_path)
    &&& at_place(repos, s.related_repo_id, s.related_locator, s.related_path)
}

/// A row that is to be told of: both repositories are there, and where only open ones
/// are wanted, nothing was said of it.
pub open spec fn told(repos: Seq<RepoView>, row: RelatedView, unresolved_only: bool) -> bool {
    is_there(repos, row.repo_id) && is_there(repos, row.related_repo_id) && (unresolved_only
        ==> row.resolution is None)
}

pub open spec fn some_tells(
    repos: Seq<RepoView>,
    row: RelatedView,
    list: Seq<SuggestionView>,
) -> bool {
    exists|j: int| 0 <= j < list.len() && tells_pair(repos, row, #[trigger] list[j])
}

pub open spec fn told_of_some(
    repos: Seq<RepoView>,
    rows: Seq<RelatedView>,
    s: SuggestionView,
    unresolved_only: bool,
) -> bool {
    exists|i: int|
        0 <= i < rows.len() && told(repos, #[trigger] rows[i], unresolved_only) && tells_pair(
            repos,
            rows[i],
            s,
        )
}

/// The list of suggestions tells of every pair that is to be told of, and of no other.
pub proof fn suggestions_tell_of_the_pairs(
    repos: Seq<RepoView>,
    rows: Seq<RelatedView>,
    unresolved_only: bool,
)
    ensures
        ({
            let list = suggestions(repos, rows, unresolved_only);
            &&& list.len() <= rows.len()
            &&& forall|i: int|
                0 <= i < rows.len() && told(repos, #[trigger] rows[i], unresolved_only)
                    ==> some_tells(repos, rows[i], list)
            &&& forall|j: int|
                0 <= j < list.len() ==> told_of_some(
                    repos,
                    rows,
                    #[trigger] list[j],
                    unresolved_only,
                )
        }),
    decreases rows.len(),
{
    if rows.len() > 0 {
        let rest = rows.drop_last();
        let last = rows.last();
        let before = suggestions(repos, rest, unresolved_only);
        let list = suggestions(repos, rows, unresolved_only);
        suggestions_tell_of_the_pairs(repos, rest, unresolved_only);
        lemma_with_id(repos, last.repo_id, 0);
        lemma_with_id(repos, last.related_repo_id, 0);
        if told(repos, last, unresolved_only) {
            assert(tells_pair(repos, last, suggestion_of(repos, last)));
            assert(list == before.push(suggestion_of(repos, last)));
            assert(list[before.len() as int] == suggestion_of(repos, last));
        } else {
            assert(list == before);
        }
        assert forall|i: int|
            0 <= i < rows.len() && told(
                repos,
                #[trigger] rows[i],
                unresolved_only,
            ) implies some_tells(repos, rows[i], list) by {
            if i < rest.len() {
                assert(rest[i] == rows[i]);
                let j = choose|j: int|
                    0 <= j < before.len() && tells_pair(repos, rest[i], #[trigger] before[j]);
                assert(list[j] == before[j]);
            } else {
                assert(tells_pair(repos, rows[i], list[before.len() as int]));
            }
        }
        assert forall|j: int| 0 <= j < list.len() implies told_of_some(
            repos,
            rows,
            #[trigger] list[j],
            unresolved_only,
        ) by {
            if j < before.len() {
                assert(before[j] == list[j]);
                let i = choose|i: int|
                    0 <= i < rest.len() && told(repos, #[trigger] rest[i], unresolved_only)
                        && tells_pair(repos, rest[i], before[j]);
                assert(rows[i] == rest[i]);
            } else {
                assert(told(repos, rows[rows.len() - 1], unresolved_only));
            }
        }
    }
}

/// A link between two repositories, of a kind, from the first to the second.
pub open spec fn joins(link: LinkView, kind: Seq<char>, from: i64, to: i64) -> bool {
    link.relationship == kind && link.dependent_repo_id == from && link.controlling_repo_id == to
}

pub open spec fn joined(links: Seq<LinkView>, kind: Seq<char>, from: i64, to: i64) -> bool {
    exists|i: int| 0 <= i < links.len() && joins(#[trigger] links[i], kind, from, to)
}

/// The registry says of the first repository that it is a fork or mirror of the
/// second, and both are there.
pub open spec fn depends(view: RegistryView, kind: Seq<char>, from: i64, to: i64) -> bool {
    &&& is_there(view.repos, from)
    &&& is_there(view.repos, to)
    &&& {
        ||| kind == "fork"@ && view.forks.contains(
            ForkRow { fork_repo_id: from, canonical_repo_id: to },
        )
        ||| (kind == "fork"@ || kind == "mirror"@) && exists|i: int|
            0 <= i < view.related.len() && (#[trigger] view.related[i]).repo_id == from
                && view.related[i].related_repo_id == to && view.related[i].resolution == Some(kind)
    }
}

/// A link tells where its repositories are.
pub open spec fn well_placed(repos: Seq<RepoView>, link: LinkView) -> bool {
    at_place(repos, link.dependent_repo_id, link.dependent_locator, link.dependent_path)
        && at_place(repos, link.controlling_repo_id, link.controlling_locator, link.controlling_path)
}

pub open spec fn from_view(view: RegistryView, link: LinkView) -> bool {
    well_placed(view.repos, link) && depends(
        view,
        link.relationship,
        link.dependent_repo_id,
        link.controlling_repo_id,
    )
}

pub open spec fn no_link_twice(links: Seq<LinkView>) -> bool {
    forall|i: int, j: int|
        0 <= i < j < links.len() ==> !joins(
            #[trigger] links[i],
            (#[trigger] links[j]).relationship,
            links[j].dependent_repo_id,
            links[j].controlling_repo_id,
        )
}

proof fn lemma_add_link(links: Seq<LinkView>, link: LinkView)
    requires
        no_link_twice(links),
    ensures
        no_link_twice(add_link(links, link)),
        joined(
            add_link(links, link),
            link.relationship,
            link.dependent_repo_id,
            link.controlling_repo_id,
        ),
        forall|kind: Seq<char>, from: i64, to: i64|
            joined(links, kind, from, to) ==> #[trigger] joined(
                add_link(links, link),
                kind,
                from,
                to,
            ),
        forall|j: int|
            0 <= j < add_link(links, link).len() ==> #[trigger] add_link(links, link)[j] == link
                || links.contains(add_link(links, link)[j]),
{
    let after = add_link(links, link);
    if after != links {
        assert(after[links.len() as int] == link);
        assert forall|i: int, j: int| 0 <= i < j < after.len() implies !joins(
            #[trigger] after[i],
            (#[trigger] after[j]).relationship,
            after[j].dependent_repo_id,
            after[j].controlling_repo_id,
        ) by {
            assert(after[i] == links[i]);
            if j < links.len() {
                assert(after[j] == links[j]);
            }
        }
    } else {
        let i = choose|i: int|
            0 <= i < links.len() && crate::registry_relations::same_link(
                #[trigger] links[i],
                link,
            );
        if crate::registry_relations::has_link(links, link) {
            assert(joins(
                links[i],
                link.relationship,
                link.dependent_repo_id,
                link.controlling_repo_id,
            ));
        } else {
            assert(after.len() == links.len() + 1);
        }
    }
    assert forall|kind: Seq<char>, from: i64, to: i64|
        joined(links, kind, from, to) implies #[trigger] joined(after, kind, from, to) by {
        let i = choose|i: int| 0 <= i < links.len() && joins(#[trigger] links[i], kind, from, to);
        assert(after[i] == links[i]);
    }
}

proof fn lemma_confirmed(view: RegistryView, list: Seq<SuggestionView>)
    requires
        forall|j: int|
            0 <= j < list.len() ==> told_of_some(
                view.repos,
                view.related,
                #[trigger] list[j],
                false,
            ),
    ensures
        ({
            let links = confirmed_links(list);
            &&& no_link_twice(links)
            &&& forall|i: int| 0 <= i < links.len() ==> from_view(view, #[trigger] links[i])
            &&& forall|j: int|
                0 <= j < list.len() && ((#[trigger] list[j]).resolution == Some("fork"@)
                    || list[j].resolution == Some("mirror"@)) ==> joined(
                    links,
                    list[j].resolution->0,
                    list[j].repo_id,
                    list[j].related_repo_id,
                )
        }),
    decreases list.len(),
{
    if list.len() > 0 {
        let rest = list.drop_last();
        let last = list.last();
        let before = confirmed_links(rest);
        let links = confirmed_links(list);
        assert forall|j: int| 0 <= j < rest.len() implies told_of_some(
            view.repos,
            view.related,
            #[trigger] rest[j],
            false,
        ) by {
            assert(rest[j] == list[j]);
        }
        lemma_confirmed(view, rest);
        let link = suggestion_link(last);
        lemma_add_link(before, link);
        let wanted = last.resolution == Some("fork"@) || last.resolution == Some("mirror"@);
        if wanted {
            assert(list[list.len() - 1] == last);
            let i = choose|i: int|
                0 <= i < view.related.len() && told(view.repos, #[trigger] view.related[i], false)
                    && tells_pair(view.repos, view.related[i], last);
            assert(view.related[i].resolution == Some(link.relationship));
            assert(from_view(view, link));
        }
        assert forall|i: int| 0 <= i < links.len() implies from_view(
            view,
            #[trigger] links[i],
        ) by {
            if wanted {
                if links[i] != link {
                    assert(before.contains(links[i]));
                }
            }
        }
        assert forall|j: int|
            0 <= j < list.len() && ((#[trigger] list[j]).resolution == Some("fork"@)
                || list[j].resolution == Some("mirror"@)) implies joined(
            links,
            list[j].resolution->0,
            list[j].repo_id,
            list[j].related_repo_id,
        ) by {
            if j < rest.len() {
                assert(rest[j] == list[j]);
            }
        }
    }
}

proof fn lemma_link_slot(links: Seq<LinkView>, locator: LocatorView, i: int)
    requires
        0 <= i <= links.len(),
    ensures
        i <= link_slot(links, locator, i) <= links.len(),
    decreases links.len() - i,
{
    if i < links.len() && !locator_less(locator, links[i].dependent_locator) {
        lemma_link_slot(links, locator, i + 1);
    }
}

proof fn lemma_forks(view: RegistryView, rows: Seq<ForkRow>)
    requires
        forall|i: int| 0 <= i < rows.len() ==> view.forks.contains(#[trigger] rows[i]),
    ensures
        ({
            let links = sorted_forks(view.repos, rows);
            &&& forall|i: int| 0 <= i < links.len() ==> from_view(view, #[trigger] links[i])
            &&& forall|i: int|
                0 <= i < rows.len() && is_there(view.repos, (#[trigger] rows[i]).fork_repo_id)
                    && is_there(view.repos, rows[i].canonical_repo_id) ==> joined(
                    links,
                    "fork"@,
                    rows[i].fork_repo_id,
                    rows[i].canonical_repo_id,
                )
        }),
    decreases rows.len(),
{
    if rows.len() > 0 {
        let rest = rows.drop_last();
        let row = rows.last();
        let before = sorted_forks(view.repos, rest);
        let links = sorted_forks(view.repos, rows);
        assert forall|i: int| 0 <= i < rest.len() implies view.forks.contains(
            #[trigger] rest[i],
        ) by {
            assert(rest[i] == rows[i]);
        }
        lemma_forks(view, rest);
        lemma_with_id(view.repos, row.fork_repo_id, 0);
        lemma_with_id(view.repos, row.canonical_repo_id, 0);
        let link = fork_link(view.repos, row);
        let k = link_slot(before, link.dependent_locator, 0);
        lemma_link_slot(before, link.dependent_locator, 0);
        let there = is_there(view.repos, row.fork_repo_id) && is_there(
            view.repos,
            row.canonical_repo_id,
        );
        if there {
            assert(rows[rows.len() - 1] == row);
            assert(view.forks.contains(row));
            assert(row == (ForkRow {
                fork_repo_id: link.dependent_repo_id,
                canonical_repo_id: link.controlling_repo_id,
            }));
            assert(from_view(view, link));
            assert(links == before.insert(k, link));
            assert(links[k] == link);
        } else {
            assert(links == before);
        }
        assert forall|i: int| 0 <= i < links.len() implies from_view(
            view,
            #[trigger] links[i],
        ) by {
            if there && i != k {
                assert(links[i] == before[if i < k {
                    i
                } else {
                    i - 1
                }]);
            }
        }
        assert forall|i: int|
            0 <= i < rows.len() && is_there(view.repos, (#[trigger] rows[i]).fork_repo_id)
                && is_there(view.repos, rows[i].canonical_repo_id) implies joined(
            links,
            "fork"@,
            rows[i].fork_repo_id,
            rows[i].canonical_repo_id,
        ) by {
            if i < rest.len() {
                assert(rest[i] == rows[i]);
                let j = choose|j: int|
                    0 <= j < before.len() && joins(
                        #[trigger] before[j],
                        "fork"@,
                        rows[i].fork_repo_id,
                        rows[i].canonical_repo_id,
                    );
                if there {
                    assert(links[if j < k {
                        j
                    } else {
                        j + 1
                    }] == before[j]);
                }
            } else {
                assert(joins(
                    links[k],
                    "fork"@,
                    rows[i].fork_repo_id,
                    rows[i].canonical_repo_id,
                ));
            }
        }
    }
}

proof fn lemma_add_links(view: RegistryView, links: Seq<LinkView>, more: Seq<LinkView>)
    requires
        no_link_twice(links),
        forall|i: int| 0 <= i < links.len() ==> from_view(view, #[trigger] links[i]),
        forall|i: int| 0 <= i < more.len() ==> from_view(view, #[trigger] more[i]),
    ensures
        ({
            let all = add_links(links, more);
            &&& no_link_twice(all)
            &&& forall|i: int| 0 <= i < all.len() ==> from_view(view, #[trigger] all[i])
            &&& forall|kind: Seq<char>, from: i64, to: i64|
                joined(links, kind, from, to) || joined(more, kind, from, to) ==> #[trigger] joined(
                    all,
                    kind,
                    from,
                    to,
                )
        }),
    decreases more.len(),
{
    if more.len() > 0 {
        let rest = more.drop_last();
        let last = more.last();
        assert forall|i: int| 0 <= i < rest.len() implies from_view(view, #[trigger] rest[i]) by {
            assert(rest[i] == more[i]);
        }
        lemma_add_links(view, links, rest);
        let before = add_links(links, rest);
        let all = add_links(links, more);
        lemma_add_link(before, last);
        assert(from_view(view, more[more.len() - 1]));
        assert forall|i: int| 0 <= i < all.len() implies from_view(view, #[trigger] all[i]) by {
            if all[i] != last {
                assert(before.contains(all[i]));
            }
        }
        assert forall|kind: Seq<char>, from: i64, to: i64|
            joined(links, kind, from, to) || joined(more, kind, from, to) implies #[trigger] joined(
            all,
            kind,
            from,
            to,
        ) by {
            if !joined(links, kind, from, to) {
                let i = choose|i: int|
                    0 <= i < more.len() && joins(#[trigger] more[i], kind, from, to);
                if i < rest.len() {
                    assert(rest[i] == more[i]);
                    assert(joined(rest, kind, from, to));
                    assert(joined(before, kind, from, to));
                }
            } else {
                assert(joined(before, kind, from, to));
            }
        }
    }
}

/// The links are those that the registry says, from the fork or mirror to what it
/// depends on, each once and with where both repositories are.
pub proof fn links_are_what_the_registry_says(view: RegistryView, kind: Seq<char>, from: i64, to: i64)
    ensures
        ({
            let links = all_links(view);
            &&& joined(links, kind, from, to) <==> depends(view, kind, from, to)
            &&& no_link_twice(links)
            &&& forall|i: int| 0 <= i < links.len() ==> well_placed(view.repos, #[trigger] links[i])
        }),
{
    let list = suggestions(view.repos, view.related, false);
    suggestions_tell_of_the_pairs(view.repos, view.related, false);
    lemma_confirmed(view, list);
    lemma_forks(view, view.forks);
    let confirmed = confirmed_links(list);
    let forks = sorted_forks(view.repos, view.forks);
    lemma_add_links(view, confirmed, forks);
    let links = all_links(view);
    if joined(links, kind, from, to) {
        let i = choose|i: int| 0 <= i < links.len() && joins(#[trigger] links[i], kind, from, to);
        assert(from_view(view, links[i]));
    }
    if depends(view, kind, from, to) {
        let row = ForkRow { fork_repo_id: from, canonical_repo_id: to };
        if kind == "fork"@ && view.forks.contains(row) {
            let i = choose|i: int| 0 <= i < view.forks.len() && view.forks[i] == row;
            assert(joined(
                forks,
                "fork"@,
                view.forks[i].fork_repo_id,
                view.forks[i].canonical_repo_id,
            ));
        } else {
            let i = choose|i: int|
                0 <= i < view.related.len() && (#[trigger] view.related[i]).repo_id == from
                    && view.related[i].related_repo_id == to && view.related[i].resolution == Some(
                    kind,
                );
            assert(told(view.repos, view.related[i], false));
            assert(some_tells(view.repos, view.related[i], list));
            let j = choose|j: int|
                0 <= j < list.len() && tells_pair(view.repos, view.related[i], #[trigger] list[j]);
            assert(joined(
                confirmed,
                list[j].resolution->0,
                list[j].repo_id,
                list[j].related_repo_id,
            ));
        }
        assert(joined(links, kind, from, to));
    }
}

/// No path comes before a smaller one.
pub open spec fn paths_in_order(rows: Seq<(Seq<char>, Seq<char>)>) -> bool {
    forall|i: int, j: int|
        0 <= i < j < rows.len() ==> !text_less((#[trigger] rows[j]).0, (#[trigger] rows[i]).0)
}

proof fn lemma_alias_slot(rows: Seq<(Seq<char>, Seq<char>)>, path: Seq<char>, i: int)
    requires
        0 <= i <= rows.len(),
    ensures
        i <= alias_slot(rows, path, i) <= rows.len(),
        forall|k: int|
            i <= k < alias_slot(rows, path, i) ==> !text_less(path, (#[trigger] rows[k]).0),
        alias_slot(rows, path, i) < rows.len() ==> text_less(
            path,
            rows[alias_slot(rows, path, i)].0,
        ),
    decreases rows.len() - i,
{
    if i < rows.len() && !text_less(path, rows[i].0) {
        lemma_alias_slot(rows, path, i + 1);
    }
}

proof fn lemma_aliases_insert(
    before: Seq<(Seq<char>, Seq<char>)>,
    row: (Seq<char>, Seq<char>),
)
    requires
        paths_in_order(before),
    ensures
        ({
            let after = before.insert(alias_slot(before, row.0, 0), row);
            &&& paths_in_order(after)
            &&& after.contains(row)
            &&& forall|r: (Seq<char>, Seq<char>)|
                before.contains(r) ==> #[trigger] after.contains(r)
            &&& forall|r: (Seq<char>, Seq<char>)| #[trigger]
                after.contains(r) ==> before.contains(r) || r == row
        }),
{
    let k = alias_slot(before, row.0, 0);
    lemma_alias_slot(before, row.0, 0);
    let after = before.insert(k, row);
    assert(after[k] == row);
    assert forall|r: (Seq<char>, Seq<char>)| before.contains(r) implies #[trigger] after.contains(
        r,
    ) by {
        let m = choose|m: int| 0 <= m < before.len() && before[m] == r;
        assert(after[if m < k {
            m
        } else {
            m + 1
        }] == r);
    }
    assert forall|r: (Seq<char>, Seq<char>)| #[trigger] after.contains(r) implies before.contains(r)
        || r == row by {
        let m = choose|m: int| 0 <= m < after.len() && after[m] == r;
        if m < k {
            assert(before[m] == r);
        } else if m > k {
            assert(before[m - 1] == r);
        }
    }
    assert forall|i: int, j: int| 0 <= i < j < after.len() implies !text_less(
        (#[trigger] after[j]).0,
        (#[trigger] after[i]).0,
    ) by {
        if j == k {
            assert(after[i] == before[i]);
        } else if i == k {
            assert(after[j] == before[j - 1]);
            lemma_less_from_total(row.0, before[k].0, 0);
            lemma_less_from_total(before[k].0, before[j - 1].0, 0);
            lemma_less_from_total(row.0, before[j - 1].0, 0);
            if text_less(before[k].0, before[j - 1].0) {
                lemma_less_from_trans(row.0, before[k].0, before[j - 1].0, 0);
            }
        } else {
            assert(after[i] == before[if i < k {
                i
            } else {
                i - 1
            }]);
            assert(after[j] == before[if j < k {
                j
            } else {
                j - 1
            }]);
        }
    }
}

/// A repository's aliases are listed, each with what it leads to, and no other
/// repository's, in the order of their paths.
pub proof fn aliases_are_listed_by_path(rows: Seq<AliasView>, id: i64)
    ensures
        ({
            let list = sorted_aliases(rows, id);
            &&& paths_in_order(list)
            &&& forall|i: int|
                0 <= i < rows.len() && (#[trigger] rows[i]).repo_id == id ==> list.contains(
                    (rows[i].alias_path, rows[i].target_path),
                )
            &&& forall|alias: Seq<char>, target: Seq<char>| #[trigger]
                list.contains((alias, target)) ==> rows.contains(
                    AliasView { repo_id: id, alias_path: alias, target_path: target },
                )
        }),
    decreases rows.len(),
{
    if rows.len() > 0 {
        let rest = rows.drop_last();
        let row = rows.last();
        let before = sorted_aliases(rest, id);
        let list = sorted_aliases(rows, id);
        aliases_are_listed_by_path(rest, id);
        lemma_aliases_insert(before, (row.alias_path, row.target_path));
        assert(rows[rows.len() - 1] == row);
        assert forall|i: int| 0 <= i < rows.len() && (#[trigger] rows[i]).repo_id == id
            implies list.contains((rows[i].alias_path, rows[i].target_path)) by {
            if i < rest.len() {
                assert(rest[i] == rows[i]);
            }
        }
        assert forall|alias: Seq<char>, target: Seq<char>| #[trigger]
            list.contains((alias, target)) implies rows.contains(
            AliasView { repo_id: id, alias_path: alias, target_path: target },
        ) by {
            let wanted = AliasView { repo_id: id, alias_path: alias, target_path: target };
            if before.contains((alias, target)) {
                let i = choose|i: int| 0 <= i < rest.len() && rest[i] == wanted;
                assert(rows[i] == wanted);
            }
        }
    }
}

} // verus!
