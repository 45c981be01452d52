//! What holds of every search for shared history.
use crate::detect::{shares, with_found, FoundRepository};
use crate::history::{
    all_roots, evidence, evidence_details, evidence_is_shared, opt_views, reports, shared_roots,
    short, RelatedSuggestionReport,
};
use crate::locator::LocatorView;
use crate::paths::components;
use crate::registry::{keep, RegistryView, RelatedView};
use crate::registry_relations::{history_shared, larger, pair_at, smaller, SuggestionView};
use crate::text::{integer, join_texts, starts_with, views};
use vstd::prelude::*;
use vstd::utf8::{
    encode_utf8, encode_utf8_decode_utf8, encode_utf8_valid_utf8, is_ascii_chars,
    is_ascii_chars_encode_utf8, is_char_boundary, pop_first_scalar,
};

verus! {

/// Two lists have an item in common.
pub open spec fn in_common(a: Seq<Seq<char>>, b: Seq<Seq<char>>) -> bool {
    exists|x: Seq<char>| #[trigger] a.contains(x) && b.contains(x)
}

/// A repository that was found shares the history exactly where it is at another
/// place, has a root commit in common, and its origin has a locator.
pub proof fn shared_history_is_a_common_root(
    place: Seq<char>,
    roots: Seq<Seq<char>>,
    other: FoundRepository,
)
    ensures
        shares(place, roots, other) <==> components(other.place@) != components(place)
            && other.locator is Some && in_common(roots, views(other.roots@)),
{
    evidence_is_shared(roots, views(other.roots@));
}

/// Each item of the evidence tells of a root commit that both have, by the beginning of
/// its hash.
pub proof fn evidence_tells_common_roots(current: Seq<Seq<char>>, other: Seq<Seq<char>>, i: int)
    requires
        0 <= i < evidence(current, other).len(),
    ensures
        exists|hash: Seq<char>| #[trigger]
            current.contains(hash) && other.contains(hash) && evidence(current, other)[i]
                == "shared root commit "@ + short(hash),
{
    evidence_is_shared(current, other);
    let hash = shared_roots(current, other)[i];
    assert(current.contains(hash));
}

/// A hash is told by its first twelve characters, or whole where it is shorter.
pub proof fn hashes_are_told_by_their_beginning(hash: Seq<char>)
    requires
        is_ascii_chars(hash),
    ensures
        hash.len() >= 12 ==> short(hash) == hash.take(12),
        hash.len() < 12 ==> short(hash) == hash,
{
    is_ascii_chars_encode_utf8(hash);
    if hash.len() >= 12 {
        let head = hash.take(12);
        let bytes = encode_utf8(hash);
        is_ascii_chars_encode_utf8(head);
        lemma_ascii_boundary(hash, 12);
        assert(bytes.subrange(0, 12) =~= encode_utf8(head)) by {
            assert forall|i: int| 0 <= i < 12 implies #[trigger] bytes[i] == encode_utf8(head)[i] by {
                assert(hash[i] as u8 == bytes[i]);
                assert(head[i] as u8 == encode_utf8(head)[i]);
            }
        }
        encode_utf8_decode_utf8(head);
    }
}

proof fn lemma_ascii_boundary(chars: Seq<char>, k: int)
    requires
        is_ascii_chars(chars),
        0 <= k <= chars.len(),
    ensures
        is_char_boundary(encode_utf8(chars), k),
    decreases chars.len(),
{
    let bytes = encode_utf8(chars);
    encode_utf8_valid_utf8(chars);
    is_ascii_chars_encode_utf8(chars);
    if k > 0 {
        let rest = chars.drop_first();
        lemma_ascii_boundary(rest, k - 1);
        is_ascii_chars_encode_utf8(rest);
        assert(chars[0] as u8 == bytes[0]);
        assert(pop_first_scalar(bytes) =~= encode_utf8(rest));
    }
}

/// Of root commits in common the first three are told, in the order in which the other
/// repository has them, or all where there are no more.
pub proof fn up_to_three_common_roots_are_told(
    current: Seq<Seq<char>>,
    common: Seq<Seq<char>>,
    rest: Seq<Seq<char>>,
)
    requires
        common.len() <= 3,
        forall|i: int| 0 <= i < common.len() ==> current.contains(#[trigger] common[i]),
        common.len() < 3 ==> forall|i: int|
            0 <= i < rest.len() ==> !current.contains(#[trigger] rest[i]),
    ensures
        evidence(current, common + rest).len() == common.len(),
        forall|i: int|
            0 <= i < common.len() ==> #[trigger] evidence(current, common + rest)[i]
                == "shared root commit "@ + short(common[i]),
{
    let p = |x: Seq<char>| current.contains(x);
    lemma_kept(common, rest, p);
}

proof fn lemma_kept(common: Seq<Seq<char>>, rest: Seq<Seq<char>>, p: spec_fn(Seq<char>) -> bool)
    requires
        forall|i: int| 0 <= i < common.len() ==> p(#[trigger] common[i]),
    ensures
        common.is_prefix_of(keep(common + rest, p)),
        (forall|i: int| 0 <= i < rest.len() ==> !p(#[trigger] rest[i])) ==> keep(common + rest, p)
            == common,
    decreases rest.len(), common.len(),
{
    let all = common + rest;
    if rest.len() > 0 {
        let less = rest.drop_last();
        assert(all.drop_last() =~= common + less);
        lemma_kept(common, less, p);
        if forall|i: int| 0 <= i < rest.len() ==> !p(#[trigger] rest[i]) {
            assert forall|i: int| 0 <= i < less.len() implies !p(#[trigger] less[i]) by {
                assert(less[i] == rest[i]);
            }
            assert(!p(rest[rest.len() - 1]));
        }
    } else if common.len() > 0 {
        let less = common.drop_last();
        assert(all =~= common);
        assert(all.drop_last() =~= less + rest);
        lemma_kept(less, rest, p);
        assert(p(common[common.len() - 1]));
        assert(keep(all, p) =~= common);
    } else {
        assert(all =~= common);
    }
}

/// How many of those that were found share the history.
pub open spec fn sharing(place: Seq<char>, roots: Seq<Seq<char>>, found: Seq<FoundRepository>) -> int {
    found.filter(|other: FoundRepository| shares(place, roots, other)).len() as int
}

/// A row notes that two repositories share history.
pub open spec fn noted(rows: Seq<RelatedView>, a: i64, b: i64) -> bool {
    exists|i: int| 0 <= i < rows.len() && (#[trigger] rows[i]).repo_id == a && rows[i].related_repo_id == b
}

proof fn lemma_noted(rows: Seq<RelatedView>, a: i64, b: i64, refs: Seq<Seq<char>>)
    ensures
        noted(history_shared(rows, a, b, refs), a, b),
        forall|c: i64, d: i64|
            noted(rows, c, d) ==> #[trigger] noted(history_shared(rows, a, b, refs), c, d),
{
    let after = history_shared(rows, a, b, refs);
    lemma_pair_at(rows, a, b, 0);
    let k = pair_at(rows, a, b, 0);
    let at = if 0 <= k < rows.len() {
        k
    } else {
        rows.len() as int
    };
    assert(after[at].repo_id == a && after[at].related_repo_id == b);
    assert forall|c: i64, d: i64| noted(rows, c, d) implies #[trigger] noted(after, c, d) by {
        let i = choose|i: int|
            0 <= i < rows.len() && (#[trigger] rows[i]).repo_id == c && rows[i].related_repo_id == d;
        assert(after[i].repo_id == c && after[i].related_repo_id == d);
    }
}

proof fn lemma_pair_at(rows: Seq<RelatedView>, a: i64, b: i64, i: int)
    requires
        0 <= i,
    ensures
        ({
            let k = pair_at(rows, a, b, i);
            k == -1 || (i <= k < rows.len() && rows[k].repo_id == a && rows[k].related_repo_id == b)
        }),
    decreases rows.len() - i,
{
    if i < rows.len() && !(rows[i].repo_id == a && rows[i].related_repo_id == b) {
        lemma_pair_at(rows, a, b, i + 1);
    }
}

/// Two repositories are noted as a pair, the one with the smaller number first.
pub open spec fn paired(view: RegistryView, a: i64, b: i64) -> bool {
    (a < b && noted(view.related, a, b)) || (b < a && noted(view.related, b, a))
}

/// The repository with the identity that the locator gives is noted as one that
/// shares the history, unless it is the repository itself.
pub open spec fn is_paired(view: RegistryView, id: i64, locator: LocatorView) -> bool {
    exists|k: int|
        0 <= k < view.repos.len() && (#[trigger] view.repos[k]).identity == locator.authority
            + "/"@ + locator.remote_path && (view.repos[k].id == id || paired(
            view,
            id,
            view.repos[k].id,
        ))
}

/// Every repository that was found and shares the history is recorded, and noted as a
/// pair with the repository that the search was for. The others are not counted; only
/// repositories, their places and pairs are touched.
pub proof fn found_history_is_noted(
    view: RegistryView,
    id: i64,
    place: Seq<char>,
    roots: Seq<Seq<char>>,
    found: Seq<FoundRepository>,
)
    ensures
        ({
            let (after, count) = with_found(view, id, place, roots, found);
            &&& count == sharing(place, roots, found)
            &&& forall|i: int|
                0 <= i < found.len() && shares(place, roots, #[trigger] found[i]) ==> is_paired(
                    after,
                    id,
                    found[i].locator->0@,
                )
            &&& after.forks == view.forks
            &&& after.aliases == view.aliases
            &&& after.successors == view.successors
            &&& after.worktrees == view.worktrees
            &&& after.fetches == view.fetches
        }),
    decreases found.len(),
{
    let p = |other: FoundRepository| shares(place, roots, other);
    reveal(Seq::filter);
    if found.len() > 0 {
        let rest = found.drop_last();
        let other = found.last();
        found_history_is_noted(view, id, place, roots, rest);
        let (before, _) = with_found(view, id, place, roots, rest);
        let (after, _) = with_found(view, id, place, roots, found);
        if shares(place, roots, other) {
            lemma_found(before, after, id, place, roots, other);
        }
        assert forall|i: int|
            0 <= i < found.len() && shares(place, roots, #[trigger] found[i]) implies is_paired(
            after,
            id,
            found[i].locator->0@,
        ) by {
            if i < rest.len() {
                assert(rest[i] == found[i]);
                assert(is_paired(before, id, rest[i].locator->0@));
            }
        }
    }
}

proof fn lemma_found(
    before: RegistryView,
    after: RegistryView,
    id: i64,
    place: Seq<char>,
    roots: Seq<Seq<char>>,
    other: FoundRepository,
)
    requires
        other.locator is Some,
        ({
            let locator = other.locator->0@;
            let added = crate::share::with_repo(before, locator, other.path@, None);
            let other_id = crate::registry::repo_id_for(before.repos, locator.key());
            after == if id == other_id {
                added
            } else {
                RegistryView {
                    related: history_shared(
                        added.related,
                        smaller(id, other_id),
                        larger(id, other_id),
                        evidence(roots, views(other.roots@)),
                    ),
                    ..added
                }
            }
        }),
    ensures
        is_paired(after, id, other.locator->0@),
        forall|locator: LocatorView|
            is_paired(before, id, locator) ==> #[trigger] is_paired(after, id, locator),
{
    let found = other.locator->0@;
    let other_id = crate::registry::repo_id_for(before.repos, found.key());
    let at = crate::row_laws::lemma_recorded(before.repos, found, other.path@, None);
    lemma_noted(
        before.related,
        smaller(id, other_id),
        larger(id, other_id),
        evidence(roots, views(other.roots@)),
    );
    assert(after.repos[at].id == other_id);
    assert forall|locator: LocatorView|
        is_paired(before, id, locator) implies #[trigger] is_paired(after, id, locator) by {
        let k = choose|k: int|
            0 <= k < before.repos.len() && (#[trigger] before.repos[k]).identity
                == locator.authority + "/"@ + locator.remote_path && (before.repos[k].id == id
                || paired(before, id, before.repos[k].id));
        assert(after.repos[k].id == before.repos[k].id);
        assert(after.repos[k].identity == before.repos[k].identity);
    }
}

/// The report goes by what the repositories show now; where they show nothing it goes
/// by what was recorded, if that tells of root commits alone, and by nothing else.
pub proof fn reports_prefer_what_is_seen(
    found: Option<Seq<Seq<char>>>,
    recorded: Seq<Seq<char>>,
)
    ensures
        ({
            let details = evidence_details(found, recorded);
            let seen = found is Some && found->0.len() > 0;
            &&& seen ==> details == found->0
            &&& !seen && (forall|i: int|
                0 <= i < recorded.len() ==> starts_with(
                    #[trigger] recorded[i],
                    "shared root commit "@,
                )) ==> details == recorded
            &&& !seen && !(forall|i: int|
                0 <= i < recorded.len() ==> starts_with(
                    #[trigger] recorded[i],
                    "shared root commit "@,
                )) ==> details.len() == 0
        }),
{
    assert(all_roots(recorded) <==> forall|i: int|
        0 <= i < recorded.len() ==> starts_with(#[trigger] recorded[i], "shared root commit "@));
}

/// What is told of a suggestion is the suggestion itself, with the evidence that the
/// report goes by, and the command that resolves it by its number.
pub proof fn suggestions_are_reported_whole(
    r: RelatedSuggestionReport,
    s: SuggestionView,
    found: Option<Vec<String>>,
)
    requires
        reports(r, s, found),
    ensures
        r.id == s.id,
        r.repository.repo_id == s.repo_id,
        r.repository.path@ == s.repo_path,
        r.repository.locator@ == s.repo_locator,
        r.related.repo_id == s.related_repo_id,
        r.related.path@ == s.related_path,
        r.related.locator@ == s.related_locator,
        views(r.evidence.details@) == evidence_details(opt_views(found), s.shared_refs),
        views(r.evidence.details@).len() == 0 ==> r.evidence.summary@ == "unknown"@,
        views(r.evidence.details@).len() > 0 ==> r.evidence.summary@ == join_texts(
            views(r.evidence.details@),
            ", "@,
        ),
        s.resolution is None ==> r.resolution is None,
        s.resolution is Some ==> r.resolution is Some && r.resolution->0@ == s.resolution->0,
        r.resolve_command@ == "repo related resolve "@ + integer(s.id as int) + " <kind>"@,
{
}

} // verus!
