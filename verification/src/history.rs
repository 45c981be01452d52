//! Shared history: the evidence that two repositories are related, and the
//! report of the pairs that the user has not said anything about.
use crate::error::Error;
use crate::locator::Locator;
use crate::registry::keep;
use crate::registry_relations::{clone_text, RelatedSuggestion, SuggestionView};
use crate::text::{
    clone_texts, contains_item, integer, integer_text, join_texts, join_with, opt_view,
    starts_with, starts_with_str, views,
};
use vstd::prelude::*;
use vstd::utf8::{decode_utf8, encode_utf8, is_char_boundary};

verus! {

/// The first 12 bytes of a hash, where a character ends there.
pub open spec fn short(hash: Seq<char>) -> Seq<char> {
    let bytes = encode_utf8(hash);
    if 12 <= bytes.len() && is_char_boundary(bytes, 12) {
        decode_utf8(bytes.subrange(0, 12))
    } else {
        hash
    }
}

pub fn short_hash(hash: &str) -> (r: String)
    ensures
        r@ == short(hash@),
{
    if hash.as_bytes().len() >= 12 && hash.is_char_boundary(12) {
        let (head, _) = hash.split_at(12);
        proof {
            vstd::utf8::encode_utf8_decode_utf8(head@);
        }
        head.to_owned()
    } else {
        hash.to_owned()
    }
}

pub open spec fn root_text(hash: Seq<char>) -> Seq<char> {
    "shared root commit "@ + short(hash)
}

/// The first three of `other` that are among `current`.
pub open spec fn shared_roots(current: Seq<Seq<char>>, other: Seq<Seq<char>>) -> Seq<Seq<char>> {
    let all = keep(other, |x: Seq<char>| current.contains(x));
    if all.len() > 3 {
        all.take(3)
    } else {
        all
    }
}

/// What is told of the root commits that two repositories share.
pub open spec fn evidence(current: Seq<Seq<char>>, other: Seq<Seq<char>>) -> Seq<Seq<char>> {
    shared_roots(current, other).map_values(|x: Seq<char>| root_text(x))
}

proof fn lemma_keep_take(
    other: Seq<Seq<char>>,
    p: spec_fn(Seq<char>) -> bool,
    k: int,
)
    requires
        0 <= k <= other.len(),
    ensures
        keep(other.take(k), p).len() <= keep(other, p).len(),
        keep(other.take(k), p) == keep(other, p).take(keep(other.take(k), p).len() as int),
    decreases other.len(),
{
    if k < other.len() {
        lemma_keep_take(other.drop_last(), p, k);
        assert(other.drop_last().take(k) =~= other.take(k));
        assert(keep(other.take(k), p) =~= keep(other, p).take(
            keep(other.take(k), p).len() as int,
        ));
    } else {
        assert(other.take(k) =~= other);
        assert(keep(other, p) =~= keep(other, p).take(keep(other, p).len() as int));
    }
}

/// The evidence that repositories with these root commits share history.
pub fn shared_root_evidence(current_roots: &Vec<String>, other_roots: &Vec<String>) -> (r: Vec<
    String,
>)
    ensures
        views(r@) == evidence(views(current_roots@), views(other_roots@)),
{
    broadcast use crate::text::lemma_views_push;

    let ghost current = views(current_roots@);
    let ghost other = views(other_roots@);
    let ghost p = |x: Seq<char>| current.contains(x);
    let ghost f = |x: Seq<char>| root_text(x);
    let mut r: Vec<String> = Vec::new();
    proof {
        assert(keep(other.take(0), p) =~= seq![]);
        assert(views(r@) =~= keep(other.take(0), p).map_values(f));
    }
    let mut i: usize = 0;
    while i < other_roots.len() && r.len() < 3
        invariant
            i <= other_roots@.len(),
            current == views(current_roots@),
            other == views(other_roots@),
            p == (|x: Seq<char>| current.contains(x)),
            f == (|x: Seq<char>| root_text(x)),
            r@.len() <= 3,
            r@.len() == keep(other.take(i as int), p).len(),
            views(r@) == keep(other.take(i as int), p).map_values(f),
        decreases other_roots@.len() - i,
    {
        let ghost before = views(r@);
        proof {
            assert(other.take(i + 1).drop_last() =~= other.take(i as int));
            assert(other.take(i + 1).last() == other_roots@[i as int]@);
        }
        if contains_item(current_roots, &other_roots[i]) {
            let mut text = "shared root commit ".to_owned();
            text.append(&short_hash(&other_roots[i]));
            let ghost t = text@;
            r.push(text);
            proof {
                assert(before.push(t) =~= keep(other.take(i + 1), p).map_values(f));
            }
        }
        i += 1;
    }
    proof {
        let taken = keep(other.take(i as int), p);
        lemma_keep_take(other, p, i as int);
        if i == other_roots@.len() {
            assert(other.take(i as int) =~= other);
        } else {
            assert(taken.len() == 3);
            if keep(other, p).len() == 3 {
                assert(keep(other, p).take(3) =~= keep(other, p));
            }
        }
        if taken.len() == 3 && keep(other, p).len() > 3 {
            assert(taken =~= keep(other, p).take(3));
        }
        assert(views(r@) =~= evidence(current, other));
    }
    r
}

/// Every item tells of a root commit.
pub open spec fn all_roots(refs: Seq<Seq<char>>) -> bool {
    forall|i: int| 0 <= i < refs.len() ==> starts_with(#[trigger] refs[i], "shared root commit "@)
}

/// Recorded evidence, where all of it tells of root commits.
pub fn legacy_shared_root_evidence(shared_refs: &Vec<String>) -> (r: Option<Vec<String>>)
    ensures
        r is Some <==> all_roots(views(shared_refs@)),
        r matches Some(refs) ==> views(refs@) == views(shared_refs@),
{
    let mut i: usize = 0;
    while i < shared_refs.len()
        invariant
            i <= shared_refs@.len(),
            forall|j: int|
                0 <= j < i ==> starts_with(
                    #[trigger] views(shared_refs@)[j],
                    "shared root commit "@,
                ),
        decreases shared_refs@.len() - i,
    {
        proof {
            assert(views(shared_refs@)[i as int] == shared_refs@[i as int]@);
        }
        if !starts_with_str(&shared_refs[i], "shared root commit ") {
            return None;
        }
        i += 1;
    }
    Some(clone_texts(shared_refs))
}

/// What the report goes by: what was found now, if anything was, or else what
/// was recorded.
pub open spec fn evidence_details(found: Option<Seq<Seq<char>>>, recorded: Seq<Seq<char>>) -> Seq<
    Seq<char>,
> {
    if found matches Some(list) && list.len() > 0 {
        found->0
    } else if all_roots(recorded) {
        recorded
    } else {
        seq![]
    }
}

pub open spec fn evidence_summary(details: Seq<Seq<char>>) -> Seq<char> {
    if details.len() == 0 {
        "unknown"@
    } else {
        join_texts(details, ", "@)
    }
}

pub fn summarize_shared_history_evidence(shared_refs: &Vec<String>) -> (r: String)
    ensures
        r@ == evidence_summary(views(shared_refs@)),
{
    if shared_refs.len() == 0 {
        return "unknown".to_owned();
    }
    join_with(shared_refs, ", ")
}

#[derive(Debug)]
pub struct RelatedEvidenceReport {
    pub summary: String,
    pub details: Vec<String>,
}

pub open spec fn opt_views(o: Option<Vec<String>>) -> Option<Seq<Seq<char>>> {
    match o {
        Some(v) => Some(views(v@)),
        None => None,
    }
}

/// The evidence that is reported, where `found` is what the repositories show
/// now, unless they could not be read.
pub fn related_evidence_report(found: &Option<Vec<String>>, recorded: &Vec<String>) -> (r:
    RelatedEvidenceReport)
    ensures
        views(r.details@) == evidence_details(opt_views(*found), views(recorded@)),
        r.summary@ == evidence_summary(views(r.details@)),
{
    let details = match found {
        Some(list) if list.len() > 0 => clone_texts(list),
        _ => match legacy_shared_root_evidence(recorded) {
            Some(refs) => refs,
            None => {
                let none: Vec<String> = Vec::new();
                proof {
                    assert(views(none@) =~= seq![]);
                }
                none
            },
        },
    };
    RelatedEvidenceReport { summary: summarize_shared_history_evidence(&details), details }
}

#[derive(Debug)]
pub struct RelatedRepositoryReport {
    pub repo_id: i64,
    pub locator: Locator,
    pub path: String,
}

#[derive(Debug)]
pub struct RelatedSuggestionReport {
    pub id: i64,
    pub repository: RelatedRepositoryReport,
    pub related: RelatedRepositoryReport,
    pub evidence: RelatedEvidenceReport,
    pub resolution: Option<String>,
    pub resolve_command: String,
}

#[derive(Debug)]
pub struct RelatedListReport {
    pub action: &'static str,
    pub unresolved_count: usize,
    pub suggestions: Vec<RelatedSuggestionReport>,
}

/// `r` reports the suggestion, where `found` is what its repositories show.
pub open spec fn reports(
    r: RelatedSuggestionReport,
    s: SuggestionView,
    found: Option<Vec<String>>,
) -> bool {
    &&& r.id == s.id
    &&& r.repository.repo_id == s.repo_id
    &&& r.repository.locator@ == s.repo_locator
    &&& r.repository.path@ == s.repo_path
    &&& r.related.repo_id == s.related_repo_id
    &&& r.related.locator@ == s.related_locator
    &&& r.related.path@ == s.related_path
    &&& views(r.evidence.details@) == evidence_details(opt_views(found), s.shared_refs)
    &&& r.evidence.summary@ == evidence_summary(views(r.evidence.details@))
    &&& opt_view(r.resolution) == s.resolution
    &&& r.resolve_command@ == "repo related resolve "@ + integer(s.id as int) + " <kind>"@
}

fn report_suggestion(s: &RelatedSuggestion, found: &Option<Vec<String>>) -> (r:
    RelatedSuggestionReport)
    ensures
        reports(r, s@, *found),
{
    let mut command = "repo related resolve ".to_owned();
    command.append(&integer_text(s.id));
    command.append(" <kind>");
    RelatedSuggestionReport {
        id: s.id,
        repository: RelatedRepositoryReport {
            repo_id: s.repo_id,
            locator: s.repo_locator.clone(),
            path: s.repo_path.clone(),
        },
        related: RelatedRepositoryReport {
            repo_id: s.related_repo_id,
            locator: s.related_locator.clone(),
            path: s.related_path.clone(),
        },
        evidence: related_evidence_report(found, &s.shared_refs),
        resolution: clone_text(&s.resolution),
        resolve_command: command,
    }
}

/// The report of the suggestions, where `found` tells for each what its
/// repositories show now, unless they could not be read.
pub fn related_list_report(
    suggestions: &Vec<RelatedSuggestion>,
    found: &Vec<Option<Vec<String>>>,
) -> (r: RelatedListReport)
    requires
        found@.len() == suggestions@.len(),
    ensures
        r.action@ == "related-list"@,
        r.unresolved_count == suggestions@.len(),
        r.suggestions@.len() == suggestions@.len(),
        forall|i: int|
            0 <= i < suggestions@.len() ==> reports(
                #[trigger] r.suggestions@[i],
                suggestions@[i]@,
                found@[i],
            ),
{
    let mut list: Vec<RelatedSuggestionReport> = Vec::new();
    let mut i: usize = 0;
    while i < suggestions.len()
        invariant
            i <= suggestions@.len(),
            found@.len() == suggestions@.len(),
            list@.len() == i,
            forall|j: int|
                0 <= j < i ==> reports(#[trigger] list@[j], suggestions@[j]@, found@[j]),
        decreases suggestions@.len() - i,
    {
        list.push(report_suggestion(&suggestions[i], &found[i]));
        i += 1;
    }
    RelatedListReport {
        action: "related-list",
        unresolved_count: suggestions.len(),
        suggestions: list,
    }
}

/// The words by which the user says what a pair is.
pub open spec fn relationship_kind(kind: Seq<char>) -> bool {
    kind == "mirror"@ || kind == "fork"@ || kind == "canonical"@ || kind == "moved"@ || kind
        == "successor"@ || kind == "unrelated"@
}

pub fn validate_relationship_kind(kind: &str) -> (r: Result<(), Error>)
    ensures
        r is Ok <==> relationship_kind(kind@),
        r matches Err(e) ==> e@ == "invalid relationship kind: "@ + kind@
            + "; expected mirror, fork, canonical, moved, successor, or unrelated"@,
{
    if kind.eq("mirror") || kind.eq("fork") || kind.eq("canonical") || kind.eq("moved") || kind.eq(
        "successor",
    ) || kind.eq("unrelated") {
        return Ok(());
    }
    let mut text = "invalid relationship kind: ".to_owned();
    text.append(kind);
    text.append("; expected mirror, fork, canonical, moved, successor, or unrelated");
    Err(Error::new(text))
}

/// No more than three root commits are told, each of them shared.
pub proof fn evidence_is_shared(current: Seq<Seq<char>>, other: Seq<Seq<char>>)
    ensures
        evidence(current, other).len() <= 3,
        forall|i: int|
            0 <= i < shared_roots(current, other).len() ==> current.contains(
                #[trigger] shared_roots(current, other)[i],
            ) && other.contains(shared_roots(current, other)[i]),
        evidence(current, other).len() == 0 <==> (forall|x: Seq<char>|
            !(#[trigger] current.contains(x) && other.contains(x))),
{
    let p = |x: Seq<char>| current.contains(x);
    crate::registry::lemma_keep(other, p);
    let all = keep(other, p);
    if all.len() == 0 {
        assert forall|x: Seq<char>| !(#[trigger] current.contains(x) && other.contains(x)) by {
            if current.contains(x) && other.contains(x) {
                assert(all.contains(x));
            }
        }
    } else {
        assert(p(all[0]));
        assert(other.contains(all[0]));
    }
    assert forall|i: int| 0 <= i < shared_roots(current, other).len() implies current.contains(
        #[trigger] shared_roots(current, other)[i],
    ) && other.contains(shared_roots(current, other)[i]) by {
        assert(p(all[i]));
        assert(other.contains(all[i]));
    }
}

} // verus!
