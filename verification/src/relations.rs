//! Fork and mirror relationships: which repository is the canonical one behind
//! another, and through how many forks.
use crate::error::Error;
use crate::locator::{Locator, LocatorView};
use vstd::prelude::*;

verus! {

/// A fork or mirror and the repository that it depends on.
#[derive(Debug)]
pub struct SharedGitDirRelationship {
    pub relationship: String,
    pub dependent_repo_id: i64,
    pub dependent_locator: Locator,
    pub dependent_path: String,
    pub controlling_repo_id: i64,
    pub controlling_locator: Locator,
    pub controlling_path: String,
}

pub struct LinkView {
    pub relationship: Seq<char>,
    pub dependent_repo_id: i64,
    pub dependent_locator: LocatorView,
    pub dependent_path: Seq<char>,
    pub controlling_repo_id: i64,
    pub controlling_locator: LocatorView,
    pub controlling_path: Seq<char>,
}

impl View for SharedGitDirRelationship {
    type V = LinkView;

    open spec fn view(&self) -> LinkView {
        LinkView {
            relationship: self.relationship@,
            dependent_repo_id: self.dependent_repo_id,
            dependent_locator: self.dependent_locator@,
            dependent_path: self.dependent_path@,
            controlling_repo_id: self.controlling_repo_id,
            controlling_locator: self.controlling_locator@,
            controlling_path: self.controlling_path@,
        }
    }
}

pub open spec fn link_views(v: Seq<SharedGitDirRelationship>) -> Seq<LinkView> {
    v.map_values(|r: SharedGitDirRelationship| r@)
}

/// What a fork or mirror goes back to.
#[derive(Debug)]
pub struct RepositoryRelationshipSummary {
    pub repo_id: i64,
    pub relationship: String,
    pub parent_locator: Locator,
    pub parent_path: String,
    pub canonical_repo_id: i64,
    pub canonical_locator: Locator,
    pub canonical_path: String,
    pub depth: usize,
}

pub struct SummaryView {
    pub repo_id: i64,
    pub relationship: Seq<char>,
    pub parent_locator: LocatorView,
    pub parent_path: Seq<char>,
    pub canonical_repo_id: i64,
    pub canonical_locator: LocatorView,
    pub canonical_path: Seq<char>,
    pub depth: nat,
}

impl View for RepositoryRelationshipSummary {
    type V = SummaryView;

    open spec fn view(&self) -> SummaryView {
        SummaryView {
            repo_id: self.repo_id,
            relationship: self.relationship@,
            parent_locator: self.parent_locator@,
            parent_path: self.parent_path@,
            canonical_repo_id: self.canonical_repo_id,
            canonical_locator: self.canonical_locator@,
            canonical_path: self.canonical_path@,
            depth: self.depth as nat,
        }
    }
}

/// The first of `links` at or behind `i` whose fork or mirror is `id`; -1 where
/// there is none.
pub open spec fn link_of(links: Seq<LinkView>, id: i64, i: int) -> int
    decreases links.len() - i,
{
    if i >= links.len() {
        -1
    } else if links[i].dependent_repo_id == id {
        i
    } else {
        link_of(links, id, i + 1)
    }
}

pub proof fn lemma_link_of(links: Seq<LinkView>, id: i64, i: int)
    requires
        0 <= i <= links.len(),
    ensures
        -1 <= link_of(links, id, i) < links.len(),
        link_of(links, id, i) >= 0 ==> link_of(links, id, i) >= i && links[link_of(
            links,
            id,
            i,
        )].dependent_repo_id == id,
        link_of(links, id, i) < 0 ==> forall|j: int|
            i <= j < links.len() ==> (#[trigger] links[j]).dependent_repo_id != id,
    decreases links.len() - i,
{
    if i < links.len() && links[i].dependent_repo_id != id {
        lemma_link_of(links, id, i + 1);
    }
}

/// The link `n` steps above link `k`: each step goes from a repository to the
/// one that it depends on. -1 where the steps lead past the canonical one.
pub open spec fn up(links: Seq<LinkView>, k: int, n: nat) -> int
    decreases n,
{
    if n == 0 {
        k
    } else {
        let below = up(links, k, (n - 1) as nat);
        if below < 0 {
            -1
        } else {
            link_of(links, links[below].controlling_repo_id, 0)
        }
    }
}

/// Each repository is the fork or mirror of at most one other.
pub open spec fn one_parent_each(links: Seq<LinkView>) -> bool {
    forall|i: int, j: int|
        0 <= i < j < links.len() ==> (#[trigger] links[i]).dependent_repo_id != (
        #[trigger] links[j]).dependent_repo_id
}

/// The steps above link `k` end after exactly `n` of them.
pub open spec fn ends_after(links: Seq<LinkView>, k: int, n: nat) -> bool {
    n >= 1 && up(links, k, n) < 0 && up(links, k, (n - 1) as nat) >= 0
}

/// The steps above link `k` come, after `n` of them, for the first time to a
/// link that they came through before.
pub open spec fn repeats_after(links: Seq<LinkView>, k: int, n: nat) -> bool {
    &&& up(links, k, n) >= 0
    &&& exists|m: nat| m < n && #[trigger] up(links, k, m) == up(links, k, n)
    &&& forall|a: nat, b: nat|
        a < b < n ==> #[trigger] up(links, k, a) != #[trigger] up(links, k, b)
}

/// The summary of link `k`, where the steps above it end after `n`.
pub open spec fn summary_after(links: Seq<LinkView>, k: int, n: nat) -> SummaryView {
    let top = links[up(links, k, (n - 1) as nat)];
    SummaryView {
        repo_id: links[k].dependent_repo_id,
        relationship: links[k].relationship,
        parent_locator: links[k].controlling_locator,
        parent_path: links[k].controlling_path,
        canonical_repo_id: top.controlling_repo_id,
        canonical_locator: top.controlling_locator,
        canonical_path: top.controlling_path,
        depth: n,
    }
}

/// `s` is the summary of link `k`.
pub open spec fn is_summary(links: Seq<LinkView>, k: int, s: SummaryView) -> bool {
    exists|n: nat| #[trigger] ends_after(links, k, n) && s == summary_after(links, k, n)
}

/// Link `i` gives a repository a second parent.
pub open spec fn second_parent(links: Seq<LinkView>, i: int) -> bool {
    &&& 0 <= i < links.len()
    &&& exists|j: int|
        0 <= j < i && (#[trigger] links[j]).dependent_repo_id == links[i].dependent_repo_id
    &&& one_parent_each(links.take(i))
}

/// Nothing but the links of a cycle goes round above link `k`.
pub open spec fn in_cycle(links: Seq<LinkView>, k: int, text: Seq<char>) -> bool {
    exists|n: nat| #[trigger]
        repeats_after(links, k, n) && text == "fork/mirror relationship cycle involving "@ + links[up(
            links,
            k,
            n,
        )].dependent_locator.key()
}

/// The steps above link `k` come to an end.
pub open spec fn ends(links: Seq<LinkView>, k: int) -> bool {
    exists|n: nat| #[trigger] ends_after(links, k, n)
}

/// Link `k` is the first one above which the steps go round, and `text` says
/// so.
pub open spec fn first_cycle(links: Seq<LinkView>, k: int, text: Seq<char>) -> bool {
    &&& 0 <= k < links.len()
    &&& in_cycle(links, k, text)
    &&& forall|j: int| 0 <= j < k ==> #[trigger] ends(links, j)
}

/// Link `i` is the first one that gives a repository a second parent, and
/// `text` says so.
pub open spec fn first_second_parent(links: Seq<LinkView>, i: int, text: Seq<char>) -> bool {
    second_parent(links, i) && text == "repository has multiple fork/mirror parents: "@
        + links[i].dependent_locator.key()
}

/// Why there are no summaries of the links.
pub open spec fn summaries_refused(links: Seq<LinkView>, text: Seq<char>) -> bool {
    if one_parent_each(links) {
        exists|k: int| first_cycle(links, k, text)
    } else {
        exists|i: int| first_second_parent(links, i, text)
    }
}

/// There are summaries of the links: nothing speaks against them.
pub open spec fn unrefused(links: Seq<LinkView>) -> bool {
    forall|text: Seq<char>| !#[trigger] summaries_refused(links, text)
}

fn find_link(links: &Vec<SharedGitDirRelationship>, id: i64) -> (r: Option<usize>)
    ensures
        match r {
            Some(i) => i < links@.len() && link_of(link_views(links@), id, 0) == i,
            None => link_of(link_views(links@), id, 0) == -1,
        },
{
    let mut i: usize = 0;
    while i < links.len()
        invariant
            i <= links@.len(),
            link_of(link_views(links@), id, i as int) == link_of(link_views(links@), id, 0),
        decreases links@.len() - i,
    {
        proof {
            assert(link_views(links@)[i as int] == links@[i as int]@);
        }
        if links[i].dependent_repo_id == id {
            return Some(i);
        }
        i += 1;
    }
    None
}

/// The position of `x` in `v`, up to which it does not occur.
fn position(v: &Vec<usize>, x: usize) -> (r: Option<usize>)
    ensures
        match r {
            Some(i) => i < v@.len() && v@[i as int] == x,
            None => forall|i: int| 0 <= i < v@.len() ==> #[trigger] v@[i] != x,
        },
{
    let mut i: usize = 0;
    while i < v.len()
        invariant
            i <= v@.len(),
            forall|j: int| 0 <= j < i ==> #[trigger] v@[j] != x,
        decreases v@.len() - i,
    {
        if v[i] == x {
            return Some(i);
        }
        i += 1;
    }
    None
}

/// Different numbers below `bound` are at most `bound` many.
proof fn lemma_few(v: Seq<usize>, bound: nat)
    requires
        forall|i: int| 0 <= i < v.len() ==> #[trigger] v[i] < bound,
        forall|i: int, j: int| 0 <= i < j < v.len() ==> #[trigger] v[i] != #[trigger] v[j],
    ensures
        v.len() <= bound,
{
    let w = v.map_values(|n: usize| n as int);
    assert(w.no_duplicates()) by {
        assert forall|i: int, j: int|
            0 <= i < w.len() && 0 <= j < w.len() && i != j implies w[i] != w[j] by {
            if i < j {
                assert(v[i] != v[j]);
            } else {
                assert(v[j] != v[i]);
            }
        }
    }
    w.unique_seq_to_set();
    let range = vstd::set_lib::set_int_range(0, bound as int);
    vstd::set_lib::lemma_int_range(0, bound as int);
    assert(w.to_set().subset_of(range)) by {
        assert forall|x: int| w.to_set().contains(x) implies range.contains(x) by {
            let i = choose|i: int| 0 <= i < w.len() && w[i] == x;
            assert(v[i] < bound);
        }
    }
    vstd::set_lib::lemma_len_subset(w.to_set(), range);
}

/// The summary of link `k`, or the complaint about a cycle above it.
fn summarize(links: &Vec<SharedGitDirRelationship>, k: usize) -> (r: Result<
    RepositoryRelationshipSummary,
    Error,
>)
    requires
        k < links@.len(),
    ensures
        match r {
            Ok(s) => is_summary(link_views(links@), k as int, s@),
            Err(e) => in_cycle(link_views(links@), k as int, e@),
        },
{
    let ghost all = link_views(links@);
    let mut seen: Vec<usize> = Vec::new();
    let mut at: usize = k;
    loop
        invariant
            k < links@.len(),
            all == link_views(links@),
            at < links@.len(),
            seen@.len() <= links@.len(),
            at == up(all, k as int, seen@.len()),
            forall|m: int| 0 <= m < seen@.len() ==> #[trigger] seen@[m] == up(all, k as int, m as nat),
            forall|m: int| 0 <= m < seen@.len() ==> #[trigger] seen@[m] < links@.len(),
            forall|a: int, b: int|
                0 <= a < b < seen@.len() ==> #[trigger] seen@[a] != #[trigger] seen@[b],
        decreases links@.len() - seen@.len(),
    {
        proof {
            assert(all.len() == links@.len());
            assert(all[at as int] == links@[at as int]@);
            assert(all[k as int] == links@[k as int]@);
        }
        let ghost n = seen@.len();
        if let Some(m) = position(&seen, at) {
            let text = links[at].dependent_locator.key();
            proof {
                assert(up(all, k as int, m as nat) == up(all, k as int, n));
                assert forall|a: nat, b: nat| a < b < n implies #[trigger] up(all, k as int, a)
                    != #[trigger] up(all, k as int, b) by {
                    assert(seen@[a as int] != seen@[b as int]);
                }
                assert(repeats_after(all, k as int, n));
            }
            return Err(Error::about("fork/mirror relationship cycle involving ", &text));
        }
        let ghost before = seen@;
        seen.push(at);
        proof {
            assert forall|m: int| 0 <= m < seen@.len() implies #[trigger] seen@[m] == up(
                all,
                k as int,
                m as nat,
            ) by {
                if m < before.len() {
                    assert(seen@[m] == before[m]);
                }
            }
            assert forall|a: int, b: int| 0 <= a < b < seen@.len() implies #[trigger] seen@[a]
                != #[trigger] seen@[b] by {
                assert(seen@[a] == before[a]);
                if b < before.len() {
                    assert(seen@[b] == before[b]);
                }
            }
            lemma_few(seen@, links@.len());
        }
        match find_link(links, links[at].controlling_repo_id) {
            Some(next) => {
                at = next;
            },
            None => {
                let depth: usize = seen.len();
                proof {
                    assert(ends_after(all, k as int, depth as nat));
                }
                return Ok(
                    RepositoryRelationshipSummary {
                        repo_id: links[k].dependent_repo_id,
                        relationship: links[k].relationship.clone(),
                        parent_locator: links[k].controlling_locator.clone(),
                        parent_path: links[k].controlling_path.clone(),
                        canonical_repo_id: links[at].controlling_repo_id,
                        canonical_locator: links[at].controlling_locator.clone(),
                        canonical_path: links[at].controlling_path.clone(),
                        depth,
                    },
                );
            },
        }
    }
}

/// The index of the first link that gives a repository a second parent.
fn find_second_parent(links: &Vec<SharedGitDirRelationship>) -> (r: Option<usize>)
    ensures
        match r {
            Some(i) => second_parent(link_views(links@), i as int),
            None => one_parent_each(link_views(links@)),
        },
{
    let ghost all = link_views(links@);
    let mut i: usize = 0;
    while i < links.len()
        invariant
            i <= links@.len(),
            all == link_views(links@),
            one_parent_each(all.take(i as int)),
        decreases links@.len() - i,
    {
        let mut j: usize = 0;
        while j < i
            invariant
                j <= i < links@.len(),
                all == link_views(links@),
                one_parent_each(all.take(i as int)),
                forall|m: int|
                    0 <= m < j ==> (#[trigger] all[m]).dependent_repo_id
                        != all[i as int].dependent_repo_id,
            decreases i - j,
        {
            proof {
                assert(all[j as int] == links@[j as int]@);
                assert(all[i as int] == links@[i as int]@);
            }
            if links[j].dependent_repo_id == links[i].dependent_repo_id {
                return Some(i);
            }
            j += 1;
        }
        proof {
            let next = all.take(i + 1);
            assert forall|a: int, b: int| 0 <= a < b < next.len() implies (
            #[trigger] next[a]).dependent_repo_id != (#[trigger] next[b]).dependent_repo_id by {
                assert(next[a] == all[a]);
                assert(next[b] == all[b]);
                if b < i {
                    assert(all.take(i as int)[a] == all[a]);
                    assert(all.take(i as int)[b] == all[b]);
                }
            }
        }
        i += 1;
    }
    proof {
        assert(all.take(i as int) =~= all);
    }
    None
}

/// What each fork and mirror goes back to, in the order of the links. No
/// repository may have two parents, and no chain of forks may go round.
pub fn relationship_summaries(links: &Vec<SharedGitDirRelationship>) -> (r: Result<
    Vec<RepositoryRelationshipSummary>,
    Error,
>)
    ensures
        match r {
            Ok(summaries) => {
                &&& one_parent_each(link_views(links@))
                &&& unrefused(link_views(links@))
                &&& summaries@.len() == links@.len()
                &&& forall|k: int|
                    0 <= k < links@.len() ==> is_summary(
                        link_views(links@),
                        k,
                        (#[trigger] summaries@[k])@,
                    )
            },
            Err(e) => summaries_refused(link_views(links@), e@),
        },
{
    if let Some(i) = find_second_parent(links) {
        let error = Error::about(
            "repository has multiple fork/mirror parents: ",
            &links[i].dependent_locator.key(),
        );
        proof {
            assert(link_views(links@)[i as int] == links@[i as int]@);
            assert(first_second_parent(link_views(links@), i as int, error@));
        }
        return Err(error);
    }
    let mut summaries: Vec<RepositoryRelationshipSummary> = Vec::new();
    let mut k: usize = 0;
    while k < links.len()
        invariant
            k <= links@.len(),
            one_parent_each(link_views(links@)),
            summaries@.len() == k,
            forall|j: int|
                0 <= j < k ==> is_summary(link_views(links@), j, (#[trigger] summaries@[j])@),
        decreases links@.len() - k,
    {
        match summarize(links, k) {
            Ok(summary) => {
                summaries.push(summary);
            },
            Err(error) => {
                proof {
                    assert(link_views(links@).len() == links@.len());
                    assert forall|j: int| 0 <= j < k implies #[trigger] ends(
                        link_views(links@),
                        j,
                    ) by {
                        assert(is_summary(link_views(links@), j, summaries@[j]@));
                    }
                    assert(first_cycle(link_views(links@), k as int, error@));
                    assert(summaries_refused(link_views(links@), error@));
                }
                return Err(error);
            },
        }
        k += 1;
    }
    proof {
        let all = link_views(links@);
        assert(all.len() == links@.len());
        assert forall|text: Seq<char>| !#[trigger] summaries_refused(all, text) by {
            if summaries_refused(all, text) {
                let c = choose|c: int| first_cycle(all, c, text);
                ending_chain_has_no_cycle(all, c, summaries@[c]@, text);
            }
        }
    }
    Ok(summaries)
}

proof fn lemma_up_stays_out(links: Seq<LinkView>, k: int, n: nat, m: nat)
    requires
        up(links, k, n) < 0,
        n <= m,
    ensures
        up(links, k, m) < 0,
    decreases m,
{
    if n < m {
        lemma_up_stays_out(links, k, n, (m - 1) as nat);
    }
}

proof fn lemma_up_shift(links: Seq<LinkView>, k: int, n: nat)
    requires
        up(links, k, 1) >= 0,
    ensures
        up(links, k, n + 1) == up(links, up(links, k, 1), n),
    decreases n,
{
    if n > 0 {
        lemma_up_shift(links, k, (n - 1) as nat);
    }
}

/// A link has one summary only.
pub proof fn summary_is_unique(links: Seq<LinkView>, k: int, a: SummaryView, b: SummaryView)
    requires
        is_summary(links, k, a),
        is_summary(links, k, b),
    ensures
        a == b,
{
    let m = choose|n: nat| #[trigger] ends_after(links, k, n) && a == summary_after(links, k, n);
    let n = choose|n: nat| #[trigger] ends_after(links, k, n) && b == summary_after(links, k, n);
    if m < n {
        lemma_up_stays_out(links, k, m, (n - 1) as nat);
    }
    if n < m {
        lemma_up_stays_out(links, k, n, (m - 1) as nat);
    }
}

/// The canonical repository that a summary names is a fork or mirror of no
/// other.
pub proof fn canonical_has_no_parent(links: Seq<LinkView>, k: int, s: SummaryView)
    requires
        0 <= k < links.len(),
        is_summary(links, k, s),
    ensures
        forall|j: int|
            0 <= j < links.len() ==> (#[trigger] links[j]).dependent_repo_id != s.canonical_repo_id,
        s.depth >= 1,
{
    let n = choose|n: nat| #[trigger] ends_after(links, k, n) && s == summary_after(links, k, n);
    let top = up(links, k, (n - 1) as nat);
    lemma_link_of(links, links[top].controlling_repo_id, 0);
}

/// A fork of a fork goes back to the canonical repository of the one it is
/// forked from, one step further down.
pub proof fn forks_of_forks_share_the_canonical(
    links: Seq<LinkView>,
    child: int,
    parent: int,
    child_summary: SummaryView,
    parent_summary: SummaryView,
)
    requires
        0 <= child < links.len(),
        0 <= parent < links.len(),
        one_parent_each(links),
        links[parent].dependent_repo_id == links[child].controlling_repo_id,
        is_summary(links, child, child_summary),
        is_summary(links, parent, parent_summary),
    ensures
        child_summary.canonical_repo_id == parent_summary.canonical_repo_id,
        child_summary.canonical_locator == parent_summary.canonical_locator,
        child_summary.canonical_path == parent_summary.canonical_path,
        child_summary.depth == parent_summary.depth + 1,
{
    lemma_link_of(links, links[child].controlling_repo_id, 0);
    let found = link_of(links, links[child].controlling_repo_id, 0);
    if found != parent {
        if found < parent {
            assert(links[found].dependent_repo_id != links[parent].dependent_repo_id);
        } else {
            assert(links[parent].dependent_repo_id != links[found].dependent_repo_id);
        }
    }
    assert(up(links, child, 0) == child);
    assert(up(links, child, 1) == parent);
    let n = choose|n: nat| #[trigger]
        ends_after(links, parent, n) && parent_summary == summary_after(links, parent, n);
    lemma_up_shift(links, child, n);
    lemma_up_shift(links, child, (n - 1) as nat);
    assert(ends_after(links, child, n + 1));
    summary_is_unique(links, child, child_summary, summary_after(links, child, n + 1));
}

/// A chain of forks that comes to an end does not go round.
pub proof fn ending_chain_has_no_cycle(links: Seq<LinkView>, k: int, s: SummaryView, text: Seq<char>)
    requires
        is_summary(links, k, s),
    ensures
        !in_cycle(links, k, text),
{
    let n = choose|n: nat| #[trigger] ends_after(links, k, n) && s == summary_after(links, k, n);
    if in_cycle(links, k, text) {
        let c = choose|c: nat| #[trigger]
            repeats_after(links, k, c) && text == "fork/mirror relationship cycle involving "@
                + links[up(links, k, c)].dependent_locator.key();
        let m = choose|m: nat| m < c && #[trigger] up(links, k, m) == up(links, k, c);
        lemma_goes_on(links, k, m, (c - m) as nat, n);
    }
}

/// A chain that comes back to a link is never at an end.
proof fn lemma_goes_on(links: Seq<LinkView>, k: int, m: nat, period: nat, n: nat)
    requires
        period > 0,
        up(links, k, m) >= 0,
        up(links, k, m) == up(links, k, m + period),
    ensures
        up(links, k, n) >= 0,
    decreases n,
{
    if n <= m + period {
        if up(links, k, n) < 0 {
            lemma_up_stays_out(links, k, n, m + period);
        }
    } else {
        lemma_goes_on(links, k, m, period, (n - period) as nat);
        lemma_periodic(links, k, m, period, (n - period) as nat);
    }
}

proof fn lemma_periodic(links: Seq<LinkView>, k: int, m: nat, period: nat, n: nat)
    requires
        up(links, k, m) == up(links, k, m + period),
        n >= m,
    ensures
        up(links, k, n) == up(links, k, n + period),
    decreases n,
{
    if n > m {
        lemma_periodic(links, k, m, period, (n - 1) as nat);
        assert((n + period - 1) as nat == (n - 1) as nat + period);
    }
}

} // verus!
