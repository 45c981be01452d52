//! The inventory: what each managed repository is and goes back to, and what
//! each Git directory that was found belongs to.
use crate::error::Error;
use crate::locator::{Locator, LocatorView};
use crate::paths::{
    absolute, components, components_of, is_absolute, join, join_path, lead, lemma_path_less_total,
    lemma_split_not_empty, names_something, path_eq, path_less, path_starts_with, path_under, rank_paths, same_path,
};
use crate::registry::{ManagedRepoRecord, RecordView};
use crate::registry_relations::clone_text;
use crate::relations::{
    is_summary, link_of, link_views, one_parent_each, relationship_summaries, summaries_refused,
    unrefused, LinkView, RepositoryRelationshipSummary, SharedGitDirRelationship, SummaryView,
};
use crate::repair::{clone_locator, opt_locator};
use crate::text::{join_texts, join_with, opt_view, split, split_text, views, Rank};
use vstd::prelude::*;

verus! {

/// The first piece at or behind `i` that names something, past `n` others that do.
pub open spec fn nth_named(pieces: Seq<Seq<char>>, i: int, n: int) -> int
    decreases pieces.len() - i,
{
    if i >= pieces.len() {
        i
    } else if names_something(pieces[i]) {
        if n <= 0 {
            i
        } else {
            nth_named(pieces, i + 1, n - 1)
        }
    } else {
        nth_named(pieces, i + 1, n)
    }
}

/// The end of the pieces from `lo` up to `end`, without those at the end that name
/// nothing.
pub open spec fn named_end(pieces: Seq<Seq<char>>, lo: int, end: int) -> int
    decreases end - lo,
{
    if lo < end && !names_something(pieces[end - 1]) {
        named_end(pieces, lo, end - 1)
    } else {
        end
    }
}

/// What a path says behind its first `n` components, as it is written there: the
/// slashes and `.` pieces within stay, those around it do not.
pub open spec fn path_rest(path: Seq<char>, n: int) -> Seq<char> {
    let pieces = split(path, '/');
    if n == 0 {
        let end = named_end(pieces, 0, pieces.len() as int);
        if end == 0 {
            join_texts(lead(path), ""@)
        } else {
            join_texts(pieces.take(end), "/"@)
        }
    } else {
        let from = nth_named(pieces, 0, n - lead(path).len());
        join_texts(
            pieces.subrange(from, named_end(pieces, from, pieces.len() as int)),
            "/"@,
        )
    }
}

/// What the path says below `root`, as it is written there, or the path itself
/// where it is not below.
pub open spec fn path_id(root: Seq<char>, path: Seq<char>) -> Seq<char> {
    if path_under(path, root) {
        path_rest(path, components(root).len() as int)
    } else {
        path
    }
}

fn names(piece: &str) -> (r: bool)
    ensures
        r == names_something(piece@),
{
    proof {
        reveal_strlit(".");
        assert("."@ =~= seq!['.']);
    }
    !piece.is_empty() && !piece.eq(".")
}

/// The pieces from `from` on, without those at the end that name nothing, with
/// slashes between them.
fn named_rest(pieces: &Vec<String>, from: usize) -> (r: String)
    requires
        from <= pieces@.len(),
    ensures
        r@ == join_texts(
            views(pieces@).subrange(
                from as int,
                named_end(views(pieces@), from as int, pieces@.len() as int),
            ),
            "/"@,
        ),
{
    let ghost all = views(pieces@);
    let mut end: usize = pieces.len();
    while end > from && !names(pieces[end - 1].as_str())
        invariant
            from <= end <= pieces@.len(),
            all == views(pieces@),
            named_end(all, from as int, end as int) == named_end(
                all,
                from as int,
                pieces@.len() as int,
            ),
        decreases end,
    {
        proof {
            assert(all[end - 1] == pieces@[end - 1]@);
        }
        end -= 1;
    }
    proof {
        if end > from {
            assert(all[end - 1] == pieces@[end - 1]@);
        }
    }
    let mut rest: Vec<String> = Vec::new();
    let mut i: usize = from;
    while i < end
        invariant
            from <= i <= end <= pieces@.len(),
            rest@.len() == i - from,
            forall|j: int| 0 <= j < i - from ==> (#[trigger] rest@[j])@ == pieces@[from + j]@,
        decreases end - i,
    {
        rest.push(pieces[i].clone());
        i += 1;
    }
    proof {
        assert(views(rest@) =~= all.subrange(from as int, end as int));
    }
    join_with(&rest, "/")
}

fn leading(path: &str, first: &str) -> (r: String)
    requires
        first@ == split(path@, '/')[0],
    ensures
        r@ == join_texts(lead(path@), ""@),
{
    proof {
        reveal_strlit(".");
        reveal_strlit("/");
        reveal_strlit("");
        assert("."@ =~= seq!['.']);
        assert("/"@ =~= seq!['/']);
        assert(""@ =~= Seq::empty());
        reveal_with_fuel(join_texts, 3);
    }
    if is_absolute(path) {
        "/".to_owned()
    } else if first.eq(".") {
        ".".to_owned()
    } else {
        "".to_owned()
    }
}

fn rest_of_path(path: &str, n: usize) -> (r: String)
    requires
        n > 0 ==> n >= lead(path@).len(),
    ensures
        r@ == path_rest(path@, n as int),
{
    let pieces = split_text(path, '/');
    let ghost all = views(pieces@);
    proof {
        lemma_split_not_empty(path@, '/', 0);
        assert(all.len() == pieces@.len());
        assert(all[0] == pieces@[0]@);
    }
    if n == 0 {
        let mut i: usize = 0;
        let mut found = false;
        while i < pieces.len()
            invariant
                i <= pieces@.len(),
                all == views(pieces@),
                found == exists|j: int| 0 <= j < i && names_something(#[trigger] all[j]),
            decreases pieces@.len() - i,
        {
            proof {
                assert(all[i as int] == pieces@[i as int]@);
            }
            if names(pieces[i].as_str()) {
                found = true;
            }
            i += 1;
        }
        proof {
            lemma_named_end(all, 0, all.len() as int);
        }
        return if found {
            named_rest(&pieces, 0)
        } else {
            leading(path, pieces[0].as_str())
        };
    }
    let led: usize = if is_absolute(path) || pieces[0].as_str().eq(".") {
        1
    } else {
        0
    };
    proof {
        reveal_strlit(".");
        assert("."@ =~= seq!['.']);
        assert(led == lead(path@).len());
    }
    let mut left: usize = n - led;
    let mut from: usize = 0;
    while from < pieces.len() && (left > 0 || !names(pieces[from].as_str()))
        invariant
            from <= pieces@.len(),
            all == views(pieces@),
            nth_named(all, from as int, left as int) == nth_named(
                all,
                0,
                n - lead(path@).len(),
            ),
        decreases pieces@.len() - from,
    {
        proof {
            assert(all[from as int] == pieces@[from as int]@);
        }
        if names(pieces[from].as_str()) {
            left -= 1;
        }
        from += 1;
    }
    proof {
        if from < pieces@.len() {
            assert(all[from as int] == pieces@[from as int]@);
        }
    }
    named_rest(&pieces, from)
}

pub proof fn lemma_named_end(pieces: Seq<Seq<char>>, lo: int, end: int)
    requires
        0 <= lo <= end <= pieces.len(),
    ensures
        lo <= named_end(pieces, lo, end) <= end,
        named_end(pieces, lo, end) > lo ==> names_something(
            pieces[named_end(pieces, lo, end) - 1],
        ),
        forall|j: int|
            named_end(pieces, lo, end) <= j < end ==> !names_something(#[trigger] pieces[j]),
    decreases end - lo,
{
    if lo < end && !names_something(pieces[end - 1]) {
        lemma_named_end(pieces, lo, end - 1);
    }
}

pub fn repository_path_id(root: &str, path: &str) -> (r: String)
    ensures
        r@ == path_id(root@, path@),
{
    if !path_starts_with(path, root) {
        return path.to_owned();
    }
    let n: usize = components_of(root).len();
    proof {
        let k = components(root@).len();
        assert(k == n);
        if k > 0 && lead(path@).len() > k {
            assert(false);
        }
    }
    rest_of_path(path, n)
}

/// Where a path that names a managed repository leads: a relative one starts at
/// the root.
pub fn expected_repo_path(root: &str, repo_path: &str) -> (r: String)
    ensures
        r@ == (if absolute(repo_path@) {
            repo_path@
        } else {
            join_path(root@, repo_path@)
        }),
{
    if is_absolute(repo_path) {
        repo_path.to_owned()
    } else {
        join(root, repo_path)
    }
}

#[derive(Debug)]
pub struct RepositoryRelationEndpoint {
    pub id: String,
    pub locator: Locator,
    pub path: String,
    pub relationship: String,
}

pub struct EndpointView {
    pub id: Seq<char>,
    pub locator: LocatorView,
    pub path: Seq<char>,
    pub relationship: Seq<char>,
}

impl View for RepositoryRelationEndpoint {
    type V = EndpointView;

    open spec fn view(&self) -> EndpointView {
        EndpointView {
            id: self.id@,
            locator: self.locator@,
            path: self.path@,
            relationship: self.relationship@,
        }
    }
}

pub open spec fn endpoint_views(v: Seq<RepositoryRelationEndpoint>) -> Seq<EndpointView> {
    v.map_values(|e: RepositoryRelationEndpoint| e@)
}

pub open spec fn opt_endpoint(o: Option<RepositoryRelationEndpoint>) -> Option<EndpointView> {
    match o {
        Some(x) => Some(x@),
        None => None,
    }
}

pub open spec fn endpoint(
    root: Seq<char>,
    locator: LocatorView,
    path: Seq<char>,
    relationship: Seq<char>,
) -> EndpointView {
    EndpointView { id: path_id(root, path), locator, path, relationship }
}

pub fn relationship_endpoint(root: &str, locator: &Locator, path: &str, relationship: &str) -> (r:
    RepositoryRelationEndpoint)
    ensures
        r@ == endpoint(root@, locator@, path@, relationship@),
{
    RepositoryRelationEndpoint {
        id: repository_path_id(root, path),
        locator: locator.clone(),
        path: path.to_owned(),
        relationship: relationship.to_owned(),
    }
}

/// A managed repository and its relationships.
#[derive(Debug)]
pub struct ManagedRepositoryDump {
    pub id: String,
    pub db_id: i64,
    pub repo_type: String,
    pub fork_depth: usize,
    pub locator: Locator,
    pub path: String,
    pub checkout_kind: String,
    pub parent: Option<RepositoryRelationEndpoint>,
    pub canonical: Option<RepositoryRelationEndpoint>,
    pub dependents: Vec<RepositoryRelationEndpoint>,
}

/// The repositories that depend on the one with the id.
pub open spec fn dependents_of(root: Seq<char>, links: Seq<LinkView>, id: i64) -> Seq<EndpointView>
    decreases links.len(),
{
    if links.len() == 0 {
        seq![]
    } else {
        let before = dependents_of(root, links.drop_last(), id);
        let last = links.last();
        if last.controlling_repo_id == id {
            before.push(
                endpoint(root, last.dependent_locator, last.dependent_path, last.relationship),
            )
        } else {
            before
        }
    }
}

/// `d` is the entry of the repository.
pub open spec fn dumps(
    d: ManagedRepositoryDump,
    root: Seq<char>,
    repo: RecordView,
    links: Seq<LinkView>,
    kind: Seq<char>,
) -> bool {
    let k = link_of(links, repo.id, 0);
    &&& d.id@ == path_id(root, repo.path)
    &&& d.db_id == repo.id
    &&& d.locator@ == repo.current
    &&& d.path@ == repo.path
    &&& d.checkout_kind@ == kind
    &&& endpoint_views(d.dependents@) == dependents_of(root, links, repo.id)
    &&& if k < 0 {
        &&& d.repo_type@ == "canonical"@
        &&& d.fork_depth == 0
        &&& d.parent is None
        &&& d.canonical is None
    } else {
        exists|s: SummaryView| #[trigger]
            is_summary(links, k, s) && d.repo_type@ == s.relationship && d.fork_depth == s.depth
                && opt_endpoint(d.parent) == Some(
                endpoint(root, s.parent_locator, s.parent_path, s.relationship),
            ) && opt_endpoint(d.canonical) == Some(
                endpoint(root, s.canonical_locator, s.canonical_path, s.relationship),
            )
    }
}

fn find_dependents(root: &str, links: &Vec<SharedGitDirRelationship>, id: i64) -> (r: Vec<
    RepositoryRelationEndpoint,
>)
    ensures
        endpoint_views(r@) == dependents_of(root@, link_views(links@), id),
{
    let ghost all = link_views(links@);
    let mut r: Vec<RepositoryRelationEndpoint> = Vec::new();
    proof {
        assert(endpoint_views(r@) =~= dependents_of(root@, all.take(0), id));
    }
    let mut i: usize = 0;
    while i < links.len()
        invariant
            i <= links@.len(),
            all == link_views(links@),
            endpoint_views(r@) == dependents_of(root@, all.take(i as int), id),
        decreases links@.len() - i,
    {
        let link = &links[i];
        let ghost before = endpoint_views(r@);
        proof {
            assert(all.take(i + 1).drop_last() =~= all.take(i as int));
            assert(all.take(i + 1).last() == link@);
        }
        if link.controlling_repo_id == id {
            let e = relationship_endpoint(
                root,
                &link.dependent_locator,
                &link.dependent_path,
                &link.relationship,
            );
            let ghost v = e@;
            r.push(e);
            proof {
                assert(endpoint_views(r@) =~= before.push(v));
            }
        }
        i += 1;
    }
    proof {
        assert(all.take(i as int) =~= all);
    }
    r
}

fn find_summary(
    summaries: &Vec<RepositoryRelationshipSummary>,
    links: &Vec<SharedGitDirRelationship>,
    id: i64,
) -> (r: Option<usize>)
    requires
        summaries@.len() == links@.len(),
    ensures
        match r {
            Some(k) => k < links@.len() && link_of(link_views(links@), id, 0) == k,
            None => link_of(link_views(links@), id, 0) == -1,
        },
{
    let mut i: usize = 0;
    while i < links.len()
        invariant
            i <= links@.len(),
            link_of(link_views(links@), id, i as int) == link_of(link_views(links@), id, 0),
        decreases links@.len() - i,
    {
        proof {
            assert(link_views(links@)[i as int] == links@[i as int]@);
        }
        if links[i].dependent_repo_id == id {
            return Some(i);
        }
        i += 1;
    }
    None
}

fn dump_repository(
    root: &str,
    repo: &ManagedRepoRecord,
    links: &Vec<SharedGitDirRelationship>,
    summaries: &Vec<RepositoryRelationshipSummary>,
    kind: &str,
) -> (r: ManagedRepositoryDump)
    requires
        summaries@.len() == links@.len(),
        forall|k: int|
            0 <= k < links@.len() ==> is_summary(link_views(links@), k, (#[trigger] summaries@[k])@),
    ensures
        dumps(r, root@, repo@, link_views(links@), kind@),
{
    let dependents = find_dependents(root, links, repo.id);
    match find_summary(summaries, links, repo.id) {
        Some(k) => {
            let s = &summaries[k];
            let parent = relationship_endpoint(
                root,
                &s.parent_locator,
                &s.parent_path,
                &s.relationship,
            );
            let canonical = relationship_endpoint(
                root,
                &s.canonical_locator,
                &s.canonical_path,
                &s.relationship,
            );
            proof {
                assert(is_summary(link_views(links@), k as int, summaries@[k as int]@));
            }
            ManagedRepositoryDump {
                id: repository_path_id(root, &repo.path),
                db_id: repo.id,
                repo_type: s.relationship.clone(),
                fork_depth: s.depth,
                locator: repo.current.clone(),
                path: repo.path.clone(),
                checkout_kind: kind.to_owned(),
                parent: Some(parent),
                canonical: Some(canonical),
                dependents,
            }
        },
        None => ManagedRepositoryDump {
            id: repository_path_id(root, &repo.path),
            db_id: repo.id,
            repo_type: "canonical".to_owned(),
            fork_depth: 0,
            locator: repo.current.clone(),
            path: repo.path.clone(),
            checkout_kind: kind.to_owned(),
            parent: None,
            canonical: None,
            dependents,
        },
    }
}

/// The entries of the managed repositories, where `kinds` tells for each what
/// kind of checkout stands at its path.
pub fn managed_repository_dumps(
    root: &str,
    repos: &Vec<ManagedRepoRecord>,
    links: &Vec<SharedGitDirRelationship>,
    kinds: &Vec<String>,
) -> (r: Result<Vec<ManagedRepositoryDump>, Error>)
    requires
        kinds@.len() == repos@.len(),
    ensures
        match r {
            Ok(list) => {
                &&& one_parent_each(link_views(links@))
                &&& unrefused(link_views(links@))
                &&& list@.len() == repos@.len()
                &&& forall|i: int|
                    0 <= i < repos@.len() ==> dumps(
                        #[trigger] list@[i],
                        root@,
                        repos@[i]@,
                        link_views(links@),
                        kinds@[i]@,
                    )
            },
            Err(e) => summaries_refused(link_views(links@), e@),
        },
{
    let summaries = match relationship_summaries(links) {
        Ok(summaries) => summaries,
        Err(error) => return Err(error),
    };
    let mut list: Vec<ManagedRepositoryDump> = Vec::new();
    let mut i: usize = 0;
    while i < repos.len()
        invariant
            i <= repos@.len(),
            kinds@.len() == repos@.len(),
            summaries@.len() == links@.len(),
            forall|k: int|
                0 <= k < links@.len() ==> is_summary(
                    link_views(links@),
                    k,
                    (#[trigger] summaries@[k])@,
                ),
            list@.len() == i,
            forall|j: int|
                0 <= j < i ==> dumps(
                    #[trigger] list@[j],
                    root@,
                    repos@[j]@,
                    link_views(links@),
                    kinds@[j]@,
                ),
        decreases repos@.len() - i,
    {
        list.push(dump_repository(root, &repos[i], links, &summaries, &kinds[i]));
        i += 1;
    }
    Ok(list)
}

/// What a Git directory shows of its kind. A fact that could not be read is the
/// text that says why.
#[derive(Debug)]
pub struct KindFacts {
    pub view: Result<bool, String>,
    pub bare: Result<bool, String>,
    pub worktree: Result<bool, String>,
}

pub open spec fn directory_kind(facts: KindFacts) -> Result<Seq<char>, Seq<char>> {
    match (facts.view, facts.bare, facts.worktree) {
        (Err(text), _, _) => Err(text@),
        (Ok(true), _, _) => Ok("repo-manager-view"@),
        (Ok(false), Err(text), _) => Err(text@),
        (Ok(false), Ok(true), _) => Ok("bare"@),
        (Ok(false), Ok(false), Err(text)) => Err(text@),
        (Ok(false), Ok(false), Ok(true)) => Ok("worktree"@),
        (Ok(false), Ok(false), Ok(false)) => Ok("non-bare"@),
    }
}

pub fn git_directory_kind(facts: &KindFacts) -> (r: Result<String, String>)
    ensures
        crate::relation_check::text_result(r) == directory_kind(*facts),
{
    match &facts.view {
        Err(text) => return Err(text.clone()),
        Ok(view) => if *view {
            return Ok("repo-manager-view".to_owned());
        },
    }
    match &facts.bare {
        Err(text) => return Err(text.clone()),
        Ok(bare) => if *bare {
            return Ok("bare".to_owned());
        },
    }
    match &facts.worktree {
        Err(text) => Err(text.clone()),
        Ok(worktree) => if *worktree {
            Ok("worktree".to_owned())
        } else {
            Ok("non-bare".to_owned())
        },
    }
}

/// What the inventory calls a checkout.
pub open spec fn checkout_named(exists: bool, facts: KindFacts) -> Seq<char> {
    if !exists {
        "missing"@
    } else {
        match directory_kind(facts) {
            Ok(kind) => kind,
            Err(_) => "unknown"@,
        }
    }
}

/// The kind of checkout that the inventory names: `missing` where there is
/// none, `unknown` where its kind could not be told.
pub fn checkout_kind(exists: bool, facts: &KindFacts) -> (r: String)
    ensures
        r@ == checkout_named(exists, *facts),
{
    if !exists {
        return "missing".to_owned();
    }
    match git_directory_kind(facts) {
        Ok(kind) => kind,
        Err(_) => "unknown".to_owned(),
    }
}

/// A directory is a worktree of another repository: its `.git` is a file, and
/// its Git directory is not the common one.
pub fn is_git_worktree(dot_git_is_file: bool, git_dir: &str, common_dir: &str) -> (r: bool)
    ensures
        r == (dot_git_is_file && !path_eq(git_dir@, common_dir@)),
{
    dot_git_is_file && !same_path(git_dir, common_dir)
}

/// The repository that a Git directory belongs to.
#[derive(Debug)]
pub struct GitDirectoryRepositoryLink {
    pub id: String,
    pub repo_type: String,
    pub locator: Locator,
    pub namespace: Option<String>,
}

pub struct OwnerView {
    pub id: Seq<char>,
    pub repo_type: Seq<char>,
    pub locator: LocatorView,
    pub namespace: Option<Seq<char>>,
}

impl View for GitDirectoryRepositoryLink {
    type V = OwnerView;

    open spec fn view(&self) -> OwnerView {
        OwnerView {
            id: self.id@,
            repo_type: self.repo_type@,
            locator: self.locator@,
            namespace: opt_view(self.namespace),
        }
    }
}

impl Clone for GitDirectoryRepositoryLink {
    fn clone(&self) -> (r: Self)
        ensures
            r@ == self@,
    {
        GitDirectoryRepositoryLink {
            id: self.id.clone(),
            repo_type: self.repo_type.clone(),
            locator: self.locator.clone(),
            namespace: clone_text(&self.namespace),
        }
    }
}

/// What is known of a Git directory. `path` has its links resolved.
#[derive(Debug)]
pub struct GitDirectoryLink {
    pub path: String,
    pub id: Option<String>,
    pub is_tracked: bool,
    pub managed: bool,
    pub worktree_name: Option<String>,
    pub repository: GitDirectoryRepositoryLink,
}

pub struct DirectoryView {
    pub path: Seq<char>,
    pub id: Option<Seq<char>>,
    pub is_tracked: bool,
    pub managed: bool,
    pub worktree_name: Option<Seq<char>>,
    pub repository: OwnerView,
}

impl View for GitDirectoryLink {
    type V = DirectoryView;

    open spec fn view(&self) -> DirectoryView {
        DirectoryView {
            path: self.path@,
            id: opt_view(self.id),
            is_tracked: self.is_tracked,
            managed: self.managed,
            worktree_name: opt_view(self.worktree_name),
            repository: self.repository@,
        }
    }
}

impl Clone for GitDirectoryLink {
    fn clone(&self) -> (r: Self)
        ensures
            r@ == self@,
    {
        GitDirectoryLink {
            path: self.path.clone(),
            id: clone_text(&self.id),
            is_tracked: self.is_tracked,
            managed: self.managed,
            worktree_name: clone_text(&self.worktree_name),
            repository: self.repository.clone(),
        }
    }
}

pub open spec fn directory_views(v: Seq<GitDirectoryLink>) -> Seq<DirectoryView> {
    v.map_values(|d: GitDirectoryLink| d@)
}

/// The first row at or behind `i` for the path; -1 where there is none.
pub open spec fn directory_at(rows: Seq<DirectoryView>, path: Seq<char>, i: int) -> int
    decreases rows.len() - i,
{
    if i >= rows.len() {
        -1
    } else if path_eq(rows[i].path, path) {
        i
    } else {
        directory_at(rows, path, i + 1)
    }
}

/// The rows with one more. A path has one row, the one that came last.
pub open spec fn with_directory(rows: Seq<DirectoryView>, row: DirectoryView) -> Seq<DirectoryView> {
    let i = directory_at(rows, row.path, 0);
    if 0 <= i < rows.len() {
        rows.update(i, row)
    } else {
        rows.push(row)
    }
}

fn directory_index(rows: &Vec<GitDirectoryLink>, path: &str) -> (r: Option<usize>)
    ensures
        match r {
            Some(i) => i < rows@.len() && directory_at(directory_views(rows@), path@, 0) == i,
            None => directory_at(directory_views(rows@), path@, 0) == -1,
        },
{
    let mut i: usize = 0;
    while i < rows.len()
        invariant
            i <= rows@.len(),
            directory_at(directory_views(rows@), path@, i as int) == directory_at(
                directory_views(rows@),
                path@,
                0,
            ),
        decreases rows@.len() - i,
    {
        proof {
            assert(directory_views(rows@)[i as int] == rows@[i as int]@);
        }
        if same_path(&rows[i].path, path) {
            return Some(i);
        }
        i += 1;
    }
    None
}

fn put_directory(rows: &mut Vec<GitDirectoryLink>, row: GitDirectoryLink)
    ensures
        directory_views(final(rows)@) == with_directory(directory_views(old(rows)@), row@),
{
    let ghost before = directory_views(rows@);
    let ghost w = row@;
    match directory_index(rows, &row.path) {
        Some(i) => {
            rows.set(i, row);
            proof {
                assert(directory_views(rows@) =~= before.update(i as int, w));
            }
        },
        None => {
            rows.push(row);
            proof {
                assert(directory_views(rows@) =~= before.push(w));
            }
        },
    }
}

/// What is read of a managed repository for the inventory.
#[derive(Debug)]
pub struct TrackedFacts {
    pub db_id: i64,
    pub id: String,
    pub repo_type: String,
    pub locator: Locator,
    /// The path with its links resolved.
    pub comparable: String,
    /// The namespace of the view that stands at the path.
    pub namespace: Option<String>,
    /// The worktrees that Git lists for the repository, with links resolved;
    /// none where it does not exist or they could not be read.
    pub worktrees: Vec<String>,
}

pub open spec fn owner_of(t: TrackedFacts) -> OwnerView {
    OwnerView {
        id: t.id@,
        repo_type: t.repo_type@,
        locator: t.locator@,
        namespace: opt_view(t.namespace),
    }
}

pub open spec fn tracked_directory(t: TrackedFacts) -> DirectoryView {
    DirectoryView {
        path: t.comparable@,
        id: Some(t.id@),
        is_tracked: true,
        managed: true,
        worktree_name: None,
        repository: owner_of(t),
    }
}

/// The directories of the managed repositories.
pub open spec fn tracked_directories(repos: Seq<TrackedFacts>) -> Seq<DirectoryView>
    decreases repos.len(),
{
    if repos.len() == 0 {
        seq![]
    } else {
        with_directory(tracked_directories(repos.drop_last()), tracked_directory(repos.last()))
    }
}

fn owner(t: &TrackedFacts) -> (r: GitDirectoryRepositoryLink)
    ensures
        r@ == owner_of(*t),
{
    GitDirectoryRepositoryLink {
        id: t.id.clone(),
        repo_type: t.repo_type.clone(),
        locator: t.locator.clone(),
        namespace: clone_text(&t.namespace),
    }
}

pub fn tracked_directory_links(repos: &Vec<TrackedFacts>) -> (r: Vec<GitDirectoryLink>)
    ensures
        directory_views(r@) == tracked_directories(repos@),
{
    let mut r: Vec<GitDirectoryLink> = Vec::new();
    proof {
        assert(directory_views(r@) =~= tracked_directories(repos@.take(0)));
    }
    let mut i: usize = 0;
    while i < repos.len()
        invariant
            i <= repos@.len(),
            directory_views(r@) == tracked_directories(repos@.take(i as int)),
        decreases repos@.len() - i,
    {
        put_directory(
            &mut r,
            GitDirectoryLink {
                path: repos[i].comparable.clone(),
                id: Some(repos[i].id.clone()),
                is_tracked: true,
                managed: true,
                worktree_name: None,
                repository: owner(&repos[i]),
            },
        );
        i += 1;
        proof {
            assert(repos@.take(i as int).drop_last() =~= repos@.take(i - 1));
        }
    }
    proof {
        assert(repos@.take(i as int) =~= repos@);
    }
    r
}

/// A recorded worktree, with its path as the inventory names it.
#[derive(Debug)]
pub struct WorktreeFacts {
    pub repo_id: i64,
    pub id: String,
    /// The current locator of its repository.
    pub locator: Locator,
    /// The path with its links resolved.
    pub comparable: String,
    pub name: Option<String>,
    pub refs_prefix: Option<String>,
}

/// The last of the first `n` repositories with the id; -1 where there is none.
pub open spec fn last_tracked(repos: Seq<TrackedFacts>, id: i64, n: int) -> int
    decreases n,
{
    if n <= 0 {
        -1
    } else if repos[n - 1].db_id == id {
        n - 1
    } else {
        last_tracked(repos, id, n - 1)
    }
}

pub open spec fn worktree_directory(t: TrackedFacts, w: WorktreeFacts) -> DirectoryView {
    DirectoryView {
        path: w.comparable@,
        id: Some(w.id@),
        is_tracked: true,
        managed: true,
        worktree_name: opt_view(w.name),
        repository: OwnerView {
            id: t.id@,
            repo_type: t.repo_type@,
            locator: w.locator@,
            namespace: if w.refs_prefix is Some {
                opt_view(w.refs_prefix)
            } else {
                opt_view(t.namespace)
            },
        },
    }
}

/// The directories of the recorded worktrees whose repositories are managed.
pub open spec fn worktree_directories(repos: Seq<TrackedFacts>, worktrees: Seq<WorktreeFacts>)
    -> Seq<DirectoryView>
    decreases worktrees.len(),
{
    if worktrees.len() == 0 {
        seq![]
    } else {
        let before = worktree_directories(repos, worktrees.drop_last());
        let w = worktrees.last();
        let k = last_tracked(repos, w.repo_id, repos.len() as int);
        if 0 <= k < repos.len() {
            with_directory(before, worktree_directory(repos[k], w))
        } else {
            before
        }
    }
}

fn find_tracked(repos: &Vec<TrackedFacts>, id: i64) -> (r: Option<usize>)
    ensures
        match r {
            Some(k) => k < repos@.len() && last_tracked(repos@, id, repos@.len() as int) == k,
            None => last_tracked(repos@, id, repos@.len() as int) == -1,
        },
{
    let mut n: usize = repos.len();
    while n > 0
        invariant
            n <= repos@.len(),
            last_tracked(repos@, id, n as int) == last_tracked(repos@, id, repos@.len() as int),
        decreases n,
    {
        if repos[n - 1].db_id == id {
            return Some(n - 1);
        }
        n -= 1;
    }
    None
}

pub fn worktree_directory_links(repos: &Vec<TrackedFacts>, worktrees: &Vec<WorktreeFacts>) -> (r:
    Vec<GitDirectoryLink>)
    ensures
        directory_views(r@) == worktree_directories(repos@, worktrees@),
{
    let mut r: Vec<GitDirectoryLink> = Vec::new();
    proof {
        assert(directory_views(r@) =~= worktree_directories(repos@, worktrees@.take(0)));
    }
    let mut i: usize = 0;
    while i < worktrees.len()
        invariant
            i <= worktrees@.len(),
            directory_views(r@) == worktree_directories(repos@, worktrees@.take(i as int)),
        decreases worktrees@.len() - i,
    {
        let w = &worktrees[i];
        proof {
            assert(worktrees@.take(i + 1).drop_last() =~= worktrees@.take(i as int));
        }
        if let Some(k) = find_tracked(repos, w.repo_id) {
            let namespace = match &w.refs_prefix {
                Some(prefix) => Some(prefix.clone()),
                None => clone_text(&repos[k].namespace),
            };
            put_directory(
                &mut r,
                GitDirectoryLink {
                    path: w.comparable.clone(),
                    id: Some(w.id.clone()),
                    is_tracked: true,
                    managed: true,
                    worktree_name: clone_text(&w.name),
                    repository: GitDirectoryRepositoryLink {
                        id: repos[k].id.clone(),
                        repo_type: repos[k].repo_type.clone(),
                        locator: w.locator.clone(),
                        namespace,
                    },
                },
            );
        }
        i += 1;
    }
    proof {
        assert(worktrees@.take(i as int) =~= worktrees@);
    }
    r
}

/// The directories that Git lists as worktrees of a managed repository and that
/// are not managed repositories themselves.
pub open spec fn listed_in(
    rows: Seq<DirectoryView>,
    own: Seq<DirectoryView>,
    managed: Seq<DirectoryView>,
    owner: OwnerView,
    paths: Seq<Seq<char>>,
) -> Seq<DirectoryView>
    decreases paths.len(),
{
    if paths.len() == 0 {
        rows
    } else {
        let before = listed_in(rows, own, managed, owner, paths.drop_last());
        let path = paths.last();
        let m = directory_at(managed, path, 0);
        if directory_at(own, path, 0) >= 0 {
            before
        } else if 0 <= m < managed.len() {
            with_directory(before, managed[m])
        } else {
            with_directory(
                before,
                DirectoryView {
                    path,
                    id: None,
                    is_tracked: false,
                    managed: false,
                    worktree_name: None,
                    repository: owner,
                },
            )
        }
    }
}

pub open spec fn linked_directories(
    repos: Seq<TrackedFacts>,
    own: Seq<DirectoryView>,
    managed: Seq<DirectoryView>,
) -> Seq<DirectoryView>
    decreases repos.len(),
{
    if repos.len() == 0 {
        seq![]
    } else {
        listed_in(
            linked_directories(repos.drop_last(), own, managed),
            own,
            managed,
            owner_of(repos.last()),
            views(repos.last().worktrees@),
        )
    }
}

fn put_listed(
    rows: &mut Vec<GitDirectoryLink>,
    own: &Vec<GitDirectoryLink>,
    managed: &Vec<GitDirectoryLink>,
    repo: &TrackedFacts,
)
    ensures
        directory_views(final(rows)@) == listed_in(
            directory_views(old(rows)@),
            directory_views(own@),
            directory_views(managed@),
            owner_of(*repo),
            views(repo.worktrees@),
        ),
{
    let ghost start = directory_views(rows@);
    let ghost all = views(repo.worktrees@);
    let ghost tr = directory_views(own@);
    let ghost ma = directory_views(managed@);
    proof {
        assert(all.take(0) =~= seq![]);
    }
    let mut i: usize = 0;
    while i < repo.worktrees.len()
        invariant
            i <= repo.worktrees@.len(),
            all == views(repo.worktrees@),
            tr == directory_views(own@),
            ma == directory_views(managed@),
            directory_views(rows@) == listed_in(
                start,
                tr,
                ma,
                owner_of(*repo),
                all.take(i as int),
            ),
        decreases repo.worktrees@.len() - i,
    {
        let path = &repo.worktrees[i];
        proof {
            assert(all.take(i + 1).drop_last() =~= all.take(i as int));
            assert(all.take(i + 1).last() == path@);
        }
        if directory_index(own, path).is_none() {
            match directory_index(managed, path) {
                Some(m) => {
                    proof {
                        assert(ma[m as int] == managed@[m as int]@);
                    }
                    put_directory(rows, managed[m].clone());
                },
                None => {
                    put_directory(
                        rows,
                        GitDirectoryLink {
                            path: path.clone(),
                            id: None,
                            is_tracked: false,
                            managed: false,
                            worktree_name: None,
                            repository: owner(repo),
                        },
                    );
                },
            }
        }
        i += 1;
    }
    proof {
        assert(all.take(i as int) =~= all);
    }
}

pub fn linked_worktree_directory_links(
    repos: &Vec<TrackedFacts>,
    own: &Vec<GitDirectoryLink>,
    managed: &Vec<GitDirectoryLink>,
) -> (r: Vec<GitDirectoryLink>)
    ensures
        directory_views(r@) == linked_directories(
            repos@,
            directory_views(own@),
            directory_views(managed@),
        ),
{
    let mut r: Vec<GitDirectoryLink> = Vec::new();
    proof {
        assert(directory_views(r@) =~= linked_directories(
            repos@.take(0),
            directory_views(own@),
            directory_views(managed@),
        ));
    }
    let mut i: usize = 0;
    while i < repos.len()
        invariant
            i <= repos@.len(),
            directory_views(r@) == linked_directories(
                repos@.take(i as int),
                directory_views(own@),
                directory_views(managed@),
            ),
        decreases repos@.len() - i,
    {
        put_listed(&mut r, own, managed, &repos[i]);
        i += 1;
        proof {
            assert(repos@.take(i as int).drop_last() =~= repos@.take(i - 1));
        }
    }
    proof {
        assert(repos@.take(i as int) =~= repos@);
    }
    r
}

/// A directory that was found: its path, and the path with links resolved.
#[derive(Debug)]
pub struct FoundDirectory {
    pub path: String,
    pub comparable: String,
}

pub open spec fn found_views(v: Seq<FoundDirectory>) -> Seq<(Seq<char>, Seq<char>)> {
    v.map_values(|f: FoundDirectory| (f.path@, f.comparable@))
}

/// The first of `rows` at or behind `i` whose path comes after `path`.
pub open spec fn found_slot(rows: Seq<(Seq<char>, Seq<char>)>, path: Seq<char>, i: int) -> int
    decreases rows.len() - i,
{
    if i < rows.len() && !path_less(path, rows[i].0) {
        found_slot(rows, path, i + 1)
    } else {
        i
    }
}

pub open spec fn sorted_found(rows: Seq<(Seq<char>, Seq<char>)>) -> Seq<(Seq<char>, Seq<char>)>
    decreases rows.len(),
{
    if rows.len() == 0 {
        seq![]
    } else {
        let before = sorted_found(rows.drop_last());
        before.insert(found_slot(before, rows.last().0, 0), rows.last())
    }
}

/// The rows without those that lead to the same place as the one kept before
/// them.
pub open spec fn once_each(rows: Seq<(Seq<char>, Seq<char>)>) -> Seq<(Seq<char>, Seq<char>)>
    decreases rows.len(),
{
    if rows.len() == 0 {
        seq![]
    } else {
        let before = once_each(rows.drop_last());
        if before.len() > 0 && path_eq(before.last().1, rows.last().1) {
            before
        } else {
            before.push(rows.last())
        }
    }
}

fn insert_found(list: &mut Vec<FoundDirectory>, found: FoundDirectory)
    ensures
        found_views(final(list)@) == found_views(old(list)@).insert(
            found_slot(found_views(old(list)@), found.path@, 0),
            (found.path@, found.comparable@),
        ),
{
    let ghost before = found_views(list@);
    let ghost f = (found.path@, found.comparable@);
    let mut i: usize = 0;
    while i < list.len() && rank_paths(&found.path, &list[i].path) != Rank::Before
        invariant
            i <= list@.len(),
            list@ == old(list)@,
            before == found_views(list@),
            f == (found.path@, found.comparable@),
            found_slot(before, f.0, i as int) == found_slot(before, f.0, 0),
        decreases list@.len() - i,
    {
        proof {
            assert(before[i as int].0 == list@[i as int].path@);
            lemma_path_less_total(f.0, before[i as int].0);
        }
        i += 1;
    }
    proof {
        if i < list@.len() {
            assert(before[i as int].0 == list@[i as int].path@);
            lemma_path_less_total(f.0, before[i as int].0);
        }
        assert(found_slot(before, f.0, 0) == i);
    }
    list.insert(i, found);
    proof {
        assert(found_views(list@) =~= before.insert(i as int, f));
    }
}

/// The directories that were found, in the order of their paths, each once.
pub fn inventory_paths(found: &Vec<FoundDirectory>) -> (r: Vec<FoundDirectory>)
    ensures
        found_views(r@) == once_each(sorted_found(found_views(found@))),
{
    let ghost all = found_views(found@);
    let mut sorted: Vec<FoundDirectory> = Vec::new();
    proof {
        assert(found_views(sorted@) =~= sorted_found(all.take(0)));
    }
    let mut i: usize = 0;
    while i < found.len()
        invariant
            i <= found@.len(),
            all == found_views(found@),
            found_views(sorted@) == sorted_found(all.take(i as int)),
        decreases found@.len() - i,
    {
        insert_found(
            &mut sorted,
            FoundDirectory { path: found[i].path.clone(), comparable: found[i].comparable.clone() },
        );
        i += 1;
        proof {
            assert(all.take(i as int).drop_last() =~= all.take(i - 1));
            assert(all.take(i as int).last() == (found@[i - 1].path@, found@[i - 1].comparable@));
        }
    }
    proof {
        assert(all.take(i as int) =~= all);
    }
    let ghost order = found_views(sorted@);
    let mut r: Vec<FoundDirectory> = Vec::new();
    proof {
        assert(found_views(r@) =~= once_each(order.take(0)));
    }
    let mut i: usize = 0;
    while i < sorted.len()
        invariant
            i <= sorted@.len(),
            order == found_views(sorted@),
            found_views(r@) == once_each(order.take(i as int)),
        decreases sorted@.len() - i,
    {
        let ghost before = found_views(r@);
        proof {
            assert(order.take(i + 1).drop_last() =~= order.take(i as int));
            assert(order.take(i + 1).last() == (
                sorted@[i as int].path@,
                sorted@[i as int].comparable@,
            ));
            assert(before.len() == r@.len());
            if r@.len() > 0 {
                assert(before.last().1 == r@[r@.len() - 1].comparable@);
            }
        }
        let n: usize = r.len();
        if n == 0 || !same_path(&r[n - 1].comparable, &sorted[i].comparable) {
            r.push(
                FoundDirectory {
                    path: sorted[i].path.clone(),
                    comparable: sorted[i].comparable.clone(),
                },
            );
            proof {
                assert(found_views(r@) =~= before.push(
                    (sorted@[i as int].path@, sorted@[i as int].comparable@),
                ));
            }
        }
        i += 1;
    }
    proof {
        assert(order.take(i as int) =~= order);
    }
    r
}

/// What a found directory shows.
#[derive(Debug)]
pub struct DirectoryFacts {
    pub path: String,
    pub comparable: String,
    /// It lies below the root, links resolved.
    pub under_root: bool,
    /// The locator of the view that stands there.
    pub view_locator: Option<Locator>,
    /// The locator that its origin remote names.
    pub origin_locator: Option<Locator>,
    pub kind: KindFacts,
}

#[derive(Debug)]
pub struct GitDirectoryDump {
    pub id: Option<String>,
    pub path: String,
    pub kind: Option<String>,
    pub is_tracked: bool,
    pub managed: bool,
    pub worktree_name: Option<String>,
    pub repository: Option<String>,
    pub repository_type: Option<String>,
    pub namespace: Option<String>,
    pub locator: Option<Locator>,
    pub error: Option<String>,
}

/// The row that tells of the path: among the managed repositories, or the
/// recorded worktrees, or the worktrees that Git lists.
pub open spec fn row_for(
    path: Seq<char>,
    own: Seq<DirectoryView>,
    managed: Seq<DirectoryView>,
    linked: Seq<DirectoryView>,
) -> Option<DirectoryView> {
    let a = directory_at(own, path, 0);
    let b = directory_at(managed, path, 0);
    let c = directory_at(linked, path, 0);
    if 0 <= a < own.len() {
        Some(own[a])
    } else if 0 <= b < managed.len() {
        Some(managed[b])
    } else if 0 <= c < linked.len() {
        Some(linked[c])
    } else {
        None
    }
}

/// `d` is the entry of the directory, where `row` is what is known of it.
pub open spec fn describes(
    d: GitDirectoryDump,
    root: Seq<char>,
    facts: DirectoryFacts,
    row: Option<DirectoryView>,
) -> bool {
    &&& d.path@ == facts.path@
    &&& opt_view(d.id) == (match row {
        Some(r) if r.id is Some => r.id,
        _ => if facts.under_root {
            Some(path_id(root, facts.path@))
        } else {
            None
        },
    })
    &&& opt_view(d.kind) == (match directory_kind(facts.kind) {
        Ok(kind) => Some(kind),
        Err(_) => None,
    })
    &&& opt_view(d.error) == (match directory_kind(facts.kind) {
        Ok(_) => None,
        Err(text) => Some(text),
    })
    &&& opt_locator(d.locator) == (match row {
        Some(r) => Some(r.repository.locator),
        None => if facts.view_locator is Some {
            opt_locator(facts.view_locator)
        } else {
            opt_locator(facts.origin_locator)
        },
    })
    &&& match row {
        Some(r) => {
            &&& d.is_tracked == r.is_tracked
            &&& d.managed == r.managed
            &&& opt_view(d.worktree_name) == r.worktree_name
            &&& opt_view(d.repository) == Some(r.repository.id)
            &&& opt_view(d.repository_type) == Some(r.repository.repo_type)
            &&& opt_view(d.namespace) == r.repository.namespace
        },
        None => {
            &&& !d.is_tracked
            &&& !d.managed
            &&& d.worktree_name is None
            &&& d.repository is None
            &&& d.repository_type is None
            &&& d.namespace is None
        },
    }
}

fn find_row<'a>(
    path: &str,
    own: &'a Vec<GitDirectoryLink>,
    managed: &'a Vec<GitDirectoryLink>,
    linked: &'a Vec<GitDirectoryLink>,
) -> (r: Option<&'a GitDirectoryLink>)
    ensures
        match r {
            Some(row) => row_for(
                path@,
                directory_views(own@),
                directory_views(managed@),
                directory_views(linked@),
            ) == Some(row@),
            None => row_for(
                path@,
                directory_views(own@),
                directory_views(managed@),
                directory_views(linked@),
            ) is None,
        },
{
    if let Some(i) = directory_index(own, path) {
        proof {
            assert(directory_views(own@)[i as int] == own@[i as int]@);
        }
        return Some(&own[i]);
    }
    if let Some(i) = directory_index(managed, path) {
        proof {
            assert(directory_views(managed@)[i as int] == managed@[i as int]@);
        }
        return Some(&managed[i]);
    }
    if let Some(i) = directory_index(linked, path) {
        proof {
            assert(directory_views(linked@)[i as int] == linked@[i as int]@);
        }
        return Some(&linked[i]);
    }
    None
}

pub fn git_directory_dump(
    root: &str,
    facts: &DirectoryFacts,
    own: &Vec<GitDirectoryLink>,
    managed: &Vec<GitDirectoryLink>,
    linked: &Vec<GitDirectoryLink>,
) -> (r: GitDirectoryDump)
    ensures
        describes(
            r,
            root@,
            *facts,
            row_for(
                facts.comparable@,
                directory_views(own@),
                directory_views(managed@),
                directory_views(linked@),
            ),
        ),
{
    let (kind, error) = match git_directory_kind(&facts.kind) {
        Ok(kind) => (Some(kind), None),
        Err(text) => (None, Some(text)),
    };
    let own_id = if facts.under_root {
        Some(repository_path_id(root, &facts.path))
    } else {
        None
    };
    match find_row(&facts.comparable, own, managed, linked) {
        Some(row) => GitDirectoryDump {
            id: match &row.id {
                Some(id) => Some(id.clone()),
                None => own_id,
            },
            path: facts.path.clone(),
            kind,
            is_tracked: row.is_tracked,
            managed: row.managed,
            worktree_name: clone_text(&row.worktree_name),
            repository: Some(row.repository.id.clone()),
            repository_type: Some(row.repository.repo_type.clone()),
            namespace: clone_text(&row.repository.namespace),
            locator: Some(row.repository.locator.clone()),
            error,
        },
        None => GitDirectoryDump {
            id: own_id,
            path: facts.path.clone(),
            kind,
            is_tracked: false,
            managed: false,
            worktree_name: None,
            repository: None,
            repository_type: None,
            namespace: None,
            locator: match &facts.view_locator {
                Some(locator) => Some(locator.clone()),
                None => clone_locator(&facts.origin_locator),
            },
            error,
        },
    }
}

} // verus!
