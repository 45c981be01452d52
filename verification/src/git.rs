//! What Git is told, and what its answers say.
use crate::error::{outcome, Error};
use crate::paths::{absolute, is_absolute, join, join_path};
use crate::relation_check::{head_branch, remote_default_branch};
use crate::text::{
    after_prefix, before_suffix, decimal, decimal_text, lemma_decimal_reads_back,
    lemma_less_from_total, lemma_less_from_trans, lines, lines_of, opt_view, owned, rank_texts,
    split_first, split_once, strip_prefix, strip_suffix, text_less, trim, trim_text, views, Rank,
};
use vstd::prelude::*;

verus! {

broadcast use crate::text::lemma_views_push;

/// A remote of a checkout.
#[derive(Debug, PartialEq, Eq)]
pub struct GitRemote {
    pub name: String,
    pub url: String,
}

impl View for GitRemote {
    type V = (Seq<char>, Seq<char>);

    open spec fn view(&self) -> (Seq<char>, Seq<char>) {
        (self.name@, self.url@)
    }
}

impl Clone for GitRemote {
    fn clone(&self) -> (r: GitRemote)
        ensures
            r@ == self@,
    {
        GitRemote { name: self.name.clone(), url: self.url.clone() }
    }
}

pub open spec fn remote_views(v: Seq<GitRemote>) -> Seq<(Seq<char>, Seq<char>)> {
    v.map_values(|remote: GitRemote| remote@)
}

/// The remote that a line of `git config --get-regexp` tells, if it tells one.
pub open spec fn remote_in(line: Seq<char>) -> Option<(Seq<char>, Seq<char>)> {
    match split_first(line, ' ') {
        None => None,
        Some((key, url)) => match after_prefix(key, "remote."@) {
            None => None,
            Some(rest) => match before_suffix(rest, ".url"@) {
                None => None,
                Some(name) => if name.len() > 0 && trim_text(url).len() > 0 {
                    Some((name, trim_text(url)))
                } else {
                    None
                },
            },
        },
    }
}

pub open spec fn opt_remote(o: Option<GitRemote>) -> Option<(Seq<char>, Seq<char>)> {
    match o {
        Some(remote) => Some(remote@),
        None => None,
    }
}

fn remote_of_line(line: &str) -> (r: Option<GitRemote>)
    ensures
        opt_remote(r) == remote_in(line@),
{
    match split_once(line, ' ') {
        None => None,
        Some((key, url)) => match strip_prefix(key.as_str(), "remote.") {
            None => None,
            Some(rest) => match strip_suffix(rest.as_str(), ".url") {
                None => None,
                Some(name) => {
                    let url = trim(url.as_str());
                    if !name.as_str().is_empty() && !url.as_str().is_empty() {
                        Some(GitRemote { name, url })
                    } else {
                        None
                    }
                },
            },
        },
    }
}

/// Where a remote goes among remotes in the order of their names: behind those
/// whose names are not greater.
pub open spec fn remote_slot(
    remotes: Seq<(Seq<char>, Seq<char>)>,
    name: Seq<char>,
    i: int,
) -> int
    decreases remotes.len() - i,
{
    if i < 0 || i >= remotes.len() || text_less(name, remotes[i].0) {
        i
    } else {
        remote_slot(remotes, name, i + 1)
    }
}

/// The remotes that the lines tell, in the order of their names.
pub open spec fn remotes_in(all: Seq<Seq<char>>) -> Seq<(Seq<char>, Seq<char>)>
    decreases all.len(),
{
    if all.len() == 0 {
        Seq::empty()
    } else {
        let before = remotes_in(all.drop_last());
        match remote_in(all.last()) {
            Some(remote) => before.insert(remote_slot(before, remote.0, 0), remote),
            None => before,
        }
    }
}

fn insert_remote(remotes: &mut Vec<GitRemote>, remote: GitRemote)
    ensures
        remote_views(final(remotes)@) == remote_views(old(remotes)@).insert(
            remote_slot(remote_views(old(remotes)@), remote@.0, 0),
            remote@,
        ),
{
    let ghost before = remote_views(remotes@);
    let mut i: usize = 0;
    while i < remotes.len()
        invariant_except_break
            remote_slot(before, remote@.0, i as int) == remote_slot(before, remote@.0, 0),
        invariant
            before == remote_views(remotes@),
            i <= remotes@.len(),
        ensures
            i == remote_slot(before, remote@.0, 0),
        decreases remotes@.len() - i,
    {
        proof {
            assert(before[i as int] == remotes@[i as int]@);
        }
        proof {
            lemma_less_from_total(remote@.0, before[i as int].0, 0);
        }
        match rank_texts(remote.name.as_str(), remotes[i].name.as_str()) {
            Rank::Before => {
                break;
            },
            _ => {},
        }
        i += 1;
    }
    let ghost added = remote@;
    remotes.insert(i, remote);
    proof {
        assert(remote_views(remotes@) =~= before.insert(i as int, added));
    }
}

/// The remotes in what `git config --get-regexp` printed.
pub fn parse_remotes(stdout: &str) -> (r: Vec<GitRemote>)
    ensures
        remote_views(r@) == remotes_in(lines(stdout@)),
{
    let all = lines_of(stdout);
    let ghost seen = views(all@);
    let mut remotes: Vec<GitRemote> = Vec::new();
    proof {
        assert(remote_views(remotes@) =~= remotes_in(seen.take(0)));
    }
    let mut i: usize = 0;
    while i < all.len()
        invariant
            i <= all@.len(),
            seen == views(all@),
            remote_views(remotes@) == remotes_in(seen.take(i as int)),
        decreases all@.len() - i,
    {
        proof {
            assert(seen.take(i + 1).drop_last() =~= seen.take(i as int));
            assert(seen.take(i + 1).last() == all@[i as int]@);
        }
        match remote_of_line(all[i].as_str()) {
            Some(remote) => insert_remote(&mut remotes, remote),
            None => {},
        }
        i += 1;
    }
    proof {
        assert(seen.take(i as int) =~= seen);
    }
    remotes
}

/// No remote stands before one whose name is smaller.
pub open spec fn in_name_order(remotes: Seq<(Seq<char>, Seq<char>)>) -> bool {
    forall|i: int, j: int|
        0 <= i < j < remotes.len() ==> !text_less(#[trigger] remotes[j].0, #[trigger] remotes[i].0)
}

proof fn lemma_remote_slot(remotes: Seq<(Seq<char>, Seq<char>)>, name: Seq<char>, i: int)
    requires
        0 <= i <= remotes.len(),
    ensures
        i <= remote_slot(remotes, name, i) <= remotes.len(),
        forall|k: int|
            i <= k < remote_slot(remotes, name, i) ==> !text_less(name, #[trigger] remotes[k].0),
        remote_slot(remotes, name, i) < remotes.len() ==> text_less(
            name,
            remotes[remote_slot(remotes, name, i)].0,
        ),
    decreases remotes.len() - i,
{
    if i < remotes.len() && !text_less(name, remotes[i].0) {
        lemma_remote_slot(remotes, name, i + 1);
    }
}

/// Whatever Git printed, the remotes come out in the order of their names, and
/// each has a name and a URL.
pub proof fn remotes_are_ordered_and_complete(all: Seq<Seq<char>>)
    ensures
        in_name_order(remotes_in(all)),
        forall|i: int|
            0 <= i < remotes_in(all).len() ==> {
                &&& (#[trigger] remotes_in(all)[i]).0.len() > 0
                &&& remotes_in(all)[i].1.len() > 0
            },
    decreases all.len(),
{
    if all.len() > 0 {
        let before = remotes_in(all.drop_last());
        remotes_are_ordered_and_complete(all.drop_last());
        match remote_in(all.last()) {
            Some(remote) => {
                let k = remote_slot(before, remote.0, 0);
                lemma_remote_slot(before, remote.0, 0);
                let after = before.insert(k, remote);
                assert forall|i: int, j: int| 0 <= i < j < after.len() implies !text_less(
                    #[trigger] after[j].0,
                    #[trigger] after[i].0,
                ) by {
                    let name = remote.0;
                    if j == k {
                        assert(after[i] == before[i]);
                    } else if i == k {
                        assert(after[j] == before[j - 1]);
                        if k < j - 1 {
                            assert(!text_less(before[j - 1].0, before[k].0));
                        }
                        lemma_less_from_total(before[j - 1].0, name, 0);
                        lemma_less_from_total(before[k].0, before[j - 1].0, 0);
                        if text_less(before[j - 1].0, name) {
                            lemma_less_from_trans(
                                before[j - 1].0,
                                name,
                                before[k].0,
                                0,
                            );
                        }
                    } else {
                        let a = if i < k {
                            i
                        } else {
                            i - 1
                        };
                        let b = if j < k {
                            j
                        } else {
                            j - 1
                        };
                        assert(after[i] == before[a]);
                        assert(after[j] == before[b]);
                    }
                }
                assert forall|i: int| 0 <= i < after.len() implies {
                    &&& (#[trigger] after[i]).0.len() > 0
                    &&& after[i].1.len() > 0
                } by {
                    if i < k {
                        assert(after[i] == before[i]);
                    } else if i > k {
                        assert(after[i] == before[i - 1]);
                    }
                }
            },
            None => {},
        }
    }
}

/// A URL that Git printed; white space around it is none of it, and an empty one
/// is none.
pub open spec fn printed_url(output: Option<Seq<char>>) -> Option<Seq<char>> {
    match output {
        Some(text) => if trim_text(text).len() > 0 {
            Some(trim_text(text))
        } else {
            None
        },
        None => None,
    }
}

/// The URL of a remote, for what `git config --get` printed if it succeeded.
pub fn remote_url_in(output: &Option<String>) -> (r: Option<String>)
    ensures
        opt_view(r) == printed_url(opt_view(*output)),
{
    match output {
        Some(text) => {
            let url = trim(text.as_str());
            if url.as_str().is_empty() {
                None
            } else {
                Some(url)
            }
        },
        None => None,
    }
}

/// Sets the URL of a remote that is configured, and adds one that is not.
pub open spec fn remote_command(configured: bool, name: Seq<char>, url: Seq<char>) -> Seq<
    Seq<char>,
> {
    seq![
        "remote"@,
        if configured {
            "set-url"@
        } else {
            "add"@
        },
        name,
        url,
    ]
}

pub fn ensure_remote_args(configured: bool, name: &str, url: &str) -> (r: Vec<String>)
    ensures
        views(r@) == remote_command(configured, name@, url@),
{
    let args = owned(
        &[
            "remote",
            if configured {
                "set-url"
            } else {
                "add"
            },
            name,
            url,
        ],
    );
    proof {
        assert(views(args@) =~= remote_command(configured, name@, url@));
    }
    args
}

/// Points a branch that exists at what it tracks, and makes one that does not.
pub open spec fn tracking_command(exists: bool, local: Seq<char>, remote: Seq<char>) -> Seq<
    Seq<char>,
> {
    if exists {
        seq!["branch"@, "--set-upstream-to"@, remote, local]
    } else {
        seq!["branch"@, "--track"@, local, remote]
    }
}

pub fn ensure_tracking_args(exists: bool, local: &str, remote: &str) -> (r: Vec<String>)
    ensures
        views(r@) == tracking_command(exists, local@, remote@),
{
    let args = if exists {
        owned(&["branch", "--set-upstream-to", remote, local])
    } else {
        owned(&["branch", "--track", local, remote])
    };
    proof {
        assert(views(args@) =~= tracking_command(exists, local@, remote@));
    }
    args
}

/// Whether a branch has to be checked out, given the name of the current one as
/// Git printed it.
pub fn checkout_needed(current: &str, branch: &str) -> (r: bool)
    ensures
        r == (trim_text(current@) != branch@),
{
    !trim(current).as_str().eq(branch)
}

/// The lines that begin with the prefix, without it.
pub open spec fn lines_after(all: Seq<Seq<char>>, prefix: Seq<char>) -> Seq<Seq<char>>
    decreases all.len(),
{
    if all.len() == 0 {
        Seq::empty()
    } else {
        let before = lines_after(all.drop_last(), prefix);
        match after_prefix(all.last(), prefix) {
            Some(rest) => before.push(rest),
            None => before,
        }
    }
}

fn after_each(text: &str, prefix: &str) -> (r: Vec<String>)
    ensures
        views(r@) == lines_after(lines(text@), prefix@),
{
    let all = lines_of(text);
    let ghost seen = views(all@);
    let mut found: Vec<String> = Vec::new();
    proof {
        assert(views(found@) =~= lines_after(seen.take(0), prefix@));
    }
    let mut i: usize = 0;
    while i < all.len()
        invariant
            i <= all@.len(),
            seen == views(all@),
            views(found@) == lines_after(seen.take(i as int), prefix@),
        decreases all@.len() - i,
    {
        proof {
            assert(seen.take(i + 1).drop_last() =~= seen.take(i as int));
            assert(seen.take(i + 1).last() == all@[i as int]@);
        }
        match strip_prefix(all[i].as_str(), prefix) {
            Some(rest) => {
                found.push(rest);
            },
            None => {},
        }
        i += 1;
    }
    proof {
        assert(seen.take(i as int) =~= seen);
    }
    found
}

/// The worktrees in what `git worktree list --porcelain` printed.
pub fn linked_worktree_paths(stdout: &str) -> (r: Vec<String>)
    ensures
        views(r@) == lines_after(lines(stdout@), "worktree "@),
{
    after_each(stdout, "worktree ")
}

/// The branches in what `git for-each-ref` printed of the refs under a prefix.
pub fn branches_under(stdout: &str, prefix: &str) -> (r: Vec<String>)
    ensures
        views(r@) == lines_after(lines(stdout@), prefix@ + "/"@),
{
    let mut start = prefix.to_owned();
    start.append("/");
    after_each(stdout, start.as_str())
}

/// A directory that Git named: as it is, or under the directory that Git was run
/// in.
pub open spec fn named_directory(cwd: Seq<char>, output: Seq<char>) -> Seq<char> {
    if absolute(trim_text(output)) {
        trim_text(output)
    } else {
        join_path(cwd, trim_text(output))
    }
}

/// The Git directory, or the common one, for what `git rev-parse` printed.
pub fn git_directory(cwd: &str, output: &str) -> (r: String)
    ensures
        r@ == named_directory(cwd@, output@),
{
    let path = trim(output);
    if is_absolute(path.as_str()) {
        path
    } else {
        join(cwd, path.as_str())
    }
}

/// Whether a repository is bare, for what `git rev-parse --is-bare-repository`
/// printed if it succeeded.
pub open spec fn says_bare(output: Option<Seq<char>>) -> bool {
    output is Some && trim_text(output->0) == "true"@
}

pub fn is_bare_repository(output: &Option<String>) -> (r: bool)
    ensures
        r == says_bare(opt_view(*output)),
{
    match output {
        Some(text) => trim(text.as_str()).as_str().eq("true"),
        None => false,
    }
}

/// The branch that a line of `git ls-remote --symref` says `HEAD` to be.
pub open spec fn symref_in(line: Seq<char>) -> Option<Seq<char>> {
    match after_prefix(line, "ref: refs/heads/"@) {
        None => None,
        Some(rest) => match split_first(rest, '\t') {
            None => None,
            Some((branch, head)) => if head == "HEAD"@ {
                Some(branch)
            } else {
                None
            },
        },
    }
}

/// The first such branch.
pub open spec fn first_symref(all: Seq<Seq<char>>, i: int) -> Option<Seq<char>>
    decreases all.len() - i,
{
    if i < 0 || i >= all.len() {
        None
    } else {
        match symref_in(all[i]) {
            Some(branch) => Some(branch),
            None => first_symref(all, i + 1),
        }
    }
}

/// The default branch of a remote repository, for what `git ls-remote --symref`
/// printed.
pub fn default_branch_in(stdout: &str) -> (r: Option<String>)
    ensures
        opt_view(r) == first_symref(lines(stdout@), 0),
{
    let all = lines_of(stdout);
    let ghost seen = views(all@);
    let mut i: usize = 0;
    while i < all.len()
        invariant
            i <= all@.len(),
            seen == views(all@),
            seen == lines(stdout@),
            first_symref(seen, i as int) == first_symref(seen, 0),
        decreases all@.len() - i,
    {
        proof {
            assert(seen[i as int] == all@[i as int]@);
        }
        match strip_prefix(all[i].as_str(), "ref: refs/heads/") {
            None => {},
            Some(rest) => match split_once(rest.as_str(), '\t') {
                None => {},
                Some((branch, head)) => if head.as_str().eq("HEAD") {
                    return Some(branch);
                },
            },
        }
        i += 1;
    }
    None
}

/// The default branch of a checkout: where its origin's `HEAD` points, or the
/// branch that it is on.
pub open spec fn checkout_branch(
    head: Option<Seq<char>>,
    current: Option<Seq<char>>,
    path: Seq<char>,
) -> Result<Seq<char>, Seq<char>> {
    match head_branch(head, "origin"@) {
        Some(branch) => Ok(branch),
        None => match printed_url(current) {
            Some(branch) => Ok(branch),
            None => Err(
                "could not determine managed checkout default branch from origin/HEAD or current branch: "@
                    + path,
            ),
        },
    }
}

pub fn dependent_default_branch(
    head: &Option<String>,
    current: &Option<String>,
    path: &str,
) -> (r: Result<String, Error>)
    ensures
        outcome(r) == checkout_branch(opt_view(*head), opt_view(*current), path@),
{
    match remote_default_branch(head, "origin") {
        Some(branch) => Ok(branch),
        None => match remote_url_in(current) {
            Some(branch) => Ok(branch),
            None => Err(
                Error::about(
                    "could not determine managed checkout default branch from origin/HEAD or current branch: ",
                    path,
                ),
            ),
        },
    }
}

/// How a repository is cloned by Git.
pub open spec fn clone_command(url: Seq<char>, path: Seq<char>, bare: bool) -> Seq<Seq<char>> {
    if bare {
        seq!["clone"@, "--bare"@, url, path]
    } else {
        seq!["clone"@, url, path]
    }
}

pub fn git_clone_args(url: &str, path: &str, bare: bool) -> (r: Vec<String>)
    ensures
        views(r@) == clone_command(url@, path@, bare),
{
    let args = if bare {
        owned(&["clone", "--bare", url, path])
    } else {
        owned(&["clone", url, path])
    };
    proof {
        assert(views(args@) =~= clone_command(url@, path@, bare));
    }
    args
}

pub fn ghq_get_args(url: &str) -> (r: Vec<String>)
    ensures
        views(r@) == seq!["get"@, url@],
{
    let args = owned(&["get", url]);
    proof {
        assert(views(args@) =~= seq!["get"@, url@]);
    }
    args
}

/// Where a checkout that is replaced is kept meanwhile, at the given try.
pub open spec fn backup_at(parent: Seq<char>, leaf: Seq<char>, process: u32, index: nat) -> Seq<
    char,
> {
    join_path(
        parent,
        ".repo-manager-replaced-"@ + leaf + "-"@ + decimal(process as nat) + "-"@
            + decimal(index),
    )
}

pub fn backup_path(parent: &str, leaf: &str, process: u32, index: u32) -> (r: String)
    ensures
        r@ == backup_at(parent@, leaf@, process, index as nat),
{
    let mut name = ".repo-manager-replaced-".to_owned();
    name.append(leaf);
    name.append("-");
    name.append(decimal_text(process as u128).as_str());
    name.append("-");
    name.append(decimal_text(index as u128).as_str());
    join(parent, name.as_str())
}

/// Different tries give different places.
pub proof fn backups_differ(parent: Seq<char>, leaf: Seq<char>, process: u32, a: nat, b: nat)
    requires
        a != b,
    ensures
        backup_at(parent, leaf, process, a) != backup_at(parent, leaf, process, b),
{
    let head = ".repo-manager-replaced-"@ + leaf + "-"@ + decimal(process as nat) + "-"@;
    reveal_strlit(".repo-manager-replaced-");
    lemma_decimal_reads_back(a, a + b);
    lemma_decimal_reads_back(b, a + b);
    let p = backup_at(parent, leaf, process, a);
    let q = backup_at(parent, leaf, process, b);
    assert((head + decimal(a))[0] == '.');
    assert((head + decimal(b))[0] == '.');
    if p == q {
        let cut = p.len() - decimal(a).len();
        assert(p.subrange(cut, p.len() as int) =~= decimal(a));
        assert(q.subrange(cut, q.len() as int) =~= decimal(b));
    }
}

} // verus!
