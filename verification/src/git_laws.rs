//! What holds of every answer of Git that is read, and of every call that is made.
use crate::fetch::bare_fetch;
use crate::git::{
    backup_at, checkout_branch, clone_command, first_symref, lines_after, named_directory,
    printed_url, remote_command, remote_in, remote_slot, remotes_in, says_bare, symref_in,
    tracking_command,
};
use crate::paths::{absolute, join_path};
use crate::text::{
    after_prefix, decimal, lemma_decimal_reads_back, split_first, starts_with, trim_text,
};
use crate::text_laws::{split_texts_join_again, the_first_separator_splits};
use vstd::prelude::*;

verus! {

/// The line in which Git tells the URL of a remote.
pub open spec fn remote_line(name: Seq<char>, url: Seq<char>) -> Seq<char> {
    ("remote."@ + name + ".url"@).push(' ') + url
}

/// A remote is read from the line that tells it, by its name and its URL, whatever its
/// name is as long as no blank is in it.
pub proof fn told_remotes_are_read(name: Seq<char>, url: Seq<char>)
    requires
        name.len() > 0,
        !name.contains(' '),
        trim_text(url).len() > 0,
    ensures
        remote_in(remote_line(name, url)) == Some((name, trim_text(url))),
{
    let key = "remote."@ + name + ".url"@;
    reveal_strlit("remote.");
    reveal_strlit(".url");
    if key.contains(' ') {
        let i = choose|i: int| 0 <= i < key.len() && key[i] == ' ';
        if 7 <= i < 7 + name.len() {
            assert(name[i - 7] == ' ');
        }
    }
    the_first_separator_splits(key, ' ', url);
    let rest = name + ".url"@;
    assert(key.subrange(0, 7) =~= "remote."@);
    assert(key.subrange(7, key.len() as int) =~= rest);
    assert(rest.subrange(rest.len() - 4, rest.len() as int) =~= ".url"@);
    assert(rest.subrange(0, rest.len() - 4) =~= name);
}

/// Nothing is read of a line that does not tell the URL of a remote.
pub proof fn only_told_remotes_are_read(line: Seq<char>)
    ensures
        remote_in(line) matches Some((name, url)) ==> exists|text: Seq<char>| #[trigger]
            remote_line(name, text) == line && trim_text(text) == url,
{
    if let Some((name, url)) = remote_in(line) {
        split_texts_join_again(line, ' ');
        let (key, text) = split_first(line, ' ')->0;
        let rest = after_prefix(key, "remote."@)->0;
        assert(key =~= "remote."@ + name + ".url"@) by {
            let p = "remote."@;
            let q = ".url"@;
            assert(key =~= key.subrange(0, p.len() as int) + rest);
            assert(rest =~= name + rest.subrange(rest.len() - q.len(), rest.len() as int));
        }
        assert(remote_line(name, text) == line);
    }
}

/// A line tells the remote.
pub open spec fn tells_remote(all: Seq<Seq<char>>, remote: (Seq<char>, Seq<char>)) -> bool {
    exists|i: int| 0 <= i < all.len() && remote_in(#[trigger] all[i]) == Some(remote)
}

proof fn lemma_slot(remotes: Seq<(Seq<char>, Seq<char>)>, name: Seq<char>, i: int)
    requires
        0 <= i <= remotes.len(),
    ensures
        i <= remote_slot(remotes, name, i) <= remotes.len(),
    decreases remotes.len() - i,
{
    if i < remotes.len() && !crate::text::text_less(name, remotes[i].0) {
        lemma_slot(remotes, name, i + 1);
    }
}

/// Every remote that a line tells is listed, and no other.
pub proof fn all_told_remotes_are_listed(all: Seq<Seq<char>>, remote: (Seq<char>, Seq<char>))
    ensures
        remotes_in(all).contains(remote) <==> tells_remote(all, remote),
    decreases all.len(),
{
    if all.len() > 0 {
        let rest = all.drop_last();
        let before = remotes_in(rest);
        let list = remotes_in(all);
        all_told_remotes_are_listed(rest, remote);
        assert(tells_remote(rest, remote) ==> tells_remote(all, remote)) by {
            if tells_remote(rest, remote) {
                let i = choose|i: int|
                    0 <= i < rest.len() && remote_in(#[trigger] rest[i]) == Some(remote);
                assert(all[i] == rest[i]);
            }
        }
        assert(tells_remote(all, remote) ==> tells_remote(rest, remote) || remote_in(all.last())
            == Some(remote)) by {
            if tells_remote(all, remote) {
                let i = choose|i: int|
                    0 <= i < all.len() && remote_in(#[trigger] all[i]) == Some(remote);
                if i < rest.len() {
                    assert(rest[i] == all[i]);
                }
            }
        }
        if let Some(last) = remote_in(all.last()) {
            assert(all[all.len() - 1] == all.last());
            let k = remote_slot(before, last.0, 0);
            lemma_slot(before, last.0, 0);
            assert(list[k] == last);
            if before.contains(remote) {
                let m = choose|m: int| 0 <= m < before.len() && before[m] == remote;
                assert(list[if m < k {
                    m
                } else {
                    m + 1
                }] == remote);
            }
            if list.contains(remote) && remote != last {
                let m = choose|m: int| 0 <= m < list.len() && list[m] == remote;
                assert(before[if m < k {
                    m
                } else {
                    m - 1
                }] == remote);
            }
        }
    }
}

/// What is listed of lines with a prefix is what stands behind the prefix, for every
/// such line and no other, as often as it stands there at most.
pub proof fn lines_are_listed_without_their_prefix(
    all: Seq<Seq<char>>,
    prefix: Seq<char>,
    text: Seq<char>,
)
    ensures
        lines_after(all, prefix).contains(text) <==> all.contains(prefix + text),
        lines_after(all, prefix).len() <= all.len(),
    decreases all.len(),
{
    if all.len() > 0 {
        let rest = all.drop_last();
        let last = all.last();
        let before = lines_after(rest, prefix);
        let list = lines_after(all, prefix);
        lines_are_listed_without_their_prefix(rest, prefix, text);
        let wanted = prefix + text;
        assert(wanted.subrange(0, prefix.len() as int) =~= prefix);
        assert(wanted.subrange(prefix.len() as int, wanted.len() as int) =~= text);
        if after_prefix(last, prefix) is Some {
            let found = after_prefix(last, prefix)->0;
            assert(last =~= prefix + found);
            assert(list[before.len() as int] == found);
        }
        if all.contains(wanted) {
            let i = choose|i: int| 0 <= i < all.len() && all[i] == wanted;
            if i < rest.len() {
                assert(rest[i] == wanted);
                let m = choose|m: int| 0 <= m < before.len() && before[m] == text;
                assert(list[m] == text);
            }
        }
        if list.contains(text) {
            let m = choose|m: int| 0 <= m < list.len() && list[m] == text;
            if m < before.len() {
                assert(before[m] == text);
                let i = choose|i: int| 0 <= i < rest.len() && rest[i] == wanted;
                assert(all[i] == wanted);
            } else {
                assert(all[all.len() - 1] == wanted);
            }
        }
    }
}

/// The line in which Git tells what a remote's HEAD is.
pub open spec fn head_line(branch: Seq<char>) -> Seq<char> {
    ("ref: refs/heads/"@ + branch).push('\t') + "HEAD"@
}

/// The default branch is read from the line that tells it.
pub proof fn told_heads_are_read(branch: Seq<char>)
    requires
        !branch.contains('\t'),
    ensures
        symref_in(head_line(branch)) == Some(branch),
{
    let p = "ref: refs/heads/"@;
    let line = head_line(branch);
    assert(line.subrange(0, p.len() as int) =~= p);
    assert(line.subrange(p.len() as int, line.len() as int) =~= branch.push('\t') + "HEAD"@);
    the_first_separator_splits(branch, '\t', "HEAD"@);
}

/// Of several lines the first that tells a default branch counts, and where none does
/// there is none.
pub proof fn the_first_head_counts(all: Seq<Seq<char>>, i: int, k: int)
    requires
        0 <= i <= k <= all.len(),
        forall|j: int| i <= j < k ==> symref_in(#[trigger] all[j]) is None,
    ensures
        k < all.len() && symref_in(all[k]) is Some ==> first_symref(all, i) == symref_in(all[k]),
        k == all.len() ==> first_symref(all, i) is None,
    decreases k - i,
{
    if i < k {
        the_first_head_counts(all, i + 1, k);
    }
}

/// A directory that Git names from the root is taken as it is; any other lies in the
/// directory that Git was run in.
pub proof fn named_directories_lie_where_git_ran(cwd: Seq<char>, output: Seq<char>)
    ensures
        absolute(trim_text(output)) ==> named_directory(cwd, output) == trim_text(output),
        !absolute(trim_text(output)) ==> named_directory(cwd, output) == join_path(
            cwd,
            trim_text(output),
        ),
        says_bare(Some(output)) <==> trim_text(output) == "true"@,
        !says_bare(None),
{
}

/// A checkout's branch is the one that the origin's HEAD names; without that it is the
/// one that the checkout is on, as far as that is on any.
pub proof fn origins_name_the_branch(
    branch: Seq<char>,
    current: Option<Seq<char>>,
    path: Seq<char>,
)
    requires
        branch.len() > 0,
        trim_text("origin/"@ + branch) == "origin/"@ + branch,
    ensures
        checkout_branch(Some("origin/"@ + branch), current, path) == Ok::<Seq<char>, Seq<char>>(
            branch,
        ),
        current is Some && trim_text(current->0).len() > 0 ==> checkout_branch(None, current, path)
            == Ok::<Seq<char>, Seq<char>>(trim_text(current->0)),
        current is None || trim_text(current->0).len() == 0 ==> checkout_branch(None, current, path)
            is Err,
{
    reveal_strlit("origin/");
    reveal_strlit("origin");
    reveal_strlit("/");
    let head = "origin/"@ + branch;
    let n = "origin/"@.len() as int;
    assert("origin"@ + "/"@ =~= "origin/"@);
    assert(head.subrange(0, n) =~= "origin/"@);
    assert(head.subrange(n, head.len() as int) =~= branch);
}

/// What Git prints of a remote is its URL, without the white space around it, unless
/// that is all.
pub proof fn printed_urls_are_trimmed(text: Seq<char>)
    ensures
        printed_url(None) is None,
        trim_text(text).len() > 0 ==> printed_url(Some(text)) == Some(trim_text(text)),
        trim_text(text).len() == 0 ==> printed_url(Some(text)) is None,
{
}

/// What is replaced is kept next to it under a name that tells what it was; two that
/// are kept of one thing by one process have different places.
pub proof fn replaced_places_are_kept_apart(
    parent: Seq<char>,
    leaf: Seq<char>,
    process: u32,
    i: nat,
    j: nat,
)
    ensures
        backup_at(parent, leaf, process, i) == join_path(
            parent,
            ".repo-manager-replaced-"@ + leaf + "-"@ + decimal(process as nat) + "-"@ + decimal(i),
        ),
        i != j ==> backup_at(parent, leaf, process, i) != backup_at(parent, leaf, process, j),
{
    reveal_strlit(".repo-manager-replaced-");
    let head = ".repo-manager-replaced-"@ + leaf + "-"@ + decimal(process as nat) + "-"@;
    let a = join_path(parent, head + decimal(i));
    let b = join_path(parent, head + decimal(j));
    assert((head + decimal(i))[0] == '.');
    assert((head + decimal(j))[0] == '.');
    if a == b {
        let n = a.len() - decimal(i).len();
        let m = b.len() - decimal(j).len();
        assert(a.subrange(n, a.len() as int) =~= decimal(i));
        assert(b.subrange(m, b.len() as int) =~= decimal(j));
        lemma_decimal_reads_back(i, i);
        lemma_decimal_reads_back(j, j);
        assert(n == m);
        assert(decimal(i) =~= decimal(j));
    }
}

/// A clone goes from the URL to the path, and is bare exactly where that is asked for.
pub proof fn clones_go_from_url_to_path(url: Seq<char>, path: Seq<char>, bare: bool)
    ensures
        ({
            let args = clone_command(url, path, bare);
            let n = args.len() as int;
            &&& args[0] == "clone"@
            &&& args[n - 2] == url
            &&& args[n - 1] == path
            &&& bare ==> n == 4 && args[1] == "--bare"@
            &&& !bare ==> n == 3
        }),
{
}

/// A remote that is configured gets its URL set, and one that is not is added; either
/// way the name comes before the URL.
pub proof fn remotes_get_their_url(configured: bool, name: Seq<char>, url: Seq<char>)
    ensures
        ({
            let args = remote_command(configured, name, url);
            &&& args.len() == 4
            &&& args[0] == "remote"@
            &&& configured ==> args[1] == "set-url"@
            &&& !configured ==> args[1] == "add"@
            &&& args[2] == name
            &&& args[3] == url
        }),
{
}

/// A branch that is there is made to follow the remote one, and otherwise is made from
/// it.
pub proof fn branches_follow_the_remote_one(exists: bool, local: Seq<char>, remote: Seq<char>)
    ensures
        ({
            let args = tracking_command(exists, local, remote);
            &&& args.len() == 4
            &&& args[0] == "branch"@
            &&& exists ==> args[1] == "--set-upstream-to"@ && args[2] == remote && args[3] == local
            &&& !exists ==> args[1] == "--track"@ && args[2] == local && args[3] == remote
        }),
{
}

/// A bare repository takes the branches and tags of its origin as its own. Those of
/// any other remote are kept apart from its own, and apart from those of each other
/// remote.
pub proof fn other_remotes_are_kept_apart(remote: Seq<char>, other: Seq<char>)
    requires
        remote != "origin"@,
    ensures
        ({
            let own = bare_fetch("origin"@);
            let args = bare_fetch(remote);
            &&& own.len() == 5 && args.len() == 5
            &&& own[0] == "fetch"@ && args[0] == "fetch"@
            &&& own[1] == "--prune"@ && args[1] == "--prune"@
            &&& own[2] == "origin"@ && args[2] == remote
            &&& own[3] == "+refs/heads/*:refs/heads/*"@
            &&& own[4] == "+refs/tags/*:refs/tags/*"@
            &&& starts_with(args[3], "+refs/heads/*:refs/remotes/"@)
            &&& starts_with(args[4], "+refs/tags/*:refs/repo-manager/remotes/"@)
            &&& other != remote && other != "origin"@ ==> bare_fetch(other)[3] != args[3]
                && bare_fetch(other)[4] != args[4]
        }),
{
    let args = bare_fetch(remote);
    let heads = "+refs/heads/*:refs/remotes/"@;
    let tags = "+refs/tags/*:refs/repo-manager/remotes/"@;
    assert(args[3].subrange(0, heads.len() as int) =~= heads);
    assert(args[4].subrange(0, tags.len() as int) =~= tags);
    if other != remote && other != "origin"@ {
        let theirs = bare_fetch(other);
        let h = heads.len() as int;
        let t = tags.len() as int;
        let e = "/*"@.len() as int;
        let f = "/tags/*"@.len() as int;
        if theirs[3] == args[3] {
            assert(args[3].subrange(h, args[3].len() - e) =~= remote);
            assert(theirs[3].subrange(h, theirs[3].len() - e) =~= other);
        }
        if theirs[4] == args[4] {
            assert(args[4].subrange(t, args[4].len() - f) =~= remote);
            assert(theirs[4].subrange(t, theirs[4].len() - f) =~= other);
        }
    }
}

} // verus!
