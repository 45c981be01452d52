//! What holds of every path, and of every search of a directory.
use crate::paths::{
    absolute, component_less, components, components_less, join_path, path_eq, path_less,
    path_under,
};
use crate::scan::{descended, descends, repository_marks, DirectoryEntry, DirectoryMarks};
use crate::text::text_less;
use vstd::prelude::*;

verus! {

/// A part that begins at the root stands for itself; any other stands below the base,
/// with one slash between.
pub proof fn parts_stand_below_their_base(base: Seq<char>, part: Seq<char>)
    ensures
        part.len() > 0 && part[0] == '/' ==> join_path(base, part) == part,
        !(part.len() > 0 && part[0] == '/') && base.len() > 0 && base.last() != '/' ==> join_path(
            base,
            part,
        ) == base + seq!['/'] + part,
        !(part.len() > 0 && part[0] == '/') && (base.len() == 0 || base.last() == '/')
            ==> join_path(base, part) == base + part,
        absolute(part) <==> part.len() > 0 && part[0] == '/',
{
    assert(base.push('/') =~= base + seq!['/']);
}

/// A path lies under a root exactly where it begins with all components of it; it lies
/// under itself, and two that lie under each other are the same path.
pub proof fn paths_lie_under_their_beginnings(path: Seq<char>, root: Seq<char>, rest: Seq<Seq<char>>)
    ensures
        components(path) == components(root) + rest ==> path_under(path, root),
        path_under(path, root) ==> exists|tail: Seq<Seq<char>>| #[trigger]
            (components(root) + tail) == components(path),
        path_under(path, path),
        path_under(path, root) && path_under(root, path) ==> components(path) == components(root),
        path_eq(path, root) <==> components(path) == components(root),
{
    let c = components(path);
    let r = components(root);
    if c == r + rest {
        assert((r + rest).take(r.len() as int) =~= r);
    }
    if path_under(path, root) {
        let tail = c.subrange(r.len() as int, c.len() as int);
        assert(r + tail =~= c);
    }
    assert(c.take(c.len() as int) =~= c);
    if path_under(path, root) && path_under(root, path) {
        assert(c.take(r.len() as int) =~= c);
    }
}

proof fn lemma_components_at(a: Seq<Seq<char>>, b: Seq<Seq<char>>, i: int, k: int)
    requires
        0 <= i <= k,
        k <= a.len(),
        k < b.len(),
        forall|j: int| i <= j < k ==> a[j] == b[j],
        k < a.len() ==> a[k] != b[k],
    ensures
        components_less(a, b, i) <==> k == a.len() || component_less(a[k], b[k]),
    decreases k - i,
{
    if i < k {
        lemma_components_at(a, b, i + 1, k);
    }
}

/// Paths are ordered by the first component in which they differ, as texts where both
/// are names; a path comes before all that lie under it.
pub proof fn paths_are_ordered_by_component(
    a: Seq<char>,
    b: Seq<char>,
    head: Seq<Seq<char>>,
    x: Seq<char>,
    y: Seq<char>,
    s: Seq<Seq<char>>,
    t: Seq<Seq<char>>,
)
    requires
        components(b) == head.push(y) + t,
        x != y,
        x != "/"@ && x != "."@ && x != ".."@,
        y != "/"@ && y != "."@ && y != ".."@,
    ensures
        components(a) == head.push(x) + s ==> (path_less(a, b) <==> text_less(x, y)),
        components(a) == head ==> path_less(a, b),
{
    let k = head.len() as int;
    let q = components(b);
    assert(q[k] == y);
    assert forall|j: int| 0 <= j < k implies q[j] == head[j] by {}
    if components(a) == head.push(x) + s {
        let p = components(a);
        assert(p[k] == x);
        assert forall|j: int| 0 <= j < k implies p[j] == q[j] by {
            assert(p[j] == head[j]);
        }
        lemma_components_at(p, q, 0, k);
    }
    if components(a) == head {
        lemma_components_at(head, q, 0, k);
    }
}

/// A directory is a repository exactly where it holds a view, a `.git`, or all that a
/// bare repository does.
pub proof fn repositories_are_told_by_their_files(m: DirectoryMarks)
    ensures
        repository_marks(m) <==> m.view_file || m.dot_git || (m.head_file && m.objects_dir
            && m.refs_dir),
{
}

/// A name that is never looked into.
pub open spec fn is_pruned(e: DirectoryEntry) -> bool {
    e.name is Some && (e.name->0@ == ".git"@ || e.name->0@ == ".direnv"@ || e.name->0@ == ".jj"@
        || e.name->0@ == "target"@ || e.name->0@ == "node_modules"@)
}

/// The search goes on in the directories that are no links and have no name that is
/// never looked into, and nowhere else.
pub proof fn searches_go_into_directories(entries: Seq<DirectoryEntry>, path: Seq<char>)
    ensures
        descended(entries).contains(path) <==> exists|i: int|
            0 <= i < entries.len() && (#[trigger] entries[i]).path@ == path && entries[i].directory
                && !entries[i].symlink && !is_pruned(entries[i]),
    decreases entries.len(),
{
    if entries.len() > 0 {
        let rest = entries.drop_last();
        let last = entries.last();
        let before = descended(rest);
        let list = descended(entries);
        searches_go_into_directories(rest, path);
        assert(entries[entries.len() - 1] == last);
        assert(descends(last) <==> last.directory && !last.symlink && !is_pruned(last));
        if list.contains(path) {
            let m = choose|m: int| 0 <= m < list.len() && list[m] == path;
            if m < before.len() {
                assert(before[m] == path);
                let i = choose|i: int|
                    0 <= i < rest.len() && (#[trigger] rest[i]).path@ == path && rest[i].directory
                        && !rest[i].symlink && !is_pruned(rest[i]);
                assert(entries[i] == rest[i]);
            }
        }
        if exists|i: int|
            0 <= i < entries.len() && (#[trigger] entries[i]).path@ == path && entries[i].directory
                && !entries[i].symlink && !is_pruned(entries[i]) {
            let i = choose|i: int|
                0 <= i < entries.len() && (#[trigger] entries[i]).path@ == path
                    && entries[i].directory && !entries[i].symlink && !is_pruned(entries[i]);
            if i < rest.len() {
                assert(rest[i] == entries[i]);
                let m = choose|m: int| 0 <= m < before.len() && before[m] == path;
                assert(list[m] == path);
            } else {
                assert(list[before.len() as int] == path);
            }
        }
    }
}

} // verus!
