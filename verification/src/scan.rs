//! The search for Git repositories below a directory. The caller reads the
//! directories; the search says which to read and what was found.
use crate::paths::{lemma_path_less_total, lemma_path_less_trans, path_less, rank_paths};
use crate::text::{views, Rank};
use vstd::prelude::*;

verus! {

/// What a directory shows of itself.
#[derive(Debug, Clone, Copy)]
pub struct DirectoryMarks {
    /// It holds the metadata file of a fork or mirror view.
    pub view_file: bool,
    pub dot_git: bool,
    pub head_file: bool,
    pub objects_dir: bool,
    pub refs_dir: bool,
}

pub open spec fn repository_marks(m: DirectoryMarks) -> bool {
    m.view_file || m.dot_git || (m.head_file && m.objects_dir && m.refs_dir)
}

pub fn is_git_repository_path(marks: &DirectoryMarks) -> (r: bool)
    ensures
        r == repository_marks(*marks),
{
    marks.view_file || marks.dot_git || (marks.head_file && marks.objects_dir && marks.refs_dir)
}

/// An entry of a directory.
#[derive(Debug)]
pub struct DirectoryEntry {
    pub path: String,
    /// Its name, where that is valid text.
    pub name: Option<String>,
    pub directory: bool,
    pub symlink: bool,
}

/// A directory that is never looked into.
pub open spec fn pruned_name(name: Seq<char>) -> bool {
    name == ".git"@ || name == ".direnv"@ || name == ".jj"@ || name == "target"@ || name
        == "node_modules"@
}

pub fn should_prune_scan_dir(name: &Option<String>) -> (r: bool)
    ensures
        r == (name matches Some(n) && pruned_name(n@)),
{
    match name {
        Some(n) => {
            let n = n.as_str();
            n.eq(".git") || n.eq(".direnv") || n.eq(".jj") || n.eq("target") || n.eq("node_modules")
        },
        None => false,
    }
}

/// The entry is looked into.
pub open spec fn descends(e: DirectoryEntry) -> bool {
    e.directory && !e.symlink && !(e.name matches Some(n) && pruned_name(n@))
}

pub open spec fn descended(entries: Seq<DirectoryEntry>) -> Seq<Seq<char>>
    decreases entries.len(),
{
    if entries.len() == 0 {
        seq![]
    } else if descends(entries.last()) {
        descended(entries.drop_last()).push(entries.last().path@)
    } else {
        descended(entries.drop_last())
    }
}

/// The first of `paths` at or behind `i` that comes after `p`.
pub open spec fn path_position(paths: Seq<Seq<char>>, p: Seq<char>, i: int) -> int
    decreases paths.len() - i,
{
    if i < paths.len() && !path_less(p, paths[i]) {
        path_position(paths, p, i + 1)
    } else {
        i
    }
}

/// `paths` in order.
pub open spec fn sorted_paths(paths: Seq<Seq<char>>) -> Seq<Seq<char>>
    decreases paths.len(),
{
    if paths.len() == 0 {
        seq![]
    } else {
        let before = sorted_paths(paths.drop_last());
        before.insert(path_position(before, paths.last(), 0), paths.last())
    }
}

/// A search: the directories that are still to be read, and the repositories
/// that were found.
#[derive(Debug)]
pub struct Scan {
    pub stack: Vec<String>,
    pub found: Vec<String>,
}

/// What is found, and what is still to be looked into, once a directory was.
pub open spec fn visited(
    found: Seq<Seq<char>>,
    stack: Seq<Seq<char>>,
    path: Seq<char>,
    marks: DirectoryMarks,
    entries: Seq<DirectoryEntry>,
) -> (Seq<Seq<char>>, Seq<Seq<char>>) {
    if repository_marks(marks) {
        (found.push(path), stack)
    } else {
        (found, stack + descended(entries))
    }
}

impl Scan {
    /// A search below `root`, where that exists.
    pub fn start(root: &str, exists: bool) -> (r: Scan)
        ensures
            views(r.stack@) == (if exists {
                seq![root@]
            } else {
                seq![]
            }),
            views(r.found@) == Seq::<Seq<char>>::empty(),
    {
        let found: Vec<String> = Vec::new();
        let mut stack: Vec<String> = Vec::new();
        if exists {
            stack.push(root.to_owned());
            proof {
                assert(views(stack@) =~= seq![root@]);
            }
        }
        proof {
            assert(views(found@) =~= seq![]);
            if !exists {
                assert(views(stack@) =~= seq![]);
            }
        }
        Scan { stack, found }
    }

    /// The directory that is to be read next.
    pub fn next(&mut self) -> (r: Option<String>)
        ensures
            views(final(self).found@) == views(old(self).found@),
            match r {
                Some(path) => views(old(self).stack@).len() > 0 && path@ == views(
                    old(self).stack@,
                ).last() && views(final(self).stack@) == views(old(self).stack@).drop_last(),
                None => views(old(self).stack@).len() == 0 && views(final(self).stack@) == views(
                    old(self).stack@,
                ),
            },
    {
        let ghost before = views(self.stack@);
        let r = self.stack.pop();
        proof {
            if r is Some {
                assert(views(self.stack@) =~= before.drop_last());
            } else {
                assert(views(self.stack@) =~= before);
            }
        }
        r
    }

    /// Takes what the directory at `path` showed. A repository is found and not
    /// looked into; elsewhere the search goes on in the entries. A directory that
    /// could not be read has none.
    pub fn visit(&mut self, path: String, marks: &DirectoryMarks, entries: &Vec<DirectoryEntry>)
        ensures
            (views(final(self).found@), views(final(self).stack@)) == visited(
                views(old(self).found@),
                views(old(self).stack@),
                path@,
                *marks,
                entries@,
            ),
    {
        broadcast use crate::text::lemma_views_push;

        if is_git_repository_path(marks) {
            self.found.push(path);
            return ;
        }
        let ghost start = views(self.stack@);
        proof {
            assert(start + descended(entries@.take(0)) =~= start);
        }
        let mut i: usize = 0;
        while i < entries.len()
            invariant
                i <= entries@.len(),
                self.found == old(self).found,
                views(self.stack@) == start + descended(entries@.take(i as int)),
            decreases entries@.len() - i,
        {
            let entry = &entries[i];
            let ghost before = views(self.stack@);
            proof {
                assert(entries@.take(i + 1).drop_last() =~= entries@.take(i as int));
            }
            if entry.directory && !entry.symlink && !should_prune_scan_dir(&entry.name) {
                self.stack.push(entry.path.clone());
                proof {
                    assert(views(self.stack@) =~= before.push(entry.path@));
                    assert(descends(entries@[i as int]));
                    assert(before.push(entry.path@) =~= start + descended(entries@.take(i + 1)));
                }
            }
            i += 1;
        }
        proof {
            assert(entries@.take(i as int) =~= entries@);
        }
    }

    /// The repositories that were found, in the order of their paths.
    pub fn finish(&self) -> (r: Vec<String>)
        ensures
            views(r@) == sorted_paths(views(self.found@)),
    {
        sort_paths(&self.found)
    }
}

fn insert_path(list: &mut Vec<String>, path: &str)
    ensures
        views(final(list)@) == views(old(list)@).insert(
            path_position(views(old(list)@), path@, 0),
            path@,
        ),
{
    let ghost before = views(list@);
    let mut i: usize = 0;
    while i < list.len() && rank_paths(path, &list[i]) != Rank::Before
        invariant
            i <= list@.len(),
            list@ == old(list)@,
            before == views(list@),
            path_position(before, path@, i as int) == path_position(before, path@, 0),
        decreases list@.len() - i,
    {
        proof {
            assert(before[i as int] == list@[i as int]@);
            lemma_path_less_total(path@, before[i as int]);
        }
        i += 1;
    }
    proof {
        if i < list@.len() {
            assert(before[i as int] == list@[i as int]@);
            lemma_path_less_total(path@, before[i as int]);
        }
        assert(path_position(before, path@, 0) == i);
    }
    list.insert(i, path.to_owned());
    proof {
        assert(views(list@) =~= before.insert(i as int, path@));
    }
}

/// `paths` in order.
pub fn sort_paths(paths: &Vec<String>) -> (r: Vec<String>)
    ensures
        views(r@) == sorted_paths(views(paths@)),
{
    let ghost all = views(paths@);
    let mut r: Vec<String> = Vec::new();
    proof {
        assert(views(r@) =~= sorted_paths(all.take(0)));
    }
    let mut i: usize = 0;
    while i < paths.len()
        invariant
            i <= paths@.len(),
            all == views(paths@),
            views(r@) == sorted_paths(all.take(i as int)),
        decreases paths@.len() - i,
    {
        insert_path(&mut r, &paths[i]);
        i += 1;
        proof {
            assert(all.take(i as int).drop_last() =~= all.take(i - 1));
            assert(all.take(i as int).last() == paths@[i - 1]@);
        }
    }
    proof {
        assert(all.take(i as int) =~= all);
    }
    r
}

/// No path comes before the one in front of it.
pub open spec fn in_path_order(paths: Seq<Seq<char>>) -> bool {
    forall|i: int, j: int|
        0 <= i < j < paths.len() ==> !path_less(#[trigger] paths[j], #[trigger] paths[i])
}

proof fn lemma_path_position(paths: Seq<Seq<char>>, p: Seq<char>, i: int)
    requires
        0 <= i <= paths.len(),
    ensures
        i <= path_position(paths, p, i) <= paths.len(),
        path_position(paths, p, i) < paths.len() ==> path_less(
            p,
            paths[path_position(paths, p, i)],
        ),
        forall|j: int|
            i <= j < path_position(paths, p, i) ==> !path_less(p, #[trigger] paths[j]),
    decreases paths.len() - i,
{
    if i < paths.len() && !path_less(p, paths[i]) {
        lemma_path_position(paths, p, i + 1);
    }
}

/// `sorted_paths` gives the same paths, in order.
pub proof fn sorted_paths_are_sorted(paths: Seq<Seq<char>>)
    ensures
        in_path_order(sorted_paths(paths)),
        sorted_paths(paths).len() == paths.len(),
        sorted_paths(paths).to_multiset() == paths.to_multiset(),
    decreases paths.len(),
{
    if paths.len() > 0 {
        let t = paths.drop_last();
        sorted_paths_are_sorted(t);
        let before = sorted_paths(t);
        let p = paths.last();
        lemma_path_position(before, p, 0);
        let k = path_position(before, p, 0);
        let s = before.insert(k, p);
        assert(sorted_paths(paths) == s);
        assert forall|i: int, j: int| 0 <= i < j < s.len() implies !path_less(
            #[trigger] s[j],
            #[trigger] s[i],
        ) by {
            if i < k && j < k {
                assert(s[i] == before[i] && s[j] == before[j]);
            } else if i < k && j == k {
                assert(s[i] == before[i]);
                lemma_path_less_total(p, before[i]);
            } else if i < k {
                assert(s[i] == before[i] && s[j] == before[j - 1]);
            } else if i == k {
                assert(s[j] == before[j - 1]);
                if path_less(before[j - 1], p) {
                    lemma_path_less_trans(before[j - 1], p, before[k]);
                    lemma_path_less_total(before[j - 1], before[k]);
                    if k < j - 1 {
                        assert(!path_less(before[j - 1], before[k]));
                    }
                }
            } else {
                assert(s[i] == before[i - 1] && s[j] == before[j - 1]);
            }
        }
        broadcast use vstd::seq_lib::group_to_multiset_ensures;

        assert(paths =~= t.push(p));
        assert(s.to_multiset() =~= before.to_multiset().insert(p)) by {
            vstd::seq_lib::to_multiset_insert(before, k, p);
        }
        assert(paths.to_multiset() =~= t.to_multiset().insert(p));
    } else {
        assert(sorted_paths(paths) =~= paths);
    }
}

} // verus!
