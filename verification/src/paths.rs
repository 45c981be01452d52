//! Unix paths as text: joining them and comparing them by their components.
use crate::text::{
    lemma_less_from_total, lemma_less_from_trans, rank_texts, split, split_from, split_text,
    text_less, views, Rank,
};
use vstd::prelude::*;

verus! {

pub open spec fn absolute(p: Seq<char>) -> bool {
    p.len() > 0 && p[0] == '/'
}

/// `part` below `base`; an absolute `part` stands for itself.
pub open spec fn join_path(base: Seq<char>, part: Seq<char>) -> Seq<char> {
    if absolute(part) {
        part
    } else if base.len() == 0 || base.last() == '/' {
        base + part
    } else {
        base.push('/') + part
    }
}

pub fn is_absolute(p: &str) -> (r: bool)
    ensures
        r == absolute(p@),
{
    p.unicode_len() > 0 && p.get_char(0) == '/'
}

pub fn join(base: &str, part: &str) -> (r: String)
    ensures
        r@ == join_path(base@, part@),
{
    if is_absolute(part) {
        return part.to_owned();
    }
    let n: usize = base.unicode_len();
    let mut r = base.to_owned();
    if n > 0 && base.get_char(n - 1) != '/' {
        r.push('/');
    }
    r.append(part);
    r
}

/// `parts`, each below the one before, from `base` on.
pub open spec fn join_all(base: Seq<char>, parts: Seq<Seq<char>>) -> Seq<char>
    decreases parts.len(),
{
    if parts.len() == 0 {
        base
    } else {
        join_path(join_all(base, parts.drop_last()), parts.last())
    }
}

pub fn join_parts(base: &str, parts: &Vec<String>) -> (r: String)
    ensures
        r@ == join_all(base@, views(parts@)),
{
    let mut r = base.to_owned();
    let mut i: usize = 0;
    while i < parts.len()
        invariant
            i <= parts@.len(),
            r@ == join_all(base@, views(parts@).take(i as int)),
        decreases parts@.len() - i,
    {
        r = join(&r, &parts[i]);
        i += 1;
        proof {
            assert(views(parts@).take(i as int).drop_last() =~= views(parts@).take(i - 1));
        }
    }
    proof {
        assert(views(parts@).take(i as int) =~= views(parts@));
    }
    r
}

/// A piece between slashes that names something: neither empty nor `.`.
pub open spec fn names_something(piece: Seq<char>) -> bool {
    piece.len() > 0 && piece != seq!['.']
}

/// The pieces of `pieces` that name something, in order.
pub open spec fn named(pieces: Seq<Seq<char>>) -> Seq<Seq<char>>
    decreases pieces.len(),
{
    if pieces.len() == 0 {
        seq![]
    } else if names_something(pieces.last()) {
        named(pieces.drop_last()).push(pieces.last())
    } else {
        named(pieces.drop_last())
    }
}

/// What a path begins with before its named pieces: `/` where it is absolute,
/// `.` where it is relative and its first piece is `.`.
pub open spec fn lead(p: Seq<char>) -> Seq<Seq<char>> {
    if absolute(p) {
        seq![seq!['/']]
    } else if split(p, '/')[0] == seq!['.'] {
        seq![seq!['.']]
    } else {
        seq![]
    }
}

/// The components of a path. Repeated slashes, a slash at the end and `.`
/// pieces behind the beginning are not components.
pub open spec fn components(p: Seq<char>) -> Seq<Seq<char>> {
    lead(p) + named(split(p, '/'))
}

pub proof fn lemma_split_not_empty(s: Seq<char>, sep: char, i: int)
    requires
        0 <= i <= s.len(),
    ensures
        split_from(s, sep, i).len() > 0,
{
}

pub fn components_of(p: &str) -> (r: Vec<String>)
    ensures
        views(r@) == components(p@),
{
    let pieces = split_text(p, '/');
    proof {
        lemma_split_not_empty(p@, '/', 0);
        assert(views(pieces@)[0] == pieces@[0]@);
        reveal_strlit(".");
        reveal_strlit("/");
        assert("."@ =~= seq!['.']);
        assert("/"@ =~= seq!['/']);
    }
    let mut r: Vec<String> = Vec::new();
    if is_absolute(p) {
        r.push("/".to_owned());
    } else if pieces[0].as_str().eq(".") {
        r.push(".".to_owned());
    }
    proof {
        assert(views(r@) =~= lead(p@));
        assert(views(r@) =~= lead(p@) + named(views(pieces@).take(0)));
    }
    let mut i: usize = 0;
    while i < pieces.len()
        invariant
            i <= pieces@.len(),
            "."@ == seq!['.'],
            views(r@) == lead(p@) + named(views(pieces@).take(i as int)),
        decreases pieces@.len() - i,
    {
        let ghost before = views(r@);
        proof {
            assert(views(pieces@).take(i + 1).drop_last() =~= views(pieces@).take(i as int));
            assert(views(pieces@).take(i + 1).last() == pieces@[i as int]@);
        }
        if !pieces[i].as_str().is_empty() && !pieces[i].as_str().eq(".") {
            r.push(pieces[i].clone());
            proof {
                assert(views(r@) =~= before.push(pieces@[i as int]@));
                assert(views(r@) =~= lead(p@) + named(views(pieces@).take(i + 1)));
            }
        }
        i += 1;
    }
    proof {
        assert(views(pieces@).take(i as int) =~= views(pieces@));
    }
    r
}

/// Whether two lists hold the same texts.
pub fn same_texts(a: &Vec<String>, b: &Vec<String>) -> (r: bool)
    ensures
        r == (views(a@) == views(b@)),
{
    if a.len() != b.len() {
        proof {
            assert(views(a@).len() != views(b@).len());
        }
        return false;
    }
    let mut i: usize = 0;
    while i < a.len()
        invariant
            a@.len() == b@.len(),
            i <= a@.len(),
            forall|j: int| 0 <= j < i ==> a@[j]@ == b@[j]@,
        decreases a@.len() - i,
    {
        if a[i] != b[i] {
            proof {
                assert(views(a@)[i as int] != views(b@)[i as int]);
            }
            return false;
        }
        i += 1;
    }
    proof {
        assert(views(a@) =~= views(b@));
    }
    true
}

/// Two texts that name the same path: their components agree.
pub open spec fn path_eq(a: Seq<char>, b: Seq<char>) -> bool {
    components(a) == components(b)
}

pub fn same_path(a: &str, b: &str) -> (r: bool)
    ensures
        r == path_eq(a@, b@),
{
    same_texts(&components_of(a), &components_of(b))
}

/// The class of a component in the order of paths: the root, `.`, `..`, names.
pub open spec fn component_class(c: Seq<char>) -> int {
    if c == "/"@ {
        0
    } else if c == "."@ {
        1
    } else if c == ".."@ {
        2
    } else {
        3
    }
}

pub open spec fn component_less(a: Seq<char>, b: Seq<char>) -> bool {
    ||| component_class(a) < component_class(b)
    ||| component_class(a) == component_class(b) && text_less(a, b)
}

pub open spec fn components_less(a: Seq<Seq<char>>, b: Seq<Seq<char>>, i: int) -> bool
    decreases b.len() - i,
{
    if i >= b.len() {
        false
    } else if i >= a.len() {
        true
    } else if a[i] != b[i] {
        component_less(a[i], b[i])
    } else {
        components_less(a, b, i + 1)
    }
}

/// The order of paths: by the first component in which they differ.
pub open spec fn path_less(a: Seq<char>, b: Seq<char>) -> bool {
    components_less(components(a), components(b), 0)
}

pub open spec fn path_rank(a: Seq<char>, b: Seq<char>) -> Rank {
    if path_eq(a, b) {
        Rank::Same
    } else if path_less(a, b) {
        Rank::Before
    } else {
        Rank::After
    }
}

fn class_of(c: &str) -> (r: u8)
    ensures
        r == component_class(c@),
{
    if c.eq("/") {
        0
    } else if c.eq(".") {
        1
    } else if c.eq("..") {
        2
    } else {
        3
    }
}

fn component_before(a: &str, b: &str) -> (r: bool)
    requires
        a@ != b@,
    ensures
        r == component_less(a@, b@),
{
    let x = class_of(a);
    let y = class_of(b);
    proof {
        lemma_less_from_total(a@, b@, 0);
    }
    x < y || (x == y && rank_texts(a, b) == Rank::Before)
}

pub fn rank_paths(a: &str, b: &str) -> (r: Rank)
    ensures
        r == path_rank(a@, b@),
{
    let x = components_of(a);
    let y = components_of(b);
    let ghost cx = components(a@);
    let ghost cy = components(b@);
    let mut i: usize = 0;
    while i < x.len() && i < y.len()
        invariant
            views(x@) == cx,
            views(y@) == cy,
            cx == components(a@),
            cy == components(b@),
            i <= x@.len(),
            i <= y@.len(),
            forall|j: int| 0 <= j < i ==> cx[j] == cy[j],
            components_less(cx, cy, i as int) == path_less(a@, b@),
        decreases x@.len() - i,
    {
        proof {
            assert(cx[i as int] == x@[i as int]@);
            assert(cy[i as int] == y@[i as int]@);
        }
        if x[i] != y[i] {
            return if component_before(&x[i], &y[i]) {
                Rank::Before
            } else {
                Rank::After
            };
        }
        i += 1;
    }
    if i < y.len() {
        proof {
            assert(cx.len() != cy.len());
        }
        Rank::Before
    } else if i < x.len() {
        proof {
            assert(cx.len() != cy.len());
        }
        Rank::After
    } else {
        proof {
            assert(cx =~= cy);
        }
        Rank::Same
    }
}

pub proof fn lemma_component_less_total(a: Seq<char>, b: Seq<char>)
    ensures
        a == b || component_less(a, b) || component_less(b, a),
        !(component_less(a, b) && component_less(b, a)),
        a == b ==> !component_less(a, b),
{
    lemma_less_from_total(a, b, 0);
}

pub proof fn lemma_component_less_trans(a: Seq<char>, b: Seq<char>, c: Seq<char>)
    requires
        component_less(a, b),
        component_less(b, c),
    ensures
        component_less(a, c),
{
    if component_class(a) == component_class(b) && component_class(b) == component_class(c) {
        lemma_less_from_trans(a, b, c, 0);
    }
}

pub proof fn lemma_components_less_total(a: Seq<Seq<char>>, b: Seq<Seq<char>>, i: int)
    requires
        0 <= i <= a.len(),
        i <= b.len(),
        forall|j: int| 0 <= j < i ==> a[j] == b[j],
    ensures
        a == b || components_less(a, b, i) || components_less(b, a, i),
        !(components_less(a, b, i) && components_less(b, a, i)),
        a == b ==> !components_less(a, b, i),
    decreases b.len() - i,
{
    if i < a.len() && i < b.len() {
        lemma_component_less_total(a[i], b[i]);
        if a[i] == b[i] {
            lemma_components_less_total(a, b, i + 1);
        }
    } else if i >= a.len() && i >= b.len() {
        assert(a =~= b);
    }
}

pub proof fn lemma_components_less_trans(
    a: Seq<Seq<char>>,
    b: Seq<Seq<char>>,
    c: Seq<Seq<char>>,
    i: int,
)
    requires
        0 <= i,
        components_less(a, b, i),
        components_less(b, c, i),
    ensures
        components_less(a, c, i),
    decreases c.len() - i,
{
    if i < a.len() && i < b.len() && i < c.len() {
        if a[i] == b[i] && b[i] == c[i] {
            lemma_components_less_trans(a, b, c, i + 1);
        } else if a[i] != b[i] && b[i] != c[i] {
            lemma_component_less_trans(a[i], b[i], c[i]);
            lemma_component_less_total(a[i], b[i]);
            lemma_component_less_total(b[i], c[i]);
        }
    }
}

/// Paths are totally ordered: of two, one comes first or they are the same.
pub proof fn lemma_path_less_total(a: Seq<char>, b: Seq<char>)
    ensures
        path_eq(a, b) || path_less(a, b) || path_less(b, a),
        !(path_less(a, b) && path_less(b, a)),
        path_eq(a, b) ==> !path_less(a, b),
{
    lemma_components_less_total(components(a), components(b), 0);
}

pub proof fn lemma_path_less_trans(a: Seq<char>, b: Seq<char>, c: Seq<char>)
    requires
        path_less(a, b),
        path_less(b, c),
    ensures
        path_less(a, c),
{
    lemma_components_less_trans(components(a), components(b), components(c), 0);
}

/// `p` lies at or below `root`: it begins with the components of `root`.
pub open spec fn path_under(p: Seq<char>, root: Seq<char>) -> bool {
    components(root).len() <= components(p).len() && components(p).take(
        components(root).len() as int,
    ) == components(root)
}

pub fn path_starts_with(p: &str, root: &str) -> (r: bool)
    ensures
        r == path_under(p@, root@),
{
    let x = components_of(p);
    let y = components_of(root);
    if y.len() > x.len() {
        return false;
    }
    let mut i: usize = 0;
    while i < y.len()
        invariant
            views(x@) == components(p@),
            views(y@) == components(root@),
            y@.len() <= x@.len(),
            i <= y@.len(),
            forall|j: int| 0 <= j < i ==> components(p@)[j] == components(root@)[j],
        decreases y@.len() - i,
    {
        proof {
            assert(components(p@)[i as int] == x@[i as int]@);
            assert(components(root@)[i as int] == y@[i as int]@);
        }
        if x[i] != y[i] {
            proof {
                assert(components(p@).take(components(root@).len() as int)[i as int]
                    != components(root@)[i as int]);
            }
            return false;
        }
        i += 1;
    }
    proof {
        assert(components(p@).take(components(root@).len() as int) =~= components(root@));
    }
    true
}

} // verus!
