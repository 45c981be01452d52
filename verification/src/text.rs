//! Text as sequences of characters: searching, splitting, trimming, numbers.
use vstd::prelude::*;

verus! {

/// `String::push` appends one character to the end of the string.
pub assume_specification[ String::push ](s: &mut String, c: char)
    ensures
        final(s)@ == old(s)@.push(c),
;

/// The characters of a string, in order.
pub fn chars_of(s: &str) -> (r: Vec<char>)
    ensures
        r@ == s@,
{
    let mut r: Vec<char> = Vec::new();
    for c in iter: s.chars()
        invariant
            iter.seq() == s@,
            r@ == s@.take(iter.index() as int),
    {
        r.push(c);
    }
    r
}

/// The string that holds the characters `start..end` of `v`.
pub fn string_between(v: &[char], start: usize, end: usize) -> (r: String)
    requires
        start <= end <= v@.len(),
    ensures
        r@ == v@.subrange(start as int, end as int),
{
    let mut r = String::new();
    let mut i: usize = start;
    while i < end
        invariant
            start <= i <= end <= v@.len(),
            r@ == v@.subrange(start as int, i as int),
        decreases end - i,
    {
        r.push(v[i]);
        i += 1;
    }
    r
}

/// The first position at or after `i` where `c` stands in `s`; the length of
/// `s` where there is none.
pub open spec fn find_from(s: Seq<char>, c: char, i: int) -> int
    decreases s.len() - i,
{
    if i >= s.len() {
        s.len() as int
    } else if s[i] == c {
        i
    } else {
        find_from(s, c, i + 1)
    }
}

pub proof fn lemma_find_from(s: Seq<char>, c: char, i: int)
    requires
        0 <= i <= s.len(),
    ensures
        i <= find_from(s, c, i) <= s.len(),
        forall|j: int| i <= j < find_from(s, c, i) ==> s[j] != c,
        find_from(s, c, i) < s.len() ==> s[find_from(s, c, i)] == c,
    decreases s.len() - i,
{
    if i < s.len() && s[i] != c {
        lemma_find_from(s, c, i + 1);
    }
}

pub fn find_char(v: &[char], c: char, start: usize) -> (r: usize)
    requires
        start <= v@.len(),
    ensures
        r == find_from(v@, c, start as int),
        start <= r <= v@.len(),
        r < v@.len() ==> v@[r as int] == c,
{
    let mut i: usize = start;
    while i < v.len()
        invariant
            start <= i <= v@.len(),
            find_from(v@, c, i as int) == find_from(v@, c, start as int),
        decreases v@.len() - i,
    {
        if v[i] == c {
            return i;
        }
        i += 1;
    }
    i
}

/// The pieces of `s` from `i` on between the occurrences of `sep`.
pub open spec fn split_from(s: Seq<char>, sep: char, i: int) -> Seq<Seq<char>>
    decreases s.len() - i,
    when 0 <= i <= s.len()
{
    let end = find_from(s, sep, i);
    if end < i || end >= s.len() {
        seq![s.subrange(i, s.len() as int)]
    } else {
        seq![s.subrange(i, end)] + split_from(s, sep, end + 1)
    }
}

/// The pieces of `s` between the occurrences of `sep`: one more than there are
/// occurrences.
pub open spec fn split(s: Seq<char>, sep: char) -> Seq<Seq<char>> {
    split_from(s, sep, 0)
}

/// The views of a list of strings.
pub open spec fn views(v: Seq<String>) -> Seq<Seq<char>> {
    v.map_values(|x: String| x@)
}

pub broadcast proof fn lemma_views_push(v: Seq<String>, x: String)
    ensures
        #[trigger] views(v.push(x)) == views(v).push(x@),
{
    assert(views(v.push(x)) =~= views(v).push(x@));
}

pub fn clone_texts(v: &Vec<String>) -> (r: Vec<String>)
    ensures
        views(r@) == views(v@),
{
    let mut r: Vec<String> = Vec::new();
    let mut i: usize = 0;
    while i < v.len()
        invariant
            i <= v@.len(),
            r@.len() == i,
            forall|j: int| 0 <= j < i ==> (#[trigger] r@[j])@ == v@[j]@,
        decreases v@.len() - i,
    {
        r.push(v[i].clone());
        i += 1;
    }
    proof {
        assert(views(r@) =~= views(v@));
    }
    r
}

/// A list of one text.
pub fn one_text(s: String) -> (r: Vec<String>)
    ensures
        views(r@) == seq![s@],
{
    let mut r: Vec<String> = Vec::new();
    r.push(s);
    proof {
        assert(views(r@) =~= seq![s@]);
    }
    r
}

pub fn split_text(s: &str, sep: char) -> (r: Vec<String>)
    ensures
        views(r@) == split(s@, sep),
{
    let v = chars_of(s);
    let mut r: Vec<String> = Vec::new();
    let mut start: usize = 0;
    loop
        invariant_except_break
            views(r@) + split_from(v@, sep, start as int) == split(s@, sep),
        invariant
            v@ == s@,
            start <= v@.len(),
        ensures
            views(r@) == split(s@, sep),
        decreases v@.len() - start,
    {
        let end = find_char(&v, sep, start);
        let piece = string_between(&v, start, end);
        let ghost before = views(r@);
        r.push(piece);
        proof {
            assert(views(r@) =~= before.push(piece@));
            assert(before + (seq![piece@] + split_from(v@, sep, end + 1)) =~= before.push(piece@)
                + split_from(v@, sep, end + 1));
            assert(before + seq![piece@] =~= before.push(piece@));
        }
        if end == v.len() {
            break;
        }
        start = end + 1;
    }
    r
}

/// Whether two strings hold the same characters: `==` on `str`.
pub assume_specification[ <str as PartialEq>::eq ](a: &str, b: &str) -> (r: bool)
    ensures
        r == (a@ == b@),
;

pub open spec fn starts_with(s: Seq<char>, p: Seq<char>) -> bool {
    p.len() <= s.len() && s.subrange(0, p.len() as int) == p
}

pub open spec fn ends_with(s: Seq<char>, p: Seq<char>) -> bool {
    p.len() <= s.len() && s.subrange(s.len() - p.len(), s.len() as int) == p
}

/// `p` stands in `s` at position `i`.
pub open spec fn occurs_at(s: Seq<char>, p: Seq<char>, i: int) -> bool {
    0 <= i <= s.len() - p.len() && s.subrange(i, i + p.len()) == p
}

pub open spec fn contains_text(s: Seq<char>, p: Seq<char>) -> bool {
    exists|i: int| occurs_at(s, p, i)
}

/// Whether the characters of `v` from `i` on begin with those of `p`.
fn matches_at(v: &[char], p: &[char], i: usize) -> (r: bool)
    requires
        i <= v@.len(),
    ensures
        r == occurs_at(v@, p@, i as int),
{
    let n: usize = v.len();
    if n - i < p.len() {
        return false;
    }
    let mut k: usize = 0;
    while k < p.len()
        invariant
            n == v@.len(),
            i + p@.len() <= n,
            k <= p@.len(),
            forall|j: int| 0 <= j < k ==> v@[i + j] == p@[j],
        decreases p@.len() - k,
    {
        if v[i + k] != p[k] {
            proof {
                assert(v@.subrange(i as int, i + p@.len())[k as int] != p@[k as int]);
            }
            return false;
        }
        k += 1;
    }
    proof {
        assert(v@.subrange(i as int, i + p@.len()) =~= p@);
    }
    true
}

pub fn contains_str(s: &str, p: &str) -> (r: bool)
    ensures
        r == contains_text(s@, p@),
{
    let v = chars_of(s);
    let q = chars_of(p);
    let mut i: usize = 0;
    while i < v.len()
        invariant
            v@ == s@,
            q@ == p@,
            i <= v@.len(),
            forall|j: int| 0 <= j < i ==> !occurs_at(s@, p@, j),
        decreases v@.len() - i,
    {
        if matches_at(&v, &q, i) {
            return true;
        }
        i += 1;
    }
    matches_at(&v, &q, i)
}

pub fn starts_with_str(s: &str, p: &str) -> (r: bool)
    ensures
        r == starts_with(s@, p@),
{
    matches_at(&chars_of(s), &chars_of(p), 0)
}

pub fn ends_with_str(s: &str, p: &str) -> (r: bool)
    ensures
        r == ends_with(s@, p@),
{
    let v = chars_of(s);
    let q = chars_of(p);
    q.len() <= v.len() && matches_at(&v, &q, v.len() - q.len())
}

/// What follows the prefix `p`, where `s` begins with it.
pub open spec fn after_prefix(s: Seq<char>, p: Seq<char>) -> Option<Seq<char>> {
    if starts_with(s, p) {
        Some(s.subrange(p.len() as int, s.len() as int))
    } else {
        None
    }
}

/// What precedes the suffix `p`, where `s` ends with it.
pub open spec fn before_suffix(s: Seq<char>, p: Seq<char>) -> Option<Seq<char>> {
    if ends_with(s, p) {
        Some(s.subrange(0, s.len() - p.len()))
    } else {
        None
    }
}

/// The view of an optional string.
pub open spec fn opt_view(o: Option<String>) -> Option<Seq<char>> {
    match o {
        Some(x) => Some(x@),
        None => None,
    }
}

pub fn strip_prefix(s: &str, p: &str) -> (r: Option<String>)
    ensures
        opt_view(r) == after_prefix(s@, p@),
{
    let v = chars_of(s);
    let q = chars_of(p);
    if matches_at(&v, &q, 0) {
        Some(string_between(&v, q.len(), v.len()))
    } else {
        None
    }
}

pub fn strip_suffix(s: &str, p: &str) -> (r: Option<String>)
    ensures
        opt_view(r) == before_suffix(s@, p@),
{
    let v = chars_of(s);
    let q = chars_of(p);
    if q.len() <= v.len() && matches_at(&v, &q, v.len() - q.len()) {
        Some(string_between(&v, 0, v.len() - q.len()))
    } else {
        None
    }
}

/// The two sides of the first `c` in `s`.
pub open spec fn split_first(s: Seq<char>, c: char) -> Option<(Seq<char>, Seq<char>)> {
    let i = find_from(s, c, 0);
    if i < s.len() {
        Some((s.subrange(0, i), s.subrange(i + 1, s.len() as int)))
    } else {
        None
    }
}

pub open spec fn pair_view(o: Option<(String, String)>) -> Option<(Seq<char>, Seq<char>)> {
    match o {
        Some((a, b)) => Some((a@, b@)),
        None => None,
    }
}

pub fn split_once(s: &str, c: char) -> (r: Option<(String, String)>)
    ensures
        pair_view(r) == split_first(s@, c),
{
    let v = chars_of(s);
    let i = find_char(&v, c, 0);
    if i < v.len() {
        Some((string_between(&v, 0, i), string_between(&v, i + 1, v.len())))
    } else {
        None
    }
}

/// The last position below `end` where `c` stands in `s`; -1 where there is
/// none.
pub open spec fn find_back(s: Seq<char>, c: char, end: int) -> int
    decreases end,
{
    if end <= 0 {
        -1
    } else if s[end - 1] == c {
        end - 1
    } else {
        find_back(s, c, end - 1)
    }
}

pub proof fn lemma_find_back(s: Seq<char>, c: char, end: int)
    requires
        0 <= end <= s.len(),
    ensures
        -1 <= find_back(s, c, end) < end,
        forall|j: int| find_back(s, c, end) < j < end ==> s[j] != c,
        find_back(s, c, end) >= 0 ==> s[find_back(s, c, end)] == c,
    decreases end,
{
    if end > 0 && s[end - 1] != c {
        lemma_find_back(s, c, end - 1);
    }
}

/// The two sides of the last `c` in `s`.
pub open spec fn split_last(s: Seq<char>, c: char) -> Option<(Seq<char>, Seq<char>)> {
    let i = find_back(s, c, s.len() as int);
    if i >= 0 {
        Some((s.subrange(0, i), s.subrange(i + 1, s.len() as int)))
    } else {
        None
    }
}

pub fn rsplit_once(s: &str, c: char) -> (r: Option<(String, String)>)
    ensures
        pair_view(r) == split_last(s@, c),
{
    let v = chars_of(s);
    let mut end: usize = v.len();
    while end > 0
        invariant
            v@ == s@,
            end <= v@.len(),
            find_back(s@, c, end as int) == find_back(s@, c, s@.len() as int),
        decreases end,
    {
        if v[end - 1] == c {
            return Some((string_between(&v, 0, end - 1), string_between(&v, end, v.len())));
        }
        end -= 1;
    }
    None
}

/// The last position before `end` at which `p` stands in `s`, or -1 where there is
/// none.
pub open spec fn find_text_back(s: Seq<char>, p: Seq<char>, end: int) -> int
    decreases end,
{
    if end <= 0 {
        -1
    } else if occurs_at(s, p, end - 1) {
        end - 1
    } else {
        find_text_back(s, p, end - 1)
    }
}

/// The two sides of the last `p` in `s`.
pub open spec fn split_last_text(s: Seq<char>, p: Seq<char>) -> Option<(Seq<char>, Seq<char>)> {
    let i = find_text_back(s, p, s.len() as int + 1);
    if i >= 0 {
        Some((s.subrange(0, i), s.subrange(i + p.len(), s.len() as int)))
    } else {
        None
    }
}

pub fn rsplit_once_text(s: &str, p: &str) -> (r: Option<(String, String)>)
    ensures
        pair_view(r) == split_last_text(s@, p@),
{
    let v = chars_of(s);
    let q = chars_of(p);
    let n: usize = v.len();
    let mut i: usize = n;
    loop
        invariant
            n == v@.len(),
            v@ == s@,
            q@ == p@,
            i <= v@.len(),
            find_text_back(s@, p@, i + 1) == find_text_back(s@, p@, s@.len() as int + 1),
        decreases i,
    {
        if matches_at(&v, &q, i) {
            return Some((string_between(&v, 0, i), string_between(&v, i + q.len(), n)));
        }
        if i == 0 {
            proof {
                assert(find_text_back(s@, p@, 0) == -1);
            }
            return None;
        }
        i -= 1;
    }
}

pub fn contains_char(s: &str, c: char) -> (r: bool)
    ensures
        r == s@.contains(c),
{
    let v = chars_of(s);
    let i = find_char(&v, c, 0);
    proof {
        lemma_find_from(v@, c, 0);
    }
    i < v.len()
}

/// The characters with the Unicode property `White_Space`.
pub open spec fn is_white(c: char) -> bool {
    let n = c as int;
    ||| 9 <= n <= 13
    ||| n == 32
    ||| n == 0x85
    ||| n == 0xa0
    ||| n == 0x1680
    ||| 0x2000 <= n <= 0x200a
    ||| n == 0x2028
    ||| n == 0x2029
    ||| n == 0x202f
    ||| n == 0x205f
    ||| n == 0x3000
}

pub fn white(c: char) -> (r: bool)
    ensures
        r == is_white(c),
{
    let n: u32 = c as u32;
    (9 <= n && n <= 13) || n == 32 || n == 0x85 || n == 0xa0 || n == 0x1680 || (0x2000 <= n && n
        <= 0x200a) || n == 0x2028 || n == 0x2029 || n == 0x202f || n == 0x205f || n == 0x3000
}

/// The first position at or after `i` whose character `p` does not accept.
pub open spec fn skip_from(s: Seq<char>, p: spec_fn(char) -> bool, i: int) -> int
    decreases s.len() - i,
{
    if i < s.len() && p(s[i]) {
        skip_from(s, p, i + 1)
    } else {
        i
    }
}

/// The smallest end at or above `lo` such that `p` accepts every character
/// from there up to `end`.
pub open spec fn skip_back(s: Seq<char>, p: spec_fn(char) -> bool, lo: int, end: int) -> int
    decreases end - lo,
{
    if lo < end && p(s[end - 1]) {
        skip_back(s, p, lo, end - 1)
    } else {
        end
    }
}

/// `s` without the characters at its two ends that `p` accepts.
pub open spec fn trim_by(s: Seq<char>, p: spec_fn(char) -> bool) -> Seq<char> {
    let a = skip_from(s, p, 0);
    s.subrange(a, skip_back(s, p, a, s.len() as int))
}

/// `s` without the characters at its end that `p` accepts.
pub open spec fn trim_end_by(s: Seq<char>, p: spec_fn(char) -> bool) -> Seq<char> {
    s.subrange(0, skip_back(s, p, 0, s.len() as int))
}

pub open spec fn white_fn() -> spec_fn(char) -> bool {
    |c: char| is_white(c)
}

pub open spec fn char_fn(c: char) -> spec_fn(char) -> bool {
    |x: char| x == c
}

pub open spec fn trim_text(s: Seq<char>) -> Seq<char> {
    trim_by(s, white_fn())
}

pub proof fn lemma_skip_from(s: Seq<char>, p: spec_fn(char) -> bool, i: int)
    requires
        0 <= i <= s.len(),
    ensures
        i <= skip_from(s, p, i) <= s.len(),
        skip_from(s, p, i) < s.len() ==> !p(s[skip_from(s, p, i)]),
    decreases s.len() - i,
{
    if i < s.len() && p(s[i]) {
        lemma_skip_from(s, p, i + 1);
    }
}

pub proof fn lemma_skip_back(s: Seq<char>, p: spec_fn(char) -> bool, lo: int, end: int)
    requires
        0 <= lo <= end <= s.len(),
    ensures
        lo <= skip_back(s, p, lo, end) <= end,
        lo < skip_back(s, p, lo, end) ==> !p(s[skip_back(s, p, lo, end) - 1]),
    decreases end - lo,
{
    if lo < end && p(s[end - 1]) {
        lemma_skip_back(s, p, lo, end - 1);
    }
}

/// A trimmed text has nothing left to trim at either end.
pub proof fn lemma_trim_by(s: Seq<char>, p: spec_fn(char) -> bool)
    ensures
        trim_by(s, p).len() > 0 ==> !p(trim_by(s, p)[0]) && !p(trim_by(s, p).last()),
{
    lemma_skip_from(s, p, 0);
    lemma_skip_back(s, p, skip_from(s, p, 0), s.len() as int);
}

pub fn trim(s: &str) -> (r: String)
    ensures
        r@ == trim_text(s@),
{
    let v = chars_of(s);
    let mut a: usize = 0;
    while a < v.len() && white(v[a])
        invariant
            a <= v@.len(),
            skip_from(v@, white_fn(), a as int) == skip_from(v@, white_fn(), 0),
        decreases v@.len() - a,
    {
        a += 1;
    }
    let mut b: usize = v.len();
    while a < b && white(v[b - 1])
        invariant
            a <= b <= v@.len(),
            skip_back(v@, white_fn(), a as int, b as int) == skip_back(
                v@,
                white_fn(),
                a as int,
                v@.len() as int,
            ),
        decreases b,
    {
        b -= 1;
    }
    string_between(&v, a, b)
}

pub fn trim_char(s: &str, c: char) -> (r: String)
    ensures
        r@ == trim_by(s@, char_fn(c)),
{
    let v = chars_of(s);
    let mut a: usize = 0;
    while a < v.len() && v[a] == c
        invariant
            a <= v@.len(),
            skip_from(v@, char_fn(c), a as int) == skip_from(v@, char_fn(c), 0),
        decreases v@.len() - a,
    {
        a += 1;
    }
    let mut b: usize = v.len();
    while a < b && v[b - 1] == c
        invariant
            a <= b <= v@.len(),
            skip_back(v@, char_fn(c), a as int, b as int) == skip_back(
                v@,
                char_fn(c),
                a as int,
                v@.len() as int,
            ),
        decreases b,
    {
        b -= 1;
    }
    string_between(&v, a, b)
}

/// `s` without the characters at its beginning that `p` accepts.
pub open spec fn trim_start_by(s: Seq<char>, p: spec_fn(char) -> bool) -> Seq<char> {
    s.subrange(skip_from(s, p, 0), s.len() as int)
}

pub fn trim_start_char(s: &str, c: char) -> (r: String)
    ensures
        r@ == trim_start_by(s@, char_fn(c)),
{
    let v = chars_of(s);
    let mut a: usize = 0;
    while a < v.len() && v[a] == c
        invariant
            a <= v@.len(),
            skip_from(v@, char_fn(c), a as int) == skip_from(v@, char_fn(c), 0),
        decreases v@.len() - a,
    {
        a += 1;
    }
    string_between(&v, a, v.len())
}

pub fn trim_end_char(s: &str, c: char) -> (r: String)
    ensures
        r@ == trim_end_by(s@, char_fn(c)),
{
    let v = chars_of(s);
    let mut b: usize = v.len();
    while 0 < b && v[b - 1] == c
        invariant
            b <= v@.len(),
            skip_back(v@, char_fn(c), 0, b as int) == skip_back(
                v@,
                char_fn(c),
                0,
                v@.len() as int,
            ),
        decreases b,
    {
        b -= 1;
    }
    string_between(&v, 0, b)
}

/// The ASCII lowercase letter of an ASCII uppercase one; any other character
/// itself.
pub open spec fn lower_char(c: char) -> char {
    if 'A' <= c && c <= 'Z' {
        (c as u32 + 32) as char
    } else {
        c
    }
}

pub open spec fn lower(s: Seq<char>) -> Seq<char> {
    s.map_values(|c: char| lower_char(c))
}

fn ascii_lower(c: char) -> (r: char)
    ensures
        r == lower_char(c),
{
    if 'A' <= c && c <= 'Z' {
        let n: u8 = c as u8;
        (n + 32) as char
    } else {
        c
    }
}

pub fn lowercase(s: &str) -> (r: String)
    ensures
        r@ == lower(s@),
{
    let v = chars_of(s);
    let mut r = String::new();
    let mut i: usize = 0;
    while i < v.len()
        invariant
            v@ == s@,
            i <= v@.len(),
            r@ == lower(s@.take(i as int)),
        decreases v@.len() - i,
    {
        r.push(ascii_lower(v[i]));
        i += 1;
        proof {
            assert(lower(s@.take(i as int)) =~= lower(s@.take(i - 1)).push(lower_char(s@[i - 1])));
        }
    }
    proof {
        assert(s@.take(i as int) =~= s@);
    }
    r
}

pub open spec fn digit(d: nat) -> char {
    (48 + d) as char
}

/// The decimal numeral of `n`.
pub open spec fn decimal(n: nat) -> Seq<char>
    decreases n,
{
    if n < 10 {
        seq![digit(n)]
    } else {
        decimal(n / 10).push(digit(n % 10))
    }
}

pub fn decimal_text(n: u128) -> (r: String)
    ensures
        r@ == decimal(n as nat),
    decreases n,
{
    let d: u8 = (n % 10) as u8;
    let mut r = if n < 10 {
        String::new()
    } else {
        decimal_text(n / 10)
    };
    r.push((48 + d) as char);
    r
}

/// `parts` one behind the other, with `sep` between them.
pub open spec fn join_texts(parts: Seq<Seq<char>>, sep: Seq<char>) -> Seq<char>
    decreases parts.len(),
{
    if parts.len() == 0 {
        seq![]
    } else if parts.len() == 1 {
        parts[0]
    } else {
        join_texts(parts.drop_last(), sep) + sep + parts.last()
    }
}

pub fn join_with(parts: &Vec<String>, sep: &str) -> (r: String)
    ensures
        r@ == join_texts(views(parts@), sep@),
{
    let mut r = String::new();
    let mut i: usize = 0;
    while i < parts.len()
        invariant
            i <= parts@.len(),
            r@ == join_texts(views(parts@).take(i as int), sep@),
        decreases parts@.len() - i,
    {
        let ghost before = r@;
        if i > 0 {
            r.append(sep);
        }
        r.append(&parts[i]);
        i += 1;
        proof {
            assert(views(parts@).take(i as int).drop_last() =~= views(parts@).take(i - 1));
            if i == 1 {
                assert(before + parts@[0]@ =~= parts@[0]@);
            }
        }
    }
    proof {
        assert(views(parts@).take(i as int) =~= views(parts@));
    }
    r
}

/// Whether `v` holds the text `s`.
pub fn contains_item(v: &Vec<String>, s: &str) -> (r: bool)
    ensures
        r == views(v@).contains(s@),
{
    let mut i: usize = 0;
    while i < v.len()
        invariant
            i <= v@.len(),
            forall|j: int| 0 <= j < i ==> #[trigger] views(v@)[j] != s@,
        decreases v@.len() - i,
    {
        proof {
            assert(views(v@)[i as int] == v@[i as int]@);
        }
        if v[i].as_str().eq(s) {
            return true;
        }
        i += 1;
    }
    false
}

/// `line` without the carriage return that ends it.
pub open spec fn without_return(line: Seq<char>) -> Seq<char> {
    if line.len() > 0 && line.last() == '\r' {
        line.drop_last()
    } else {
        line
    }
}

/// The lines of `s`: each ends with a newline, which a carriage return may
/// precede, or with the text. Behind the last newline is no line where nothing
/// stands there.
pub open spec fn lines(s: Seq<char>) -> Seq<Seq<char>>
    decreases s.len(),
{
    let end = find_from(s, '\n', 0);
    if s.len() == 0 {
        seq![]
    } else if end < 0 || end >= s.len() {
        seq![s]
    } else {
        seq![without_return(s.subrange(0, end))] + lines(s.skip(end + 1))
    }
}

pub proof fn lemma_find_from_skip(s: Seq<char>, c: char, start: int, i: int)
    requires
        0 <= start <= i <= s.len(),
    ensures
        find_from(s.skip(start), c, i - start) == find_from(s, c, i) - start,
    decreases s.len() - i,
{
    if i < s.len() {
        assert(s.skip(start)[i - start] == s[i]);
        if s[i] != c {
            lemma_find_from_skip(s, c, start, i + 1);
        }
    }
}

pub fn lines_of(s: &str) -> (r: Vec<String>)
    ensures
        views(r@) == lines(s@),
{
    broadcast use lemma_views_push;

    let v = chars_of(s);
    let n: usize = v.len();
    let mut r: Vec<String> = Vec::new();
    let mut start: usize = 0;
    proof {
        assert(v@.skip(0) =~= v@);
        assert(views(r@) + lines(v@.skip(0)) =~= lines(s@));
    }
    while start < n
        invariant
            v@ == s@,
            n == v@.len(),
            start <= n,
            views(r@) + lines(v@.skip(start as int)) == lines(s@),
        decreases n - start,
    {
        let end = find_char(&v, '\n', start);
        let ghost rest = v@.skip(start as int);
        let ghost before = views(r@);
        proof {
            lemma_find_from_skip(v@, '\n', start as int, start as int);
        }
        if end == n {
            r.push(string_between(&v, start, n));
            start = n;
            proof {
                assert(v@.subrange(start as int, n as int) =~= Seq::<char>::empty());
                assert(rest =~= v@.subrange(v@.len() - rest.len(), n as int));
                assert(lines(v@.skip(n as int)) =~= seq![]);
                assert(views(r@) + lines(v@.skip(n as int)) =~= before + seq![rest]);
            }
        } else {
            let cut: usize = if end > start && v[end - 1] == '\r' {
                end - 1
            } else {
                end
            };
            r.push(string_between(&v, start, cut));
            proof {
                assert(rest.subrange(0, end - start) =~= v@.subrange(start as int, end as int));
                assert(without_return(rest.subrange(0, end - start)) =~= v@.subrange(
                    start as int,
                    cut as int,
                ));
                assert(rest.skip(end - start + 1) =~= v@.skip(end + 1));
                assert(views(r@) + lines(v@.skip(end + 1)) =~= before + (seq![
                    v@.subrange(start as int, cut as int),
                ] + lines(v@.skip(end + 1))));
            }
            start = end + 1;
        }
    }
    proof {
        assert(lines(v@.skip(start as int)) =~= seq![]);
        assert(views(r@) + lines(v@.skip(start as int)) =~= views(r@));
    }
    r
}

pub open spec fn word_fn() -> spec_fn(char) -> bool {
    |c: char| !is_white(c)
}

/// The words of `s` from `i` on: the runs of characters that are not white
/// space.
pub open spec fn words_from(s: Seq<char>, i: int) -> Seq<Seq<char>>
    decreases s.len() - i,
{
    let a = skip_from(s, white_fn(), i);
    let b = skip_from(s, word_fn(), a);
    if i < 0 || a < i || a >= s.len() || b <= a || b > s.len() {
        seq![]
    } else {
        seq![s.subrange(a, b)] + words_from(s, b)
    }
}

pub open spec fn words(s: Seq<char>) -> Seq<Seq<char>> {
    words_from(s, 0)
}

pub fn words_of(s: &str) -> (r: Vec<String>)
    ensures
        views(r@) == words(s@),
{
    broadcast use lemma_views_push;

    let v = chars_of(s);
    let n: usize = v.len();
    let mut r: Vec<String> = Vec::new();
    let mut i: usize = 0;
    proof {
        assert(views(r@) + words_from(v@, 0) =~= words(s@));
    }
    loop
        invariant_except_break
            views(r@) + words_from(v@, i as int) == words(s@),
        invariant
            v@ == s@,
            n == v@.len(),
            i <= n,
        ensures
            views(r@) == words(s@),
        decreases n - i,
    {
        let mut a: usize = i;
        while a < n && white(v[a])
            invariant
                n == v@.len(),
                i <= a <= n,
                skip_from(v@, white_fn(), a as int) == skip_from(v@, white_fn(), i as int),
            decreases n - a,
        {
            a += 1;
        }
        let mut b: usize = a;
        while b < n && !white(v[b])
            invariant
                n == v@.len(),
                a <= b <= n,
                skip_from(v@, word_fn(), b as int) == skip_from(v@, word_fn(), a as int),
            decreases n - b,
        {
            b += 1;
        }
        if a == n {
            proof {
                assert(views(r@) + words_from(v@, i as int) =~= views(r@));
            }
            break ;
        }
        let ghost before = views(r@);
        r.push(string_between(&v, a, b));
        proof {
            assert(skip_from(v@, white_fn(), i as int) == a);
            assert(skip_from(v@, word_fn(), a as int) == b);
            assert(!is_white(v@[a as int]));
            assert(b > a);
            assert(views(r@) + words_from(v@, b as int) =~= before + (seq![
                v@.subrange(a as int, b as int),
            ] + words_from(v@, b as int)));
        }
        i = b;
    }
    r
}

/// The decimal numeral of `n`, behind a minus sign where it is negative.
pub open spec fn integer(n: int) -> Seq<char> {
    if n < 0 {
        "-"@ + decimal((-n) as nat)
    } else {
        decimal(n as nat)
    }
}

pub fn integer_text(n: i64) -> (r: String)
    ensures
        r@ == integer(n as int),
{
    if n < 0 {
        let mut r = "-".to_owned();
        r.append(&decimal_text((-(n as i128)) as u128));
        r
    } else {
        decimal_text(n as u128)
    }
}

pub open spec fn is_digit(c: char) -> bool {
    '0' <= c && c <= '9'
}

/// The number that a row of digits stands for.
pub open spec fn digits_value(s: Seq<char>) -> nat
    decreases s.len(),
{
    if s.len() == 0 {
        0
    } else {
        digits_value(s.drop_last()) * 10 + (s.last() as int - 48) as nat
    }
}

pub open spec fn all_digits(s: Seq<char>) -> bool {
    forall|i: int| 0 <= i < s.len() ==> is_digit(#[trigger] s[i])
}

/// `s` without the `+` that something follows.
pub open spec fn without_plus(s: Seq<char>) -> Seq<char> {
    if s.len() > 1 && s[0] == '+' {
        s.subrange(1, s.len() as int)
    } else {
        s
    }
}

/// The number that `s` is written as, at most `max`: digits, behind one `+` or
/// none.
pub open spec fn parsed_number(s: Seq<char>, max: nat) -> Option<nat> {
    let d = without_plus(s);
    if d.len() > 0 && all_digits(d) && digits_value(d) <= max {
        Some(digits_value(d))
    } else {
        None
    }
}

pub proof fn lemma_digits_value_grows(s: Seq<char>, k: int)
    requires
        0 <= k <= s.len(),
        all_digits(s),
    ensures
        digits_value(s.take(k)) <= digits_value(s),
    decreases s.len(),
{
    if k < s.len() {
        lemma_digits_value_grows(s.drop_last(), k);
        assert(s.drop_last().take(k) =~= s.take(k));
    } else {
        assert(s.take(k) =~= s);
    }
}

pub fn parse_number(s: &str, max: u64) -> (r: Option<u64>)
    ensures
        r matches Some(n) ==> parsed_number(s@, max as nat) == Some(n as nat),
        r is None ==> parsed_number(s@, max as nat) is None,
{
    let v = chars_of(s);
    let start: usize = if v.len() > 1 && v[0] == '+' {
        1
    } else {
        0
    };
    let ghost d = without_plus(s@);
    proof {
        assert(d =~= v@.subrange(start as int, v@.len() as int));
    }
    if start == v.len() {
        return None;
    }
    let mut n: u64 = 0;
    let mut i: usize = start;
    while i < v.len()
        invariant
            v@ == s@,
            start <= i <= v@.len(),
            d == v@.subrange(start as int, v@.len() as int),
            d.len() > 0,
            d == without_plus(s@),
            forall|j: int| 0 <= j < i - start ==> is_digit(#[trigger] d[j]),
            n == digits_value(d.take(i - start)),
            n <= max,
        decreases v@.len() - i,
    {
        let c = v[i];
        proof {
            assert(d[i - start] == c);
        }
        if !('0' <= c && c <= '9') {
            return None;
        }
        let digit: u64 = (c as u32 - 48) as u64;
        proof {
            assert(d.take(i - start + 1).drop_last() =~= d.take(i - start));
            assert(digits_value(d.take(i - start + 1)) == n * 10 + digit);
            if all_digits(d) {
                lemma_digits_value_grows(d, i - start + 1);
            }
        }
        let next: u128 = n as u128 * 10 + digit as u128;
        if next > max as u128 {
            return None;
        }
        n = next as u64;
        i += 1;
    }
    proof {
        assert(d.take(i - start) =~= d);
    }
    Some(n)
}

/// A numeral reads back as the number it was made of.
pub proof fn lemma_decimal_reads_back(n: nat, max: nat)
    requires
        n <= max,
    ensures
        parsed_number(decimal(n), max) == Some(n),
        decimal(n).len() > 0,
        all_digits(decimal(n)),
        digits_value(decimal(n)) == n,
    decreases n,
{
    if n >= 10 {
        lemma_decimal_reads_back(n / 10, max);
        assert(decimal(n).drop_last() =~= decimal(n / 10));
    } else {
        assert(decimal(n).drop_last() =~= seq![]);
        assert(digits_value(seq![]) == 0);
    }
    assert(is_digit(decimal(n)[0]));
}

/// Where one value stands to another in an order.
#[derive(Debug, Clone, Copy, PartialEq, Eq, Structural)]
pub enum Rank {
    Before,
    Same,
    After,
}

/// `a` comes before `b` from position `i` on, where they agree up to there.
pub open spec fn less_from(a: Seq<char>, b: Seq<char>, i: int) -> bool
    decreases b.len() - i,
{
    if i >= b.len() {
        false
    } else if i >= a.len() {
        true
    } else if a[i] != b[i] {
        a[i] < b[i]
    } else {
        less_from(a, b, i + 1)
    }
}

/// The order of texts: by the first character in which they differ; a text
/// comes after each of its beginnings.
pub open spec fn text_less(a: Seq<char>, b: Seq<char>) -> bool {
    less_from(a, b, 0)
}

/// How `a` stands to `b`.
pub open spec fn text_rank(a: Seq<char>, b: Seq<char>) -> Rank {
    if a == b {
        Rank::Same
    } else if text_less(a, b) {
        Rank::Before
    } else {
        Rank::After
    }
}

pub fn rank_texts(a: &str, b: &str) -> (r: Rank)
    ensures
        r == text_rank(a@, b@),
{
    let x = chars_of(a);
    let y = chars_of(b);
    let mut i: usize = 0;
    while i < x.len() && i < y.len()
        invariant
            x@ == a@,
            y@ == b@,
            i <= x@.len(),
            i <= y@.len(),
            forall|j: int| 0 <= j < i ==> x@[j] == y@[j],
            less_from(a@, b@, i as int) == text_less(a@, b@),
        decreases x@.len() - i,
    {
        if x[i] != y[i] {
            return if x[i] < y[i] {
                Rank::Before
            } else {
                Rank::After
            };
        }
        i += 1;
    }
    if i < y.len() {
        Rank::Before
    } else if i < x.len() {
        Rank::After
    } else {
        proof {
            assert(a@ =~= b@);
        }
        Rank::Same
    }
}

pub proof fn lemma_less_from_total(a: Seq<char>, b: Seq<char>, i: int)
    requires
        0 <= i <= a.len(),
        i <= b.len(),
        forall|j: int| 0 <= j < i ==> a[j] == b[j],
    ensures
        a == b || less_from(a, b, i) || less_from(b, a, i),
        !(less_from(a, b, i) && less_from(b, a, i)),
        a == b ==> !less_from(a, b, i),
    decreases b.len() - i,
{
    if i < a.len() && i < b.len() && a[i] == b[i] {
        lemma_less_from_total(a, b, i + 1);
    } else if i >= a.len() && i >= b.len() {
        assert(a =~= b);
    }
}

pub proof fn lemma_less_from_trans(a: Seq<char>, b: Seq<char>, c: Seq<char>, i: int)
    requires
        0 <= i,
        less_from(a, b, i),
        less_from(b, c, i),
    ensures
        less_from(a, c, i),
    decreases c.len() - i,
{
    if i < a.len() && i < b.len() && i < c.len() && a[i] == b[i] && b[i] == c[i] {
        lemma_less_from_trans(a, b, c, i + 1);
    }
}

/// The Debug form of a text: in quotes, with escapes.
pub uninterp spec fn debug_text(s: Seq<char>) -> Seq<char>;

/// `format!("{:?}")` of a `str`. Which characters std escapes and how is left
/// to its documentation; the result depends on the text alone.
#[verifier::external_body]
pub(crate) fn debug_of(s: &str) -> (r: String)
    ensures
        r@ == debug_text(s@),
{
    format!("{s:?}")
}

/// The texts of a list that is written out.
pub fn owned(parts: &[&str]) -> (r: Vec<String>)
    ensures
        views(r@) == str_views(parts@),
{
    let mut r: Vec<String> = Vec::new();
    let mut i: usize = 0;
    while i < parts.len()
        invariant
            i <= parts@.len(),
            views(r@) =~= str_views(parts@).take(i as int),
        decreases parts@.len() - i,
    {
        broadcast use lemma_views_push;

        r.push(parts[i].to_owned());
        i += 1;
        proof {
            assert(str_views(parts@).take(i as int) =~= str_views(parts@).take(i - 1).push(
                parts@[i - 1]@,
            ));
        }
    }
    proof {
        assert(str_views(parts@).take(i as int) =~= str_views(parts@));
    }
    r
}

pub open spec fn str_views(parts: Seq<&str>) -> Seq<Seq<char>> {
    parts.map_values(|part: &str| part@)
}

} // verus!
