//! What holds of every text that is trimmed, split, compared or read as a number.
use crate::text::{
    decimal, find_back, find_from, integer, is_white, lemma_decimal_reads_back, lemma_find_back,
    lemma_find_from, lemma_less_from_total, less_from, lines, lower, parsed_number, skip_back,
    skip_from, split_first, split_last, text_less, trim_text, white_fn,
};
use vstd::prelude::*;

verus! {

pub open spec fn all_white(s: Seq<char>) -> bool {
    forall|i: int| 0 <= i < s.len() ==> is_white(#[trigger] s[i])
}

pub proof fn lemma_skipped(s: Seq<char>, p: spec_fn(char) -> bool, i: int)
    requires
        0 <= i <= s.len(),
    ensures
        i <= skip_from(s, p, i) <= s.len(),
        forall|k: int| i <= k < skip_from(s, p, i) ==> p(#[trigger] s[k]),
        skip_from(s, p, i) < s.len() ==> !p(s[skip_from(s, p, i)]),
    decreases s.len() - i,
{
    if i < s.len() && p(s[i]) {
        lemma_skipped(s, p, i + 1);
    }
}

pub proof fn lemma_skipped_back(s: Seq<char>, p: spec_fn(char) -> bool, lo: int, end: int)
    requires
        0 <= lo <= end <= s.len(),
    ensures
        lo <= skip_back(s, p, lo, end) <= end,
        forall|k: int| skip_back(s, p, lo, end) <= k < end ==> p(#[trigger] s[k]),
        lo < skip_back(s, p, lo, end) ==> !p(s[skip_back(s, p, lo, end) - 1]),
    decreases end - lo,
{
    if lo < end && p(s[end - 1]) {
        lemma_skipped_back(s, p, lo, end - 1);
    }
}

/// White space is the tab, the line ends, the blank and the other blanks that Unicode
/// has.
pub proof fn white_space_is_blank(c: char)
    ensures
        is_white(c) <==> c == '\t' || c == '\n' || c == '\u{b}' || c == '\u{c}' || c == '\r' || c
            == ' ' || c == '\u{85}' || c == '\u{a0}' || c == '\u{1680}' || ('\u{2000}' <= c && c
            <= '\u{200a}') || c == '\u{2028}' || c == '\u{2029}' || c == '\u{202f}' || c
            == '\u{205f}' || c == '\u{3000}',
{
}

/// Trimming takes the white space at both ends and nothing else: what is left begins
/// and ends with another character, and white space stood around it.
pub proof fn trimming_takes_white_space(s: Seq<char>)
    ensures
        exists|head: Seq<char>, tail: Seq<char>| #[trigger]
            (head + trim_text(s) + tail) == s && all_white(head) && all_white(tail),
        trim_text(s).len() > 0 ==> !is_white(trim_text(s)[0]) && !is_white(trim_text(s).last()),
{
    let p = white_fn();
    let n = s.len() as int;
    lemma_skipped(s, p, 0);
    let a = skip_from(s, p, 0);
    lemma_skipped_back(s, p, a, n);
    let b = skip_back(s, p, a, n);
    let head = s.subrange(0, a);
    let tail = s.subrange(b, n);
    assert(head + trim_text(s) + tail =~= s);
    assert(all_white(head)) by {
        assert forall|i: int| 0 <= i < head.len() implies is_white(#[trigger] head[i]) by {
            assert(p(s[i]));
        }
    }
    assert(all_white(tail)) by {
        assert forall|i: int| 0 <= i < tail.len() implies is_white(#[trigger] tail[i]) by {
            assert(p(s[b + i]));
        }
    }
}

/// A text that begins and ends with no white space is trimmed already.
pub proof fn trimmed_texts_stay(s: Seq<char>)
    requires
        s.len() > 0 ==> !is_white(s[0]) && !is_white(s.last()),
    ensures
        trim_text(s) == s,
{
    let p = white_fn();
    lemma_skipped(s, p, 0);
    let a = skip_from(s, p, 0);
    lemma_skipped_back(s, p, a, s.len() as int);
    if s.len() > 0 {
        if a > 0 {
            assert(p(s[0]));
        }
        let b = skip_back(s, p, a, s.len() as int);
        if b < s.len() {
            assert(p(s[s.len() - 1]));
        }
    }
    assert(trim_text(s) =~= s);
}

/// A text is split at its first separator.
pub proof fn the_first_separator_splits(a: Seq<char>, c: char, b: Seq<char>)
    requires
        !a.contains(c),
    ensures
        split_first(a.push(c) + b, c) == Some((a, b)),
{
    let s = a.push(c) + b;
    lemma_find_from(s, c, 0);
    let i = find_from(s, c, 0);
    assert(s[a.len() as int] == c);
    if i < a.len() {
        assert(a[i] == s[i]);
    }
    assert(s.subrange(0, i) =~= a);
    assert(s.subrange(i + 1, s.len() as int) =~= b);
}

/// A text is split at its last separator.
pub proof fn the_last_separator_splits(a: Seq<char>, c: char, b: Seq<char>)
    requires
        !b.contains(c),
    ensures
        split_last(a.push(c) + b, c) == Some((a, b)),
{
    let s = a.push(c) + b;
    lemma_find_back(s, c, s.len() as int);
    let i = find_back(s, c, s.len() as int);
    assert(s[a.len() as int] == c);
    if i > a.len() {
        assert(b[i - a.len() - 1] == s[i]);
    }
    assert(s.subrange(0, i) =~= a);
    assert(s.subrange(i + 1, s.len() as int) =~= b);
}

/// Where there is no separator nothing is split, and what is split is put together
/// with the separator again.
pub proof fn split_texts_join_again(s: Seq<char>, c: char)
    ensures
        split_first(s, c) is Some <==> s.contains(c),
        split_last(s, c) is Some <==> s.contains(c),
        split_first(s, c) matches Some((a, b)) ==> a.push(c) + b == s && !a.contains(c),
        split_last(s, c) matches Some((a, b)) ==> a.push(c) + b == s && !b.contains(c),
{
    lemma_find_from(s, c, 0);
    lemma_find_back(s, c, s.len() as int);
    if s.contains(c) {
        let k = choose|k: int| 0 <= k < s.len() && s[k] == c;
        assert(s[k] == c);
    }
    if let Some((a, b)) = split_first(s, c) {
        assert(a.push(c) + b =~= s);
        if a.contains(c) {
            let k = choose|k: int| 0 <= k < a.len() && a[k] == c;
            assert(s[k] == c);
        }
    }
    if let Some((a, b)) = split_last(s, c) {
        assert(a.push(c) + b =~= s);
        if b.contains(c) {
            let k = choose|k: int| 0 <= k < b.len() && b[k] == c;
            assert(s[k + a.len() + 1] == c);
        }
    }
}

proof fn lemma_less_at(a: Seq<char>, b: Seq<char>, i: int, k: int)
    requires
        0 <= i <= k,
        k <= a.len(),
        k < b.len(),
        forall|j: int| i <= j < k ==> a[j] == b[j],
        k < a.len() ==> a[k] != b[k],
    ensures
        less_from(a, b, i) <==> k == a.len() || a[k] < b[k],
    decreases k - i,
{
    if i < k {
        lemma_less_at(a, b, i + 1, k);
    }
}

/// Texts are ordered by the first character in which they differ.
pub proof fn the_first_difference_decides(head: Seq<char>, c: char, d: char, a: Seq<char>, b: Seq<char>)
    requires
        c < d,
    ensures
        text_less(head.push(c) + a, head.push(d) + b),
        !text_less(head.push(d) + b, head.push(c) + a),
{
    let x = head.push(c) + a;
    let y = head.push(d) + b;
    let k = head.len() as int;
    assert forall|j: int| 0 <= j < k implies x[j] == y[j] by {}
    lemma_less_at(x, y, 0, k);
    lemma_less_at(y, x, 0, k);
}

/// A text comes before every longer one that begins with it, and not before itself.
pub proof fn beginnings_come_first(head: Seq<char>, c: char, tail: Seq<char>)
    ensures
        text_less(head, head.push(c) + tail),
        !text_less(head.push(c) + tail, head),
        !text_less(head, head),
{
    let y = head.push(c) + tail;
    assert forall|j: int| 0 <= j < head.len() implies head[j] == y[j] by {}
    lemma_less_at(head, y, 0, head.len() as int);
    lemma_less_from_total(head, y, 0);
    lemma_less_from_total(head, head, 0);
}

/// A number is read back from its numeral, unless it is too large, and a text with
/// anything but digits in it is no number.
pub proof fn numerals_are_read_back(n: nat, max: nat, s: Seq<char>)
    ensures
        n <= max ==> parsed_number(decimal(n), max) == Some(n),
        n > max ==> parsed_number(decimal(n), max) is None,
        (exists|i: int| 0 < i < s.len() && !('0' <= #[trigger] s[i] && s[i] <= '9'))
            ==> parsed_number(s, max) is None,
        s.len() == 0 ==> parsed_number(s, max) is None,
        parsed_number(s, max) matches Some(v) ==> v <= max,
        n > 0 ==> integer(-(n as int)) == seq!['-'] + integer(n as int),
{
    lemma_decimal_reads_back(n, n);
    if n > max {
        assert(crate::text::without_plus(decimal(n)) == decimal(n)) by {
            assert(crate::text::is_digit(decimal(n)[0]));
        }
    }
    if exists|i: int| 0 < i < s.len() && !('0' <= #[trigger] s[i] && s[i] <= '9') {
        let i = choose|i: int| 0 < i < s.len() && !('0' <= #[trigger] s[i] && s[i] <= '9');
        let d = crate::text::without_plus(s);
        if d.len() < s.len() {
            assert(d[i - 1] == s[i]);
        }
    }
    reveal_strlit("-");
    assert("-"@ =~= seq!['-']);
}

/// Lower case keeps the length and what is no capital letter, and lowering twice is
/// lowering once.
pub proof fn lower_case_is_idempotent(s: Seq<char>)
    ensures
        lower(s).len() == s.len(),
        lower(lower(s)) == lower(s),
        forall|i: int|
            0 <= i < s.len() ==> {
                &&& !('A' <= s[i] && s[i] <= 'Z') ==> #[trigger] lower(s)[i] == s[i]
                &&& 'A' <= s[i] && s[i] <= 'Z' ==> lower(s)[i] as int == s[i] as int + 32
            },
{
    assert(lower(lower(s)) =~= lower(s));
}

/// Lines that hold no line break come out as they were written.
pub proof fn lines_are_read_as_written(line: Seq<char>, rest: Seq<char>)
    requires
        !line.contains('\n'),
        line.len() > 0 ==> line.last() != '\r',
    ensures
        lines(line.push('\n') + rest) == seq![line] + lines(rest),
        line.len() > 0 ==> lines(line) == seq![line],
{
    let s = line.push('\n') + rest;
    lemma_find_from(s, '\n', 0);
    let i = find_from(s, '\n', 0);
    assert(s[line.len() as int] == '\n');
    if i < line.len() {
        assert(line[i] == s[i]);
    }
    assert(s.subrange(0, i) =~= line);
    assert(s.skip(i + 1) =~= rest);
    lemma_find_from(line, '\n', 0);
    if find_from(line, '\n', 0) < line.len() {
        assert(line.contains(line[find_from(line, '\n', 0)]));
    }
}

} // verus!
