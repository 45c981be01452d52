//! What holds of locators and of the places that they stand for.
use crate::dump::{lemma_named_end, named_end, nth_named, path_id, path_rest};
use crate::locator::{
    has_unsafe_component, new_locator, normal_authority, normal_remote_path, parsed_locator,
    placed, remote_path_refusal, scp_like, slashless_host, unsafe_component, LocatorView, UrlView,
};
use crate::moves::{alias_paths, has_path};
use crate::naming::{dashed, plain, sanitized};
use crate::paths::{
    absolute, components, join_all, join_path, lead, named, names_something, path_eq, path_under,
};
use crate::text::{
    char_fn, contains_text, decimal, ends_with, find_back, find_from, is_white, join_texts, lemma_decimal_reads_back,
    lemma_find_back, lemma_find_from, lemma_skip_back, lemma_skip_from, lemma_trim_by, lower, lower_char, occurs_at,
    skip_back, skip_from, split, split_first, split_from, split_last, trim_by, trim_end_by, trim_text, white_fn,
};
use vstd::prelude::*;

verus! {

proof fn lemma_find_is(s: Seq<char>, c: char, i: int, j: int)
    requires
        0 <= i <= j <= s.len(),
        forall|k: int| i <= k < j ==> s[k] != c,
        j < s.len() ==> s[j] == c,
    ensures
        find_from(s, c, i) == j,
    decreases j - i,
{
    if i < j {
        lemma_find_is(s, c, i + 1, j);
    }
}

proof fn lemma_split_pieces(s: Seq<char>, sep: char, i: int)
    requires
        0 <= i <= s.len(),
    ensures
        split_from(s, sep, i).len() > 0,
        forall|k: int|
            0 <= k < split_from(s, sep, i).len() ==> !(#[trigger] split_from(
                s,
                sep,
                i,
            )[k]).contains(sep),
    decreases s.len() - i,
{
    lemma_find_from(s, sep, i);
    let end = find_from(s, sep, i);
    let first = s.subrange(i, end);
    assert(!first.contains(sep)) by {
        if first.contains(sep) {
            let k = choose|k: int| 0 <= k < first.len() && first[k] == sep;
            assert(s[i + k] == sep);
        }
    }
    if end < s.len() {
        lemma_split_pieces(s, sep, end + 1);
    }
}

proof fn lemma_split_add(s: Seq<char>, part: Seq<char>, sep: char, i: int)
    requires
        0 <= i <= s.len(),
        !part.contains(sep),
    ensures
        split_from(s + part, sep, i) == split_from(s, sep, i).drop_last().push(
            split_from(s, sep, i).last() + part,
        ),
    decreases s.len() - i,
{
    let all = s + part;
    lemma_find_from(s, sep, i);
    lemma_split_pieces(s, sep, i);
    let end = find_from(s, sep, i);
    if end < s.len() {
        lemma_find_is(all, sep, i, end);
        lemma_split_add(s, part, sep, end + 1);
        lemma_split_pieces(s, sep, end + 1);
        assert(all.subrange(i, end) =~= s.subrange(i, end));
        assert(split_from(all, sep, i) =~= split_from(s, sep, i).drop_last().push(
            split_from(s, sep, i).last() + part,
        ));
    } else {
        assert forall|k: int| i <= k < all.len() implies all[k] != sep by {
            if k >= s.len() {
                assert(part[k - s.len()] == all[k]);
            }
        }
        lemma_find_is(all, sep, i, all.len() as int);
        assert(all.subrange(i, all.len() as int) =~= s.subrange(i, s.len() as int) + part);
        assert(split_from(all, sep, i) =~= split_from(s, sep, i).drop_last().push(
            split_from(s, sep, i).last() + part,
        ));
    }
}

proof fn lemma_split_push(s: Seq<char>, sep: char, i: int)
    requires
        0 <= i <= s.len(),
    ensures
        split_from(s.push(sep), sep, i) == split_from(s, sep, i).push(Seq::empty()),
    decreases s.len() - i,
{
    let all = s.push(sep);
    lemma_find_from(s, sep, i);
    let end = find_from(s, sep, i);
    lemma_find_is(all, sep, i, end);
    assert(all.subrange(i, end) =~= s.subrange(i, end));
    if end < s.len() {
        lemma_split_push(s, sep, end + 1);
        assert(split_from(all, sep, i) =~= split_from(s, sep, i).push(Seq::empty()));
    } else {
        assert(all.subrange(end + 1, all.len() as int) =~= Seq::empty());
        lemma_find_from(all, sep, end + 1);
        assert(split_from(all, sep, end + 1) =~= seq![Seq::empty()]);
        assert(split_from(all, sep, i) =~= split_from(s, sep, i).push(Seq::empty()));
    }
}

proof fn lemma_join_front(first: Seq<char>, rest: Seq<Seq<char>>, sep: Seq<char>)
    requires
        rest.len() > 0,
    ensures
        join_texts(seq![first] + rest, sep) == first + sep + join_texts(rest, sep),
    decreases rest.len(),
{
    let all = seq![first] + rest;
    if rest.len() == 1 {
        assert(all.drop_last() =~= seq![first]);
        assert(all.last() == rest[0]);
        assert(join_texts(seq![first], sep) == first);
        assert(join_texts(rest, sep) == rest[0]);
    } else {
        assert(all.drop_last() =~= seq![first] + rest.drop_last());
        lemma_join_front(first, rest.drop_last(), sep);
        assert(join_texts(all, sep) =~= first + sep + join_texts(rest, sep));
    }
}

/// Joining the pieces of a text gives the text back.
proof fn lemma_join_split(s: Seq<char>, sep: char, i: int)
    requires
        0 <= i <= s.len(),
    ensures
        join_texts(split_from(s, sep, i), seq![sep]) == s.subrange(i, s.len() as int),
    decreases s.len() - i,
{
    lemma_find_from(s, sep, i);
    let end = find_from(s, sep, i);
    if end < s.len() {
        lemma_join_split(s, sep, end + 1);
        lemma_split_pieces(s, sep, end + 1);
        lemma_join_front(s.subrange(i, end), split_from(s, sep, end + 1), seq![sep]);
        assert(s.subrange(i, end) + seq![sep] + s.subrange(end + 1, s.len() as int) =~= s.subrange(
            i,
            s.len() as int,
        ));
    }
}

/// Two separators in a row leave an empty piece between them.
proof fn lemma_split_gap(s: Seq<char>, sep: char, i: int, k: int) -> (p: int)
    requires
        0 <= i <= k,
        k + 1 < s.len(),
        s[k] == sep,
        s[k + 1] == sep,
    ensures
        0 <= p < split_from(s, sep, i).len(),
        split_from(s, sep, i)[p].len() == 0,
    decreases s.len() - i,
{
    lemma_find_from(s, sep, i);
    let end = find_from(s, sep, i);
    if end == k {
        lemma_find_is(s, sep, k + 1, k + 1);
        assert(split_from(s, sep, k + 1)[0] =~= s.subrange(k + 1, k + 1));
        assert(split_from(s, sep, i)[1] == split_from(s, sep, k + 1)[0]);
        1
    } else {
        let q = lemma_split_gap(s, sep, end + 1, k);
        assert(split_from(s, sep, i)[q + 1] == split_from(s, sep, end + 1)[q]);
        q + 1
    }
}

/// A text that names one thing below a directory.
pub open spec fn plain_piece(part: Seq<char>) -> bool {
    part.len() > 0 && !part.contains('/') && part != seq!['.']
}

/// Joining a name to a path adds one component.
proof fn lemma_join_components(base: Seq<char>, part: Seq<char>)
    requires
        plain_piece(part),
    ensures
        components(join_path(base, part)) == components(base).push(part),
{
    let joined = join_path(base, part);
    assert(!absolute(part)) by {
        if absolute(part) {
            assert(part.contains('/'));
        }
    }
    lemma_split_pieces(base, '/', 0);
    if base.len() == 0 {
        assert(joined =~= part);
        lemma_split_add(base, part, '/', 0);
        assert(base + part =~= part);
        lemma_find_is(base, '/', 0, 0);
        assert(split(base, '/') =~= seq![base.subrange(0, 0)]);
        assert(base.subrange(0, 0) + part =~= part);
        assert(split(part, '/') =~= seq![part]);
        assert(split(part, '/').drop_last() =~= Seq::empty());
        assert(split(base, '/').drop_last() =~= Seq::empty());
        assert(named(Seq::<Seq<char>>::empty()) == Seq::<Seq<char>>::empty());
        assert(named(split(part, '/')) =~= seq![part]);
        assert(named(split(base, '/')) =~= Seq::empty());
        assert(base.subrange(0, 0) != seq!['.']) by {
            assert(base.subrange(0, 0).len() != seq!['.'].len());
        }
        assert(components(part) =~= seq![part]);
        assert(components(base) =~= Seq::empty());
    } else {
        let b = if base.last() == '/' {
            base.drop_last()
        } else {
            base
        };
        let dir = b.push('/');
        if base.last() == '/' {
            assert(dir =~= base);
        }
        assert(joined =~= dir + part);
        lemma_split_push(b, '/', 0);
        lemma_split_add(dir, part, '/', 0);
        lemma_split_pieces(b, '/', 0);
        let pieces = split(b, '/');
        assert(split(dir, '/') == pieces.push(Seq::empty()));
        assert(split(dir, '/').drop_last() =~= pieces);
        assert(Seq::<char>::empty() + part =~= part);
        assert(split(joined, '/') =~= pieces.push(part));
        assert(pieces.push(part).drop_last() =~= pieces);
        assert(named(split(joined, '/')) == named(pieces).push(part));
        if base.last() == '/' {
            assert(pieces.push(Seq::empty()).drop_last() =~= pieces);
            assert(named(split(base, '/')) == named(pieces));
        }
        assert(joined[0] == base[0]);
        assert(split(joined, '/')[0] == pieces[0]);
        assert(split(base, '/')[0] == pieces[0]);
        assert(components(joined) =~= components(base).push(part));
    }
}

/// A slash at the end of a path says nothing, nor does a dot behind it; a name adds one
/// component.
pub proof fn dots_and_slashes_say_nothing(base: Seq<char>, part: Seq<char>)
    requires
        base.len() > 0,
        base.last() != '/',
        part.len() > 0,
        !part.contains('/'),
        part != seq!['.'],
    ensures
        components(base.push('/')) == components(base),
        components(base.push('/').push('.')) == components(base),
        components(base.push('/') + part) == components(base).push(part),
{
    let pieces = split(base, '/');
    let dir = base.push('/');
    let dot = seq!['.'];
    let here = dir.push('.');
    lemma_split_pieces(base, '/', 0);
    lemma_split_push(base, '/', 0);
    assert(split(dir, '/') == pieces.push(Seq::empty()));
    assert(pieces.push(Seq::empty()).drop_last() =~= pieces);
    assert(split(dir, '/')[0] == pieces[0]);
    assert(named(split(dir, '/')) == named(pieces));
    assert(dir[0] == base[0]);
    assert(components(dir) =~= components(base));
    assert(!dot.contains('/'));
    lemma_split_add(dir, dot, '/', 0);
    assert(here =~= dir + dot);
    assert(Seq::<char>::empty() + dot =~= dot);
    assert(split(here, '/') =~= pieces.push(dot));
    assert(pieces.push(dot).drop_last() =~= pieces);
    assert(named(split(here, '/')) == named(pieces));
    assert(split(here, '/')[0] == pieces[0]);
    assert(here[0] == base[0]);
    assert(components(here) =~= components(base));
    lemma_join_components(base, part);
    assert(!absolute(part)) by {
        if absolute(part) {
            assert(part.contains(part[0]));
        }
    }
}

proof fn lemma_join_all_components(base: Seq<char>, parts: Seq<Seq<char>>)
    requires
        forall|i: int| 0 <= i < parts.len() ==> plain_piece(#[trigger] parts[i]),
    ensures
        components(join_all(base, parts)) == components(base) + parts,
    decreases parts.len(),
{
    if parts.len() == 0 {
        assert(components(base) + parts =~= components(base));
    } else {
        lemma_join_all_components(base, parts.drop_last());
        lemma_join_components(join_all(base, parts.drop_last()), parts.last());
        assert(components(join_all(base, parts)) =~= components(base) + parts);
    }
}

/// Whatever is parsed, a locator that comes out is in its one form: an authority in
/// lowercase without slashes, and a remote path that stays within its place.
pub proof fn parsed_locators_are_valid(input: Seq<char>, url: Option<UrlView>)
    ensures
        parsed_locator(input, url) matches Ok(locator) ==> locator.valid(),
{
    if let Ok(locator) = parsed_locator(input, url) {
        assert forall|authority: Seq<char>, path: Seq<char>|
            #[trigger] new_locator(authority, path) == Ok::<LocatorView, Seq<char>>(
                locator,
            ) implies locator.valid() by {
            let raw = trim_end_by(trim_text(authority), char_fn('/'));
            assert forall|i: int| 0 <= i < raw.len() implies lower_char(lower_char(#[trigger] raw[i]))
                == lower_char(raw[i]) by {}
            assert(lower(lower(raw)) =~= lower(raw));
        }
    }
}

proof fn lemma_untrimmed(s: Seq<char>, p: spec_fn(char) -> bool)
    requires
        s.len() > 0,
        !p(s[0]),
        !p(s.last()),
    ensures
        trim_by(s, p) == s,
        trim_end_by(s, p) == s,
{
    assert(skip_from(s, p, 0) == 0);
    assert(skip_back(s, p, 0, s.len() as int) == s.len());
    assert(s.subrange(0, s.len() as int) =~= s);
}

/// A locator that can be written as `<authority>/<remote-path>` and read again:
/// nothing around its parts is white space, its authority has no port, and its
/// remote path does not end with `.git`.
pub open spec fn rereadable(locator: LocatorView) -> bool {
    &&& locator.valid()
    &&& trim_text(locator.authority) == locator.authority
    &&& trim_text(locator.remote_path) == locator.remote_path
    &&& !locator.authority.contains(':')
    &&& !ends_with(locator.remote_path, ".git"@)
}

proof fn lemma_remote_path_edges(p: Seq<char>)
    requires
        remote_path_refusal(p) is None,
    ensures
        p.len() > 0,
        p[0] != '/',
        p.last() != '/',
        forall|k: int| 0 <= k && k + 1 < p.len() ==> !(#[trigger] p[k] == '/' && p[k + 1] == '/'),
{
    reveal_strlit("");
    assert(""@ =~= Seq::empty());
    let pieces = split(p, '/');
    lemma_split_pieces(p, '/', 0);
    assert(!has_unsafe_component(p));
    if p[0] == '/' {
        lemma_find_is(p, '/', 0, 0);
        assert(pieces[0] =~= Seq::empty());
        assert(unsafe_component(split(p, '/')[0]));
    }
    if p.last() == '/' {
        let q = p.drop_last();
        lemma_split_push(q, '/', 0);
        assert(q.push('/') =~= p);
        assert(pieces.last() =~= Seq::empty());
        assert(unsafe_component(split(p, '/')[pieces.len() - 1]));
    }
    assert forall|k: int| 0 <= k && k + 1 < p.len() implies !(#[trigger] p[k] == '/' && p[k + 1]
        == '/') by {
        if p[k] == '/' && p[k + 1] == '/' {
            let i = lemma_split_gap(p, '/', 0, k);
            assert(split(p, '/')[i] =~= Seq::empty());
            assert(unsafe_component(split(p, '/')[i]));
        }
    }
}

/// Making a locator of its own parts gives it back.
pub proof fn locators_are_normal(locator: LocatorView)
    requires
        rereadable(locator),
    ensures
        new_locator(locator.authority, locator.remote_path) == Ok::<LocatorView, Seq<char>>(
            locator,
        ),
{
    let a = locator.authority;
    let p = locator.remote_path;
    lemma_remote_path_edges(p);
    assert(a.last() != '/') by {
        assert(a.contains(a.last()));
    }
    assert(a[0] != '/') by {
        assert(a.contains(a[0]));
    }
    lemma_untrimmed(a, char_fn('/'));
    lemma_untrimmed(p, char_fn('/'));
    assert(normal_authority(a) == a);
    assert(normal_remote_path(p) == p);
}

/// The text of a locator names that locator.
pub proof fn keys_name_their_locators(locator: LocatorView, url: Option<UrlView>)
    requires
        rereadable(locator),
    ensures
        parsed_locator(locator.key(), url) == Ok::<LocatorView, Seq<char>>(locator),
{
    let a = locator.authority;
    let p = locator.remote_path;
    let key = locator.key();
    let n = a.len() as int;
    reveal_strlit("/");
    reveal_strlit("://");
    lemma_remote_path_edges(p);
    lemma_trim_by(a, white_fn());
    lemma_trim_by(p, white_fn());
    assert(key[0] == a[0]);
    assert(key.last() == p.last());
    lemma_untrimmed(key, white_fn());
    assert(key[n] == '/');
    assert forall|k: int| 0 <= k < n implies key[k] != '/' && key[k] != ':' by {
        assert(key[k] == a[k]);
        assert(a.contains(a[k]));
    }
    assert(!contains_text(key, "://"@)) by {
        if contains_text(key, "://"@) {
            let i = choose|i: int| occurs_at(key, "://"@, i);
            let found = key.subrange(i, i + 3);
            assert(found[0] == ':' && found[1] == '/' && found[2] == '/');
            assert(key[i + 1] == '/' && key[i + 2] == '/');
            let k = i + 1 - n - 1;
            if k == -1 {
                assert(key[i + 2] == p[0]);
            } else {
                assert(key[i + 1] == p[k]);
                assert(key[i + 2] == p[k + 1]);
            }
        }
    }
    assert(scp_like(key) is None) by {
        lemma_find_from(key, ':', 0);
        let at = find_from(key, ':', 0);
        if at < key.len() {
            let left = key.subrange(0, at);
            assert(left[n] == '/');
            assert(left.contains('/'));
        }
    }
    lemma_find_is(key, '/', 0, n);
    assert(key.subrange(0, n) =~= a);
    assert(key.subrange(n + 1, key.len() as int) =~= p);
    locators_are_normal(locator);
}

/// The key of a locator says all of it: its authority has no port, and its remote
/// path does not end with `.git` and has no white space around it.
pub open spec fn keyed(locator: LocatorView) -> bool {
    &&& !locator.authority.contains(':')
    &&& !ends_with(locator.remote_path, ".git"@)
    &&& trim_text(locator.remote_path) == locator.remote_path
}

proof fn lemma_authority_trimmed(authority: Seq<char>, remote_path: Seq<char>)
    requires
        !authority.contains('/'),
    ensures
        new_locator(authority, remote_path) matches Ok(locator) ==> trim_text(locator.authority)
            == locator.authority,
{
    if let Ok(locator) = new_locator(authority, remote_path) {
        let t = trim_text(authority);
        let a = locator.authority;
        let cut = trim_end_by(t, char_fn('/'));
        lemma_trim_by(authority, white_fn());
        lemma_skip_from(authority, white_fn(), 0);
        lemma_skip_back(
            authority,
            white_fn(),
            skip_from(authority, white_fn(), 0),
            authority.len() as int,
        );
        lemma_skip_back(t, char_fn('/'), 0, t.len() as int);
        assert(a.len() == cut.len());
        assert(t.len() > 0);
        let from = skip_from(authority, white_fn(), 0);
        assert(t.last() == authority[from + t.len() - 1]);
        assert(authority.contains(authority[from + t.len() - 1]));
        assert(cut =~= t);
        assert(a[0] == lower_char(t[0]));
        assert(a.last() == lower_char(t.last()));
        lemma_untrimmed(a, white_fn());
    }
}

/// A locator that is parsed is read again from its key, if the key says all of it.
pub proof fn parsed_locators_can_be_read_again(input: Seq<char>, url: Option<UrlView>)
    requires
        slashless_host(url),
    ensures
        parsed_locator(input, url) matches Ok(locator) ==> (keyed(locator) ==> rereadable(locator)
            && forall|other: Option<UrlView>| #[trigger]
            parsed_locator(locator.key(), other) == Ok::<LocatorView, Seq<char>>(locator)),
{
    if let Ok(locator) = parsed_locator(input, url) {
        if keyed(locator) {
            let t = trim_text(input);
            parsed_locators_are_valid(input, url);
            reveal_strlit("localhost");
            reveal_strlit(":");
            if contains_text(t, "://"@) {
                if let Some((scheme, host, port, path)) = url {
                    let h = match host {
                        Some(h) => h,
                        None => "localhost"@,
                    };
                    assert forall|i: int| 0 <= i < h.len() implies h[i] != '/' by {
                        assert(h.contains(h[i]));
                    }
                    assert forall|i: int| 0 <= i < h.len() implies lower_char(#[trigger] h[i])
                        != '/' by {}
                    assert(!lower(h).contains('/'));
                    if let Some(n) = port {
                        lemma_decimal_reads_back(n as nat, n as nat);
                        assert(!(lower(h) + ":"@ + decimal(n as nat)).contains('/'));
                        lemma_authority_trimmed(lower(h) + ":"@ + decimal(n as nat), path);
                    } else {
                        lemma_authority_trimmed(lower(h), path);
                    }
                }
            } else {
                match scp_like(t) {
                    Some((authority, path)) => {
                        lemma_find_from(t, ':', 0);
                        let left = t.subrange(0, find_from(t, ':', 0));
                        lemma_find_back(left, '@', left.len() as int);
                        assert forall|i: int| 0 <= i < left.len() implies left[i] != '/' by {
                            assert(left.contains(left[i]));
                        }
                        lemma_authority_trimmed(authority, path);
                    },
                    None => {
                        lemma_find_from(t, '/', 0);
                        if let Some((authority, path)) = split_first(t, '/') {
                            lemma_authority_trimmed(authority, path);
                        }
                    },
                }
            }
            assert forall|other: Option<UrlView>| #[trigger]
                parsed_locator(locator.key(), other) == Ok::<LocatorView, Seq<char>>(locator) by {
                keys_name_their_locators(locator, other);
            }
        }
    }
}

proof fn lemma_skip_is(s: Seq<char>, p: spec_fn(char) -> bool, i: int, j: int)
    requires
        0 <= i <= j < s.len(),
        forall|k: int| i <= k < j ==> p(#[trigger] s[k]),
        !p(s[j]),
    ensures
        skip_from(s, p, i) == j,
    decreases j - i,
{
    if i < j {
        lemma_skip_is(s, p, i + 1, j);
    }
}

proof fn lemma_skip_back_is(s: Seq<char>, p: spec_fn(char) -> bool, lo: int, j: int, end: int)
    requires
        0 <= lo < j <= end <= s.len(),
        forall|k: int| j <= k < end ==> p(#[trigger] s[k]),
        !p(s[j - 1]),
    ensures
        skip_back(s, p, lo, end) == j,
    decreases end - j,
{
    if j < end {
        lemma_skip_back_is(s, p, lo, j, end - 1);
    }
}

/// What is put around a text to be trimmed is trimmed off.
proof fn lemma_trim_around(
    before: Seq<char>,
    s: Seq<char>,
    behind: Seq<char>,
    p: spec_fn(char) -> bool,
)
    requires
        s.len() > 0,
        !p(s[0]),
        !p(s.last()),
        forall|k: int| 0 <= k < before.len() ==> p(#[trigger] before[k]),
        forall|k: int| 0 <= k < behind.len() ==> p(#[trigger] behind[k]),
    ensures
        trim_by(before + s + behind, p) == s,
{
    let all = before + s + behind;
    let a = before.len() as int;
    let b = a + s.len();
    assert(all[a] == s[0]);
    assert(all[b - 1] == s.last());
    assert forall|k: int| 0 <= k < a implies p(#[trigger] all[k]) by {
        assert(all[k] == before[k]);
    }
    assert forall|k: int| b <= k < all.len() implies p(#[trigger] all[k]) by {
        assert(all[k] == behind[k - b]);
    }
    lemma_skip_is(all, p, 0, a);
    lemma_skip_back_is(all, p, a, b, all.len() as int);
    assert(all.subrange(a, b) =~= s);
}

/// White space and nothing else.
pub open spec fn blank(s: Seq<char>) -> bool {
    forall|i: int| 0 <= i < s.len() ==> is_white(#[trigger] s[i])
}

/// How a remote path may be written: with a slash before it or behind it, and with
/// `.git` at its end.
pub open spec fn spelled_path(
    remote_path: Seq<char>,
    leading: bool,
    git: bool,
    trailing: bool,
) -> Seq<char> {
    let name = if git {
        remote_path + ".git"@
    } else {
        remote_path
    };
    (if leading {
        seq!['/']
    } else {
        seq![]
    }) + name + (if trailing {
        seq!['/']
    } else {
        seq![]
    })
}

proof fn lemma_spelled_path(locator: LocatorView, leading: bool, git: bool, trailing: bool)
    requires
        rereadable(locator),
    ensures
        ({
            let text = spelled_path(locator.remote_path, leading, git, trailing);
            &&& text.len() > 0
            &&& !is_white(text[0])
            &&& !is_white(text.last())
            &&& forall|k: int|
                0 <= k && k + 1 < text.len() ==> !(#[trigger] text[k] == '/' && text[k + 1] == '/')
            &&& new_locator(locator.authority, text) == Ok::<LocatorView, Seq<char>>(locator)
        }),
{
    let r = locator.remote_path;
    let text = spelled_path(r, leading, git, trailing);
    reveal_strlit(".git");
    lemma_remote_path_edges(r);
    lemma_trim_by(r, white_fn());
    let name = if git {
        r + ".git"@
    } else {
        r
    };
    let before: Seq<char> = if leading {
        seq!['/']
    } else {
        seq![]
    };
    let behind: Seq<char> = if trailing {
        seq!['/']
    } else {
        seq![]
    };
    assert(name[0] == r[0]);
    assert(name.last() == if git {
        't'
    } else {
        r.last()
    });
    assert(text == before + name + behind);
    let at = before.len() as int;
    assert forall|k: int| 0 <= k && k + 1 < text.len() implies !(#[trigger] text[k] == '/'
        && text[k + 1] == '/') by {
        if k < at {
            assert(text[k + 1] == name[0]);
        } else if k - at + 1 < name.len() {
            assert(text[k] == name[k - at]);
            assert(text[k + 1] == name[k - at + 1]);
            if k - at + 1 < r.len() {
                assert(name[k - at] == r[k - at] && name[k - at + 1] == r[k - at + 1]);
            } else {
                assert(name[k - at + 1] == ".git"@[k - at + 1 - r.len()]);
            }
        } else {
            assert(text[k] == name.last());
        }
    }
    assert(text[0] == if leading {
        '/'
    } else {
        r[0]
    });
    assert(text.last() == if trailing {
        '/'
    } else {
        name.last()
    });
    lemma_untrimmed(text, white_fn());
    lemma_trim_around(before, name, behind, char_fn('/'));
    if git {
        assert(name.subrange(name.len() - 4, name.len() as int) =~= ".git"@);
        assert(name.subrange(0, name.len() - 4) =~= r);
    }
    assert(normal_remote_path(text) == r);
    locators_are_normal(locator);
}

proof fn lemma_no_scheme(text: Seq<char>)
    requires
        forall|k: int|
            0 <= k && k + 2 < text.len() ==> !(#[trigger] text[k] == ':' && text[k + 1] == '/'
                && text[k + 2] == '/'),
    ensures
        !contains_text(text, "://"@),
{
    reveal_strlit("://");
    if contains_text(text, "://"@) {
        let i = choose|i: int| occurs_at(text, "://"@, i);
        let found = text.subrange(i, i + 3);
        assert(found[0] == ':' && found[1] == '/' && found[2] == '/');
        assert(text[i] == ':' && text[i + 1] == '/' && text[i + 2] == '/');
    }
}

/// A repository has one locator, however it is written as
/// `<authority>/<remote-path>`: with or without `.git` and slashes around the remote
/// path, and with or without white space around it all.
pub proof fn plain_spellings_name_one_locator(
    locator: LocatorView,
    before: Seq<char>,
    behind: Seq<char>,
    leading: bool,
    git: bool,
    trailing: bool,
    url: Option<UrlView>,
)
    requires
        rereadable(locator),
        blank(before),
        blank(behind),
    ensures
        parsed_locator(
            before + (locator.authority + "/"@ + spelled_path(
                locator.remote_path,
                leading,
                git,
                trailing,
            )) + behind,
            url,
        ) == Ok::<LocatorView, Seq<char>>(locator),
{
    let a = locator.authority;
    let q = spelled_path(locator.remote_path, leading, git, trailing);
    let text = a + "/"@ + q;
    let n = a.len() as int;
    reveal_strlit("/");
    lemma_spelled_path(locator, leading, git, trailing);
    lemma_trim_by(a, white_fn());
    assert(text[0] == a[0]);
    assert(text.last() == q.last());
    lemma_trim_around(before, text, behind, white_fn());
    assert(text[n] == '/');
    assert forall|k: int| 0 <= k < n implies text[k] != '/' && text[k] != ':' by {
        assert(text[k] == a[k]);
        assert(a.contains(a[k]));
    }
    assert forall|k: int| 0 <= k && k + 2 < text.len() implies !(#[trigger] text[k] == ':'
        && text[k + 1] == '/' && text[k + 2] == '/') by {
        if k > n {
            assert(text[k + 1] == q[k - n]);
            assert(text[k + 2] == q[k - n + 1]);
        }
    }
    lemma_no_scheme(text);
    assert(scp_like(text) is None) by {
        lemma_find_from(text, ':', 0);
        let at = find_from(text, ':', 0);
        if at < text.len() {
            let left = text.subrange(0, at);
            assert(left[n] == '/');
            assert(left.contains('/'));
        }
    }
    lemma_find_is(text, '/', 0, n);
    assert(text.subrange(0, n) =~= a);
    assert(text.subrange(n + 1, text.len() as int) =~= q);
}

/// What stands before the host of an address: nothing, or a user.
pub open spec fn login(user: Option<Seq<char>>) -> Seq<char> {
    match user {
        Some(name) => name + "@"@,
        None => seq![],
    }
}

/// A user that an address can name.
pub open spec fn login_name(name: Seq<char>) -> bool {
    !name.contains('/') && !name.contains(':') && trim_text(name) == name
}

proof fn lemma_login(a: Seq<char>, user: Option<Seq<char>>)
    requires
        a.len() > 0,
        !is_white(a[0]),
        !a.contains('/'),
        !a.contains(':'),
        !a.contains('@'),
        user matches Some(name) ==> login_name(name),
    ensures
        ({
            let left = login(user) + a;
            &&& left.len() > 0
            &&& !is_white(left[0])
            &&& !left.contains('/')
            &&& !left.contains(':')
            &&& match split_last(left, '@') {
                Some((_, host)) => host == a,
                None => left == a,
            }
        }),
{
    let from = login(user);
    let left = from + a;
    let m = from.len() as int;
    let n = left.len() as int;
    reveal_strlit("@");
    if let Some(name) = user {
        lemma_trim_by(name, white_fn());
        assert(from[m - 1] == '@');
        assert forall|k: int| 0 <= k < m implies #[trigger] from[k] != '/' && from[k] != ':' by {
            if k < name.len() {
                assert(from[k] == name[k]);
                assert(name.contains(name[k]));
            }
        }
        assert(left[0] == from[0]);
        if name.len() > 0 {
            assert(from[0] == name[0]);
        }
    } else {
        assert(left =~= a);
    }
    assert forall|k: int| 0 <= k < a.len() implies #[trigger] a[k] != '/' && a[k] != ':' && a[k]
        != '@' by {
        assert(a.contains(a[k]));
    }
    assert forall|k: int| 0 <= k < n implies #[trigger] left[k] != '/' && left[k] != ':' by {
        if k < m {
            assert(left[k] == from[k]);
        } else {
            assert(left[k] == a[k - m]);
        }
    }
    lemma_find_back(left, '@', n);
    assert forall|k: int| m <= k < n implies left[k] != '@' by {
        assert(left[k] == a[k - m]);
    }
    if user is Some {
        assert(left[m - 1] == '@');
        assert(find_back(left, '@', n) == m - 1);
        assert(left.subrange(m, n) =~= a);
    }
}

proof fn lemma_scp_like(left: Seq<char>, q: Seq<char>)
    requires
        left.len() > 0,
        !left.contains('/'),
        !left.contains(':'),
        q.len() > 0,
        forall|k: int| 0 <= k && k + 1 < q.len() ==> !(#[trigger] q[k] == '/' && q[k + 1] == '/'),
    ensures
        ({
            let text = left + ":"@ + q;
            &&& !contains_text(text, "://"@)
            &&& scp_like(text) == match split_last(left, '@') {
                Some((_, host)) => Some((host, q)),
                None => Some((left, q)),
            }
        }),
{
    let text = left + ":"@ + q;
    let n = left.len() as int;
    reveal_strlit(":");
    assert(text[n] == ':');
    assert forall|k: int| 0 <= k < n implies #[trigger] text[k] != ':' by {
        assert(text[k] == left[k]);
        assert(left.contains(left[k]));
    }
    assert forall|k: int| 0 <= k && k + 2 < text.len() implies !(#[trigger] text[k] == ':'
        && text[k + 1] == '/' && text[k + 2] == '/') by {
        if k >= n {
            assert(text[k + 1] == q[k - n]);
            assert(text[k + 2] == q[k - n + 1]);
        }
    }
    lemma_no_scheme(text);
    lemma_find_is(text, ':', 0, n);
    assert(text.subrange(0, n) =~= left);
    assert(text.subrange(n + 1, text.len() as int) =~= q);
}

/// The same locator is that of the address `[user@]host:path`, however the path is
/// written.
pub proof fn scp_spellings_name_one_locator(
    locator: LocatorView,
    user: Option<Seq<char>>,
    before: Seq<char>,
    behind: Seq<char>,
    leading: bool,
    git: bool,
    trailing: bool,
    url: Option<UrlView>,
)
    requires
        rereadable(locator),
        !locator.authority.contains('@'),
        user matches Some(name) ==> login_name(name),
        blank(before),
        blank(behind),
    ensures
        parsed_locator(
            before + (login(user) + locator.authority + ":"@ + spelled_path(
                locator.remote_path,
                leading,
                git,
                trailing,
            )) + behind,
            url,
        ) == Ok::<LocatorView, Seq<char>>(locator),
{
    let a = locator.authority;
    let left = login(user) + a;
    let q = spelled_path(locator.remote_path, leading, git, trailing);
    let text = left + ":"@ + q;
    lemma_spelled_path(locator, leading, git, trailing);
    lemma_trim_by(a, white_fn());
    lemma_login(a, user);
    lemma_scp_like(left, q);
    assert(text[0] == left[0]);
    assert(text.last() == q.last());
    lemma_trim_around(before, text, behind, white_fn());
}

/// And it is that of a URL of any scheme whose host, in any case, is the authority
/// and whose path is the remote path, however it is written.
pub proof fn url_spellings_name_one_locator(
    locator: LocatorView,
    input: Seq<char>,
    scheme: Seq<char>,
    host: Seq<char>,
    leading: bool,
    git: bool,
    trailing: bool,
)
    requires
        rereadable(locator),
        contains_text(trim_text(input), "://"@),
        lower(host) == locator.authority,
    ensures
        parsed_locator(
            input,
            Some(
                (
                    scheme,
                    Some(host),
                    None,
                    spelled_path(locator.remote_path, leading, git, trailing),
                ),
            ),
        ) == Ok::<LocatorView, Seq<char>>(locator),
{
    reveal_strlit("://");
    lemma_spelled_path(locator, leading, git, trailing);
    let i = choose|i: int| occurs_at(trim_text(input), "://"@, i);
    assert(trim_text(input).len() >= 3);
}

/// The components of a place: those of the root, the authority, and the pieces of
/// the remote path.
pub open spec fn place_components(root: Seq<char>, locator: LocatorView) -> Seq<Seq<char>> {
    components(root).push(locator.authority) + split(locator.remote_path, '/')
}

proof fn lemma_placed(root: Seq<char>, locator: LocatorView)
    requires
        locator.valid(),
        locator.authority != seq!['.'],
    ensures
        components(placed(root, locator)) == place_components(root, locator),
{
    let parts = split(locator.remote_path, '/');
    reveal_strlit("");
    reveal_strlit(".");
    assert(""@ =~= Seq::empty());
    assert("."@ =~= seq!['.']);
    lemma_split_pieces(locator.remote_path, '/', 0);
    assert(!has_unsafe_component(locator.remote_path));
    assert forall|i: int| 0 <= i < parts.len() implies plain_piece(#[trigger] parts[i]) by {
        assert(!unsafe_component(split(locator.remote_path, '/')[i]));
        if parts[i].len() == 0 {
            assert(parts[i] =~= ""@);
        }
    }
    lemma_join_components(root, locator.authority);
    lemma_join_all_components(join_path(root, locator.authority), parts);
}

/// A repository is always placed under the root.
pub proof fn places_lie_under_the_root(root: Seq<char>, locator: LocatorView)
    requires
        locator.valid(),
        locator.authority != seq!['.'],
    ensures
        path_under(placed(root, locator), root),
        components(placed(root, locator)).len() > components(root).len(),
{
    lemma_placed(root, locator);
    lemma_split_pieces(locator.remote_path, '/', 0);
    assert(place_components(root, locator).take(components(root).len() as int) =~= components(
        root,
    ));
}

/// Different repositories have different places.
pub proof fn places_are_distinct(root: Seq<char>, a: LocatorView, b: LocatorView)
    requires
        a.valid(),
        b.valid(),
        a.authority != seq!['.'],
        b.authority != seq!['.'],
        path_eq(placed(root, a), placed(root, b)),
    ensures
        a == b,
{
    lemma_placed(root, a);
    lemma_placed(root, b);
    let n = components(root).len() as int;
    let x = place_components(root, a);
    let y = place_components(root, b);
    assert(x[n] == a.authority);
    assert(y[n] == b.authority);
    assert(x.skip(n + 1) =~= split(a.remote_path, '/'));
    assert(y.skip(n + 1) =~= split(b.remote_path, '/'));
    lemma_join_split(a.remote_path, '/', 0);
    lemma_join_split(b.remote_path, '/', 0);
    assert(a.remote_path.subrange(0, a.remote_path.len() as int) =~= a.remote_path);
    assert(b.remote_path.subrange(0, b.remote_path.len() as int) =~= b.remote_path);
}

/// The aliases of a move lead from every old place that is not the new one, each
/// once, and never from the new place to itself.
pub proof fn aliases_cover_the_old_places(
    root: Seq<char>,
    locators: Seq<LocatorView>,
    target: Seq<char>,
)
    ensures
        forall|i: int|
            0 <= i < alias_paths(root, locators, target).len() ==> !path_eq(
                #[trigger] alias_paths(root, locators, target)[i],
                target,
            ),
        forall|i: int, j: int|
            0 <= i < j < alias_paths(root, locators, target).len() ==> !path_eq(
                #[trigger] alias_paths(root, locators, target)[i],
                #[trigger] alias_paths(root, locators, target)[j],
            ),
        forall|k: int|
            0 <= k < locators.len() ==> path_eq(placed(root, #[trigger] locators[k]), target)
                || has_path(alias_paths(root, locators, target), placed(root, locators[k])),
    decreases locators.len(),
{
    if locators.len() > 0 {
        let rest = locators.drop_last();
        aliases_cover_the_old_places(root, rest, target);
        let before = alias_paths(root, rest, target);
        let after = alias_paths(root, locators, target);
        let path = placed(root, locators.last());
        if !path_eq(path, target) && !has_path(before, path) {
            assert(after == before.push(path));
            assert(path_eq(after[before.len() as int], path));
            assert forall|i: int, j: int| 0 <= i < j < after.len() implies !path_eq(
                #[trigger] after[i],
                #[trigger] after[j],
            ) by {
                if j == before.len() {
                    assert(after[i] == before[i]);
                    assert(!path_eq(before[i], path));
                } else {
                    assert(after[i] == before[i]);
                    assert(after[j] == before[j]);
                }
            }
        }
        assert forall|k: int| 0 <= k < locators.len() implies path_eq(
            placed(root, #[trigger] locators[k]),
            target,
        ) || has_path(after, placed(root, locators[k])) by {
            if k < rest.len() {
                assert(rest[k] == locators[k]);
                if has_path(before, placed(root, locators[k])) {
                    let i = choose|i: int|
                        0 <= i < before.len() && path_eq(
                            #[trigger] before[i],
                            placed(root, locators[k]),
                        );
                    assert(after[i] == before[i]);
                }
            } else if !path_eq(path, target) && !has_path(before, path) {
                assert(path_eq(after[before.len() as int], path));
            }
        }
    }
}

/// A name in which every character is a letter, a digit, a dot, an underscore or a
/// dash, and no dash stands next to another.
pub open spec fn dash_joined(s: Seq<char>) -> bool {
    &&& forall|i: int| 0 <= i < s.len() ==> plain(#[trigger] s[i]) || s[i] == '-'
    &&& forall|i: int, j: int|
        0 <= i && j == i + 1 && j < s.len() ==> !(#[trigger] s[i] == '-' && #[trigger] s[j] == '-')
}

proof fn lemma_dashed(s: Seq<char>)
    ensures
        dash_joined(dashed(s)),
    decreases s.len(),
{
    if s.len() > 0 {
        lemma_dashed(s.drop_last());
    }
}

proof fn lemma_dashed_fixed(s: Seq<char>)
    requires
        dash_joined(s),
    ensures
        dashed(s) == s,
    decreases s.len(),
{
    if s.len() > 0 {
        let t = s.drop_last();
        assert(dash_joined(t)) by {
            assert forall|i: int, j: int| 0 <= i && j == i + 1 && j < t.len() implies !(
            #[trigger] t[i] == '-' && #[trigger] t[j] == '-') by {
                assert(t[i] == s[i]);
                assert(t[j] == s[j]);
            }
        }
        lemma_dashed_fixed(t);
        assert(plain(s.last()) || s.last() == '-');
        if t.len() > 0 {
            assert(!(s[s.len() - 2] == '-' && s[s.len() - 1] == '-'));
        }
        assert(t.push(s.last()) =~= s);
    } else {
        assert(dashed(s) =~= s);
    }
}

/// The name of a remote holds letters, digits, dots, underscores and single dashes,
/// and begins and ends with no dash. Naming what is a name already changes nothing.
pub proof fn remote_names_are_plain(s: Seq<char>)
    ensures
        dash_joined(sanitized(s)),
        sanitized(s).len() > 0 ==> sanitized(s)[0] != '-' && sanitized(s).last() != '-',
        sanitized(sanitized(s)) == sanitized(s),
{
    lemma_dashed(s);
    let all = dashed(s);
    let name = sanitized(s);
    lemma_trim_by(all, char_fn('-'));
    lemma_skip_from(all, char_fn('-'), 0);
    let a = skip_from(all, char_fn('-'), 0);
    lemma_skip_back(all, char_fn('-'), a, all.len() as int);
    assert(dash_joined(name)) by {
        assert forall|i: int| 0 <= i < name.len() implies plain(#[trigger] name[i]) || name[i]
            == '-' by {
            assert(name[i] == all[a + i]);
        }
        assert forall|i: int, j: int| 0 <= i && j == i + 1 && j < name.len() implies !(
        #[trigger] name[i] == '-' && #[trigger] name[j] == '-') by {
            assert(name[i] == all[a + i]);
            assert(name[j] == all[a + j]);
        }
    }
    lemma_dashed_fixed(name);
    if name.len() > 0 {
        lemma_untrimmed(name, char_fn('-'));
    } else {
        assert(trim_by(name, char_fn('-')) =~= name);
    }
}

proof fn lemma_join_concat(a: Seq<Seq<char>>, b: Seq<Seq<char>>, sep: Seq<char>)
    requires
        a.len() > 0,
        b.len() > 0,
    ensures
        join_texts(a + b, sep) == join_texts(a, sep) + sep + join_texts(b, sep),
    decreases b.len(),
{
    let all = a + b;
    if b.len() == 1 {
        assert(all.drop_last() =~= a);
    } else {
        assert(all.drop_last() =~= a + b.drop_last());
        lemma_join_concat(a, b.drop_last(), sep);
        assert(join_texts(all, sep) =~= join_texts(a, sep) + sep + join_texts(b, sep));
    }
}

/// Splitting what was joined of pieces gives the pieces back.
proof fn lemma_split_join(parts: Seq<Seq<char>>)
    requires
        parts.len() > 0,
        forall|i: int| 0 <= i < parts.len() ==> !(#[trigger] parts[i]).contains('/'),
    ensures
        split(join_texts(parts, "/"@), '/') == parts,
    decreases parts.len(),
{
    reveal_strlit("/");
    assert("/"@ =~= seq!['/']);
    let last = parts.last();
    if parts.len() == 1 {
        lemma_find_is(last, '/', 0, last.len() as int);
        assert(last.subrange(0, last.len() as int) =~= last);
        assert(split(last, '/') =~= parts);
    } else {
        let rest = parts.drop_last();
        let before = join_texts(rest, "/"@);
        assert forall|i: int| 0 <= i < rest.len() implies !(#[trigger] rest[i]).contains('/') by {
            assert(rest[i] == parts[i]);
        }
        lemma_split_join(rest);
        lemma_split_push(before, '/', 0);
        lemma_split_add(before.push('/'), last, '/', 0);
        assert(before + "/"@ =~= before.push('/'));
        assert(rest.push(Seq::empty()).drop_last() =~= rest);
        assert(Seq::<char>::empty() + last =~= last);
        assert(rest.push(last) =~= parts);
    }
}

proof fn lemma_named_concat(a: Seq<Seq<char>>, b: Seq<Seq<char>>)
    ensures
        named(a + b) == named(a) + named(b),
    decreases b.len(),
{
    if b.len() == 0 {
        assert(a + b =~= a);
        assert(named(a) + named(b) =~= named(a));
    } else {
        assert((a + b).drop_last() =~= a + b.drop_last());
        lemma_named_concat(a, b.drop_last());
        assert(named(a + b) =~= named(a) + named(b));
    }
}

proof fn lemma_named_one(piece: Seq<char>)
    ensures
        named(seq![piece]) == if names_something(piece) {
            seq![piece]
        } else {
            Seq::empty()
        },
{
    reveal_with_fuel(named, 2);
    assert(seq![piece].drop_last() =~= Seq::empty());
    assert(Seq::<Seq<char>>::empty().push(piece) =~= seq![piece]);
}

proof fn lemma_unnamed(pieces: Seq<Seq<char>>)
    requires
        forall|i: int| 0 <= i < pieces.len() ==> !names_something(#[trigger] pieces[i]),
    ensures
        named(pieces) == Seq::<Seq<char>>::empty(),
    decreases pieces.len(),
{
    if pieces.len() > 0 {
        assert forall|i: int| 0 <= i < pieces.len() - 1 implies !names_something(
            #[trigger] pieces.drop_last()[i],
        ) by {
            assert(pieces.drop_last()[i] == pieces[i]);
        }
        lemma_unnamed(pieces.drop_last());
    }
}

proof fn lemma_nth_named(pieces: Seq<Seq<char>>, i: int, n: int)
    requires
        0 <= i <= pieces.len(),
        0 <= n <= named(pieces.skip(i)).len(),
    ensures
        i <= nth_named(pieces, i, n) <= pieces.len(),
        nth_named(pieces, i, n) < pieces.len() ==> names_something(pieces[nth_named(pieces, i, n)]),
        named(pieces.skip(nth_named(pieces, i, n))) == named(pieces.skip(i)).skip(n),
    decreases pieces.len() - i,
{
    let all = named(pieces.skip(i));
    if i < pieces.len() {
        let first = seq![pieces[i]];
        let rest = pieces.skip(i + 1);
        assert(pieces.skip(i) =~= first + rest);
        lemma_named_concat(first, rest);
        lemma_named_one(pieces[i]);
        if names_something(pieces[i]) {
            if n > 0 {
                lemma_nth_named(pieces, i + 1, n - 1);
                assert(named(rest).skip(n - 1) =~= all.skip(n));
            } else {
                assert(all.skip(0) =~= all);
            }
        } else {
            assert(all =~= named(rest));
            lemma_nth_named(pieces, i + 1, n);
        }
    } else {
        assert(pieces.skip(i) =~= Seq::empty());
        assert(all.skip(n) =~= all);
    }
}

proof fn lemma_named_cut(pieces: Seq<Seq<char>>, lo: int)
    requires
        0 <= lo <= pieces.len(),
    ensures
        ({
            let end = named_end(pieces, lo, pieces.len() as int);
            &&& lo <= end <= pieces.len()
            &&& end > lo ==> names_something(pieces[end - 1])
            &&& named(pieces.subrange(lo, end)) == named(pieces.skip(lo))
            &&& forall|j: int| end <= j < pieces.len() ==> !names_something(#[trigger] pieces[j])
        }),
{
    let n = pieces.len() as int;
    let end = named_end(pieces, lo, n);
    lemma_named_end(pieces, lo, n);
    let tail = pieces.skip(end);
    assert forall|i: int| 0 <= i < tail.len() implies !names_something(#[trigger] tail[i]) by {
        assert(tail[i] == pieces[end + i]);
    }
    lemma_unnamed(tail);
    assert(pieces.skip(lo) =~= pieces.subrange(lo, end) + tail);
    lemma_named_concat(pieces.subrange(lo, end), tail);
    assert(named(pieces.subrange(lo, end)) + Seq::<Seq<char>>::empty() =~= named(
        pieces.subrange(lo, end),
    ));
}

/// A path is absolute where its first piece is empty and others follow.
proof fn lemma_absolute_pieces(p: Seq<char>)
    ensures
        absolute(p) <==> split(p, '/')[0].len() == 0 && split(p, '/').len() > 1,
{
    lemma_find_from(p, '/', 0);
    let end = find_from(p, '/', 0);
    if end < p.len() {
        lemma_split_pieces(p, '/', end + 1);
        if end == 0 {
            assert(p.subrange(0, 0).len() == 0);
        }
    }
}

/// The pieces of a text that others are joined to: its own, and those.
proof fn lemma_split_behind(b: Seq<char>, parts: Seq<Seq<char>>)
    requires
        parts.len() > 0,
        forall|i: int| 0 <= i < parts.len() ==> !(#[trigger] parts[i]).contains('/'),
    ensures
        split(b + "/"@ + join_texts(parts, "/"@), '/') == split(b, '/') + parts,
{
    reveal_strlit("/");
    assert("/"@ =~= seq!['/']);
    let pieces = split(b, '/');
    let all = pieces + parts;
    lemma_split_pieces(b, '/', 0);
    lemma_join_split(b, '/', 0);
    assert(b.subrange(0, b.len() as int) =~= b);
    lemma_join_concat(pieces, parts, "/"@);
    assert forall|i: int| 0 <= i < all.len() implies !(#[trigger] all[i]).contains('/') by {
        if i < pieces.len() {
            assert(all[i] == pieces[i]);
        } else {
            assert(all[i] == parts[i - pieces.len()]);
        }
    }
    lemma_split_join(all);
}

/// A slash at the end adds no component.
proof fn lemma_slash_behind(b: Seq<char>)
    ensures
        named(split(b.push('/'), '/')) == named(split(b, '/')),
        split(b.push('/'), '/')[0] == split(b, '/')[0],
{
    let pieces = split(b, '/');
    lemma_split_pieces(b, '/', 0);
    lemma_split_push(b, '/', 0);
    assert(pieces.push(Seq::empty()).drop_last() =~= pieces);
}

/// Joining several pieces to a path adds those of them that name something.
#[verifier::spinoff_prover]
proof fn lemma_join_rest(base: Seq<char>, parts: Seq<Seq<char>>)
    requires
        base.len() > 0,
        parts.len() > 0,
        forall|i: int| 0 <= i < parts.len() ==> !(#[trigger] parts[i]).contains('/'),
        names_something(parts[0]),
    ensures
        components(join_path(base, join_texts(parts, "/"@))) == components(base) + named(parts),
{
    reveal_strlit("/");
    assert("/"@ =~= seq!['/']);
    let rest = join_texts(parts, "/"@);
    let joined = join_path(base, rest);
    let b = if base.last() == '/' {
        base.drop_last()
    } else {
        base
    };
    let pieces = split(b, '/');
    assert(!absolute(rest)) by {
        lemma_split_join(parts);
        lemma_absolute_pieces(rest);
    }
    lemma_split_pieces(b, '/', 0);
    lemma_split_behind(b, parts);
    lemma_named_concat(pieces, parts);
    assert(named(split(base, '/')) == named(pieces) && split(base, '/')[0] == pieces[0]) by {
        if base.last() == '/' {
            assert(b.push('/') =~= base);
            lemma_slash_behind(b);
        }
    }
    assert(joined =~= b + "/"@ + rest);
    assert(joined[0] == base[0]);
    assert(split(joined, '/')[0] == pieces[0]);
    assert(lead(joined) == lead(base));
    assert(components(joined) =~= components(base) + named(parts));
}

proof fn lemma_empty_path()
    ensures
        components(Seq::<char>::empty()) == Seq::<Seq<char>>::empty(),
{
    let none = Seq::<char>::empty();
    let parts = seq![none];
    lemma_split_join(parts);
    lemma_named_one(none);
    assert(none != seq!['.']) by {
        assert(none.len() != seq!['.'].len());
    }
    assert(components(none) =~= Seq::empty());
}

/// Joining nothing to a path leaves its components.
proof fn lemma_join_nothing(base: Seq<char>)
    ensures
        components(join_path(base, Seq::empty())) == components(base),
{
    let joined = join_path(base, Seq::empty());
    if base.len() == 0 || base.last() == '/' {
        assert(joined =~= base);
    } else {
        assert(joined =~= base.push('/'));
        lemma_split_push(base, '/', 0);
        lemma_split_pieces(base, '/', 0);
        assert(split(joined, '/').drop_last() =~= split(base, '/'));
        assert(joined[0] == base[0]);
        assert(components(joined) =~= components(base));
    }
}

/// A path without what names nothing at its end has the same components.
#[verifier::spinoff_prover]
proof fn lemma_whole_path(path: Seq<char>)
    ensures
        components(path_rest(path, 0)) == components(path),
{
    reveal_strlit("/");
    reveal_strlit("");
    assert("/"@ =~= seq!['/']);
    assert(""@ =~= Seq::empty());
    let pieces = split(path, '/');
    let none = Seq::<char>::empty();
    lemma_split_pieces(path, '/', 0);
    lemma_named_cut(pieces, 0);
    lemma_absolute_pieces(path);
    assert(pieces.skip(0) =~= pieces);
    let end = named_end(pieces, 0, pieces.len() as int);
    let id = path_rest(path, 0);
    if end == 0 {
        assert(pieces.subrange(0, 0) =~= Seq::empty());
        assert(named(pieces) =~= Seq::empty());
        assert(components(path) =~= lead(path));
        if absolute(path) {
            let parts = seq![none, none];
            assert(parts.drop_last() =~= seq![none]);
            assert(join_texts(seq![none], "/"@) == none);
            assert(join_texts(parts, "/"@) =~= seq!['/']);
            assert(id =~= seq!['/']);
            lemma_split_join(parts);
            assert forall|i: int| 0 <= i < parts.len() implies !names_something(
                #[trigger] parts[i],
            ) by {}
            lemma_unnamed(parts);
            assert(components(id) =~= lead(path));
        } else if pieces[0] == seq!['.'] {
            let parts = seq![seq!['.']];
            assert(join_texts(parts, "/"@) == seq!['.']);
            assert(id =~= seq!['.']);
            assert(!seq!['.'].contains('/'));
            lemma_split_join(parts);
            lemma_unnamed(parts);
            assert(components(id) =~= lead(path));
        } else {
            assert(id =~= none);
            lemma_empty_path();
        }
    } else {
        let parts = pieces.take(end);
        assert(parts =~= pieces.subrange(0, end));
        assert forall|i: int| 0 <= i < parts.len() implies !(#[trigger] parts[i]).contains(
            '/',
        ) by {
            assert(parts[i] == pieces[i]);
        }
        lemma_split_join(parts);
        lemma_absolute_pieces(id);
        assert(parts[0] == pieces[0]);
        if end == 1 {
            assert(pieces[0].len() > 0);
        }
        assert(components(id) =~= components(path));
    }
}

proof fn lemma_root_components(root: Seq<char>)
    requires
        root.len() > 0,
    ensures
        components(root).len() > 0,
{
    let pieces = split(root, '/');
    lemma_split_pieces(root, '/', 0);
    lemma_absolute_pieces(root);
    let first = seq![pieces[0]];
    assert(pieces =~= first + pieces.skip(1));
    lemma_named_concat(first, pieces.skip(1));
    lemma_named_one(pieces[0]);
    if pieces.len() == 1 {
        lemma_join_split(root, '/', 0);
        assert(root.subrange(0, root.len() as int) =~= root);
        assert(pieces[0] == root);
    }
}

/// What a path says below a root leads to that path again, when it is taken from
/// the root.
#[verifier::spinoff_prover]
pub proof fn path_ids_lead_back(root: Seq<char>, path: Seq<char>)
    requires
        path_under(path, root),
    ensures
        path_eq(join_path(root, path_id(root, path)), path),
{
    let pieces = split(path, '/');
    let k = components(root).len() as int;
    let id = path_id(root, path);
    lemma_split_pieces(path, '/', 0);
    if root.len() == 0 {
        assert(root =~= Seq::empty());
        lemma_empty_path();
        lemma_whole_path(path);
        assert(root + id =~= id);
    } else {
        lemma_root_components(root);
        let n = k - lead(path).len();
        assert(components(root) == components(path).take(k));
        assert(pieces.skip(0) =~= pieces);
        lemma_nth_named(pieces, 0, n);
        let from = nth_named(pieces, 0, n);
        lemma_named_cut(pieces, from);
        let end = named_end(pieces, from, pieces.len() as int);
        let parts = pieces.subrange(from, end);
        assert(named(parts) =~= components(path).skip(k));
        assert(components(root) + named(parts) =~= components(path));
        if parts.len() == 0 {
            assert(id =~= Seq::empty());
            lemma_join_nothing(root);
            assert(components(root) + named(parts) =~= components(root));
        } else {
            assert forall|i: int| 0 <= i < parts.len() implies !(#[trigger] parts[i]).contains(
                '/',
            ) by {
                assert(parts[i] == pieces[from + i]);
            }
            assert(parts[0] == pieces[from]);
            lemma_join_rest(root, parts);
        }
    }
}

/// A run of pieces stands in the text that they are the pieces of.
proof fn lemma_pieces_are_text(path: Seq<char>, from: int, end: int) -> (r: (int, int))
    requires
        0 <= from < end <= split(path, '/').len(),
    ensures
        0 <= r.0 <= r.1 <= path.len(),
        join_texts(split(path, '/').subrange(from, end), "/"@) == path.subrange(r.0, r.1),
{
    reveal_strlit("/");
    assert("/"@ =~= seq!['/']);
    let pieces = split(path, '/');
    let n = pieces.len() as int;
    lemma_join_split(path, '/', 0);
    assert(path.subrange(0, path.len() as int) =~= path);
    let run = pieces.subrange(from, end);
    let before = pieces.take(end);
    let head = join_texts(before, "/"@);
    if end < n {
        assert(pieces =~= before + pieces.skip(end));
        lemma_join_concat(before, pieces.skip(end), "/"@);
    } else {
        assert(before =~= pieces);
    }
    assert(head =~= path.subrange(0, head.len() as int));
    let text = join_texts(run, "/"@);
    if from > 0 {
        assert(before =~= pieces.take(from) + run);
        lemma_join_concat(pieces.take(from), run, "/"@);
    } else {
        assert(before =~= run);
    }
    let a = head.len() - text.len();
    assert(text =~= path.subrange(a, head.len() as int));
    (a, head.len() as int)
}

/// What identifies a path below a root is a part of the path, as it is written.
#[verifier::spinoff_prover]
pub proof fn path_ids_are_parts_of_paths(root: Seq<char>, path: Seq<char>)
    ensures
        exists|i: int, j: int|
            0 <= i <= j <= path.len() && path_id(root, path) == #[trigger] path.subrange(i, j),
{
    reveal_strlit("");
    assert(""@ =~= Seq::empty());
    let id = path_id(root, path);
    let pieces = split(path, '/');
    lemma_split_pieces(path, '/', 0);
    assert(path.subrange(0, path.len() as int) =~= path);
    if path_under(path, root) {
        let k = components(root).len() as int;
        if k == 0 {
            lemma_named_cut(pieces, 0);
            let end = named_end(pieces, 0, pieces.len() as int);
            if end == 0 {
                lemma_find_from(path, '/', 0);
                if lead(path).len() == 0 {
                    assert(id =~= path.subrange(0, 0));
                } else {
                    assert(id == lead(path)[0]);
                    if !absolute(path) {
                        let at = find_from(path, '/', 0);
                        assert(pieces[0] == path.subrange(0, at));
                        assert(path.subrange(0, at)[0] == '.');
                    }
                    assert(id =~= path.subrange(0, 1));
                }
            } else {
                let (i, j) = lemma_pieces_are_text(path, 0, end);
                assert(pieces.take(end) =~= pieces.subrange(0, end));
            }
        } else {
            let n = k - lead(path).len();
            assert(pieces.skip(0) =~= pieces);
            lemma_nth_named(pieces, 0, n);
            let from = nth_named(pieces, 0, n);
            lemma_named_cut(pieces, from);
            let end = named_end(pieces, from, pieces.len() as int);
            if from < end {
                let (i, j) = lemma_pieces_are_text(path, from, end);
            } else {
                assert(pieces.subrange(from, end) =~= Seq::empty());
                assert(id =~= path.subrange(0, 0));
            }
        }
    }
}

} // verus!
