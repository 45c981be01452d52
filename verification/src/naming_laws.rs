//! What holds of every name and URL that a locator gives.
use crate::locator::{scp_like, LocatorView};
use crate::naming::{
    dashed, git_suffix, host_and_port, local_branch, plain, relocated_url, remote_name, sanitized,
    view_refs,
};
use crate::registry::keep;
use crate::text::{
    char_fn, decimal, ends_with, lemma_decimal_reads_back, skip_back, skip_from, trim_text,
};
use crate::text_laws::{
    lemma_skipped, lemma_skipped_back, split_texts_join_again, the_first_separator_splits,
    the_last_separator_splits,
};
use vstd::prelude::*;

verus! {

/// The letters, digits, dots and underscores of a text, in their order.
pub open spec fn plain_part(s: Seq<char>) -> Seq<char> {
    keep(s, |c: char| plain(c))
}

proof fn lemma_plain_concat(a: Seq<char>, b: Seq<char>)
    ensures
        plain_part(a + b) == plain_part(a) + plain_part(b),
    decreases b.len(),
{
    if b.len() == 0 {
        assert(a + b =~= a);
        assert(plain_part(b) =~= seq![]);
        assert(plain_part(a) + plain_part(b) =~= plain_part(a));
    } else {
        let t = b.drop_last();
        lemma_plain_concat(a, t);
        assert((a + b).drop_last() =~= a + t);
        if plain(b.last()) {
            assert(plain_part(a + b) =~= plain_part(a) + plain_part(b));
        }
    }
}

proof fn lemma_no_plain(s: Seq<char>)
    requires
        forall|i: int| 0 <= i < s.len() ==> #[trigger] s[i] == '-',
    ensures
        plain_part(s) == Seq::<char>::empty(),
    decreases s.len(),
{
    if s.len() > 0 {
        assert(s[s.len() - 1] == '-');
        assert forall|i: int| 0 <= i < s.drop_last().len() implies #[trigger] s.drop_last()[i]
            == '-' by {
            assert(s[i] == '-');
        }
        lemma_no_plain(s.drop_last());
    }
}

proof fn lemma_dashed_plain(s: Seq<char>)
    ensures
        plain_part(dashed(s)) == plain_part(s),
    decreases s.len(),
{
    if s.len() > 0 {
        let t = s.drop_last();
        lemma_dashed_plain(t);
        let before = dashed(t);
        if plain(s.last()) {
            assert(dashed(s).drop_last() =~= before);
        } else if !(before.len() > 0 && before.last() == '-') {
            assert(dashed(s).drop_last() =~= before);
        }
    } else {
        assert(dashed(s) =~= s);
    }
}

/// The part of a name that a locator gives loses no letter, digit, dot or underscore
/// of it and adds none.
pub proof fn names_keep_the_plain_characters(s: Seq<char>)
    ensures
        plain_part(sanitized(s)) == plain_part(s),
{
    let p = char_fn('-');
    let all = dashed(s);
    let n = all.len() as int;
    lemma_dashed_plain(s);
    lemma_skipped(all, p, 0);
    let a = skip_from(all, p, 0);
    lemma_skipped_back(all, p, a, n);
    let b = skip_back(all, p, a, n);
    let head = all.subrange(0, a);
    let tail = all.subrange(b, n);
    assert(head + sanitized(s) + tail =~= all);
    assert forall|i: int| 0 <= i < head.len() implies #[trigger] head[i] == '-' by {
        assert(p(all[i]));
    }
    assert forall|i: int| 0 <= i < tail.len() implies #[trigger] tail[i] == '-' by {
        assert(p(all[b + i]));
    }
    lemma_no_plain(head);
    lemma_no_plain(tail);
    lemma_plain_concat(head + sanitized(s), tail);
    lemma_plain_concat(head, sanitized(s));
    assert(plain_part(head) + plain_part(sanitized(s)) =~= plain_part(sanitized(s)));
    assert(plain_part(sanitized(s)) + plain_part(tail) =~= plain_part(sanitized(s)));
}

/// The directory that the refs and branches of a kind of repository stand in.
pub open spec fn kind_directory(relationship: Seq<char>) -> Seq<char> {
    if relationship == "mirror"@ {
        "mirrors/"@
    } else {
        "forks/"@
    }
}

/// A fork's or mirror's branch stands below the directory of its kind and ends with the
/// default branch; its refs stand below that of its kind too, and its remote is named
/// after its kind. All three are told from those of another by the locator alone.
pub proof fn names_tell_kind_locator_and_branch(
    relationship: Seq<char>,
    locator: LocatorView,
    branch: Seq<char>,
)
    ensures
        ({
            let middle = sanitized(locator.authority + "/"@ + locator.remote_path);
            let kind = kind_directory(relationship);
            &&& local_branch(relationship, locator, branch) == "repo-manager/"@ + kind + middle
                + "/"@ + branch
            &&& view_refs(relationship, locator) == "refs/repo-manager/"@ + kind + middle
            &&& remote_name(relationship, locator) == relationship + "-"@ + middle
        }),
{
    reveal_strlit("mirrors/");
    reveal_strlit("mirrors");
    reveal_strlit("forks/");
    reveal_strlit("forks");
    reveal_strlit("/");
    assert("mirrors/"@ =~= "mirrors"@ + "/"@);
    assert("forks/"@ =~= "forks"@ + "/"@);
    let middle = sanitized(locator.authority + "/"@ + locator.remote_path);
    let kind = kind_directory(relationship);
    assert(local_branch(relationship, locator, branch) =~= "repo-manager/"@ + kind + middle + "/"@
        + branch);
    assert(view_refs(relationship, locator) =~= "refs/repo-manager/"@ + kind + middle);
}

/// An authority with a port is told apart from its host, and one without is its host.
pub proof fn ports_are_told_from_hosts(host: Seq<char>, port: u16, other: Seq<char>)
    requires
        !other.contains(':'),
    ensures
        host_and_port(host.push(':') + decimal(port as nat)) == (host, Some(port)),
        host_and_port(other) == (other, None::<u16>),
{
    lemma_decimal_reads_back(port as nat, 65535);
    let text = decimal(port as nat);
    if text.contains(':') {
        let i = choose|i: int| 0 <= i < text.len() && text[i] == ':';
        assert(crate::text::is_digit(text[i]));
    }
    the_last_separator_splits(host, ':', text);
    split_texts_join_again(other, ':');
}

/// A remote that has no URL yet gets the one over HTTPS.
pub proof fn new_remotes_use_https(
    locator: LocatorView,
    scheme: Option<Seq<char>>,
    at_path: Option<Seq<char>>,
    at_location: Option<Seq<char>>,
)
    ensures
        relocated_url(None, locator, scheme, at_path, at_location) == "https://"@
            + locator.authority + "/"@ + locator.remote_path + ".git"@,
{
}

/// A relocated URL keeps its style: one like `user@host:path` keeps all that stands
/// before its path, and an ending in `.git` exactly where it had one. Any other keeps
/// its scheme where the URL could be rewritten, and is one over HTTPS otherwise.
pub proof fn relocated_urls_keep_their_style(
    text: Seq<char>,
    locator: LocatorView,
    scheme: Option<Seq<char>>,
    at_path: Option<Seq<char>>,
    at_location: Option<Seq<char>>,
    before: Seq<char>,
    path: Seq<char>,
)
    ensures
        ({
            let t = trim_text(text);
            let url = relocated_url(Some(text), locator, scheme, at_path, at_location);
            let https = "https://"@ + locator.authority + "/"@ + locator.remote_path + ".git"@;
            let networked = scheme == Some("git"@) || scheme == Some("http"@) || scheme == Some(
                "https"@,
            ) || scheme == Some("ssh"@);
            &&& scp_like(t) is Some && t == before.push(':') + path && !before.contains(':')
                ==> url == before.push(':') + locator.remote_path + git_suffix(t)
            &&& scp_like(t) is None && scheme == Some("file"@) ==> url == if at_path is Some {
                at_path->0
            } else {
                https
            }
            &&& scp_like(t) is None && networked ==> url == if at_location is Some {
                at_location->0
            } else {
                https
            }
            &&& scp_like(t) is None && scheme != Some("file"@) && !networked ==> url == https
        }),
{
    if !before.contains(':') {
        the_first_separator_splits(before, ':', path);
    }
    reveal_strlit(":");
    assert(before.push(':') =~= before + ":"@);
    reveal_strlit("file");
    reveal_strlit("git");
    reveal_strlit("http");
    reveal_strlit("https");
    reveal_strlit("ssh");
    assert("file"@.len() == 4 && "git"@.len() == 3 && "https"@.len() == 5 && "ssh"@.len() == 3);
    assert("file"@[0] == 'f' && "http"@[0] == 'h');
}

/// A URL ends in `.git`, slashes behind it aside, exactly where its suffix is kept.
pub proof fn git_suffixes_are_kept(url: Seq<char>, slashes: Seq<char>)
    requires
        url.len() > 0 ==> url.last() != '/',
        forall|i: int| 0 <= i < slashes.len() ==> #[trigger] slashes[i] == '/',
    ensures
        git_suffix(url + slashes) == if ends_with(url, ".git"@) {
            ".git"@
        } else {
            ""@
        },
{
    let s = url + slashes;
    let p = char_fn('/');
    let n = s.len() as int;
    lemma_skipped_back(s, p, 0, n);
    let b = skip_back(s, p, 0, n);
    if b < url.len() {
        assert(p(s[url.len() - 1]));
    }
    if b > url.len() {
        assert(s[b - 1] == slashes[b - 1 - url.len()]);
    }
    assert(s.subrange(0, b) =~= url);
}

} // verus!
