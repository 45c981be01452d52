//! The names that Git remotes, branches and refs get from a locator, and the
//! URL that a remote of a relocated repository gets.
use crate::locator::{parse_scp_like, parse_url_text, parsed_url, scp_like, Locator, LocatorView};
use crate::text::{
    char_fn, chars_of, ends_with, ends_with_str, opt_view, parse_number, parsed_number, rsplit_once,
    split_first, split_last, split_once, trim, trim_by, trim_char, trim_end_by, trim_end_char,
    trim_text,
};
use vstd::prelude::*;

verus! {

/// A character that stays as it is in the name of a remote.
pub open spec fn plain(c: char) -> bool {
    ||| 'a' <= c && c <= 'z'
    ||| 'A' <= c && c <= 'Z'
    ||| '0' <= c && c <= '9'
    ||| c == '.'
    ||| c == '_'
}

/// `s` with each run of other characters replaced by one dash.
pub open spec fn dashed(s: Seq<char>) -> Seq<char>
    decreases s.len(),
{
    if s.len() == 0 {
        seq![]
    } else {
        let before = dashed(s.drop_last());
        if plain(s.last()) {
            before.push(s.last())
        } else if before.len() > 0 && before.last() == '-' {
            before
        } else {
            before.push('-')
        }
    }
}

pub open spec fn sanitized(s: Seq<char>) -> Seq<char> {
    trim_by(dashed(s), char_fn('-'))
}

pub fn sanitize_remote_name(value: &str) -> (r: String)
    ensures
        r@ == sanitized(value@),
{
    let v = chars_of(value);
    let mut name = String::new();
    let mut previous_was_dash = false;
    let mut i: usize = 0;
    while i < v.len()
        invariant
            v@ == value@,
            i <= v@.len(),
            name@ == dashed(value@.take(i as int)),
            previous_was_dash == (name@.len() > 0 && name@.last() == '-'),
        decreases v@.len() - i,
    {
        let c = v[i];
        proof {
            assert(value@.take(i + 1).drop_last() =~= value@.take(i as int));
        }
        if ('a' <= c && c <= 'z') || ('A' <= c && c <= 'Z') || ('0' <= c && c <= '9') || c == '.'
            || c == '_' {
            name.push(c);
            previous_was_dash = false;
        } else if !previous_was_dash {
            name.push('-');
            previous_was_dash = true;
        }
        i += 1;
    }
    proof {
        assert(value@.take(i as int) =~= value@);
    }
    trim_char(&name, '-')
}

/// The remote that the canonical repository has for a fork or mirror.
pub open spec fn remote_name(relationship: Seq<char>, locator: LocatorView) -> Seq<char> {
    relationship + "-"@ + sanitized(locator.key())
}

pub fn related_remote_name(relationship: &str, locator: &Locator) -> (r: String)
    ensures
        r@ == remote_name(relationship@, locator@),
{
    let mut r = relationship.to_owned();
    r.append("-");
    r.append(&sanitize_remote_name(&locator.key()));
    r
}

pub fn fork_remote_name(locator: &Locator) -> (r: String)
    ensures
        r@ == remote_name("fork"@, locator@),
{
    related_remote_name("fork", locator)
}

pub open spec fn plural_of(relationship: Seq<char>) -> Seq<char> {
    if relationship == "mirror"@ {
        "mirrors"@
    } else {
        "forks"@
    }
}

fn plural(relationship: &str) -> (r: &'static str)
    ensures
        r@ == plural_of(relationship@),
{
    if relationship.eq("mirror") {
        "mirrors"
    } else {
        "forks"
    }
}

/// The local branch that a fork or mirror worktree is on.
pub open spec fn local_branch(
    relationship: Seq<char>,
    locator: LocatorView,
    default_branch: Seq<char>,
) -> Seq<char> {
    "repo-manager/"@ + plural_of(relationship) + "/"@ + sanitized(locator.key()) + "/"@
        + default_branch
}

pub fn dependent_local_branch(
    relationship: &str,
    dependent_locator: &Locator,
    default_branch: &str,
) -> (r: String)
    ensures
        r@ == local_branch(relationship@, dependent_locator@, default_branch@),
{
    let mut r = "repo-manager/".to_owned();
    r.append(plural(relationship));
    r.append("/");
    r.append(&sanitize_remote_name(&dependent_locator.key()));
    r.append("/");
    r.append(default_branch);
    r
}

/// Where the refs of a fork or mirror view stand in the canonical repository.
pub open spec fn view_refs(relationship: Seq<char>, locator: LocatorView) -> Seq<char> {
    "refs/repo-manager/"@ + plural_of(relationship) + "/"@ + sanitized(locator.key())
}

pub fn repo_view_refs_prefix(relationship: &str, locator: &Locator) -> (r: String)
    ensures
        r@ == view_refs(relationship@, locator@),
{
    let mut r = "refs/repo-manager/".to_owned();
    r.append(plural(relationship));
    r.append("/");
    r.append(&sanitize_remote_name(&locator.key()));
    r
}

/// The host and the port of an authority.
pub open spec fn host_and_port(authority: Seq<char>) -> (Seq<char>, Option<u16>) {
    match split_last(authority, ':') {
        Some((host, port)) => match parsed_number(port, 65535) {
            Some(n) => (host, Some(n as u16)),
            None => (authority, None),
        },
        None => (authority, None),
    }
}

pub fn split_authority_port(authority: &str) -> (r: (String, Option<u16>))
    ensures
        (r.0@, r.1) == host_and_port(authority@),
{
    if let Some((host, port)) = rsplit_once(authority, ':') {
        if let Some(n) = parse_number(&port, 65535) {
            return (host, Some(n as u16));
        }
    }
    (authority.to_owned(), None)
}

/// The text of the URL `url` with another path.
pub uninterp spec fn url_with_path(url: Seq<char>, path: Seq<char>) -> Option<Seq<char>>;

/// `url::Url::set_path` on the URL that `url` is, written out again; none where
/// it is not a URL. The result depends on the two texts alone.
#[verifier::external_body]
fn set_url_path(url: &str, path: &str) -> (r: Option<String>)
    ensures
        opt_view(r) == url_with_path(url@, path@),
{
    let mut url = url::Url::parse(url).ok()?;
    url.set_path(path);
    Some(url.to_string())
}

/// The text of the URL `url` with another host, port and path.
pub uninterp spec fn url_with_location(
    url: Seq<char>,
    host: Seq<char>,
    port: Option<u16>,
    path: Seq<char>,
) -> Option<Seq<char>>;

/// `url::Url::set_host`, `set_port` and `set_path` on the URL that `url` is,
/// written out again; none where it is not a URL or takes no such host or port.
/// The result depends on the arguments alone.
#[verifier::external_body]
fn set_url_location(url: &str, host: &str, port: Option<u16>, path: &str) -> (r: Option<String>)
    ensures
        opt_view(r) == url_with_location(url@, host@, port, path@),
{
    let mut url = url::Url::parse(url).ok()?;
    url.set_host(Some(host)).ok()?;
    url.set_port(port).ok()?;
    url.set_path(path);
    Some(url.to_string())
}

/// `.git` where the URL of a remote ends with it.
pub open spec fn git_suffix(url: Seq<char>) -> Seq<char> {
    if ends_with(trim_end_by(url, char_fn('/')), ".git"@) {
        ".git"@
    } else {
        ""@
    }
}

/// The path that a relocated URL gets.
pub open spec fn url_path(locator: LocatorView, suffix: Seq<char>) -> Seq<char> {
    "/"@ + locator.remote_path + suffix
}

pub open spec fn default_url(locator: LocatorView) -> Seq<char> {
    "https://"@ + locator.authority + "/"@ + locator.remote_path + ".git"@
}

/// The URL of a remote for `locator`, in the style of the URL that it has.
/// `url` is the scheme of that one as a URL, `at_path` and `at_location` its
/// text with the path, and with host, port and path, of `locator`.
pub open spec fn relocated_url(
    existing: Option<Seq<char>>,
    locator: LocatorView,
    scheme: Option<Seq<char>>,
    at_path: Option<Seq<char>>,
    at_location: Option<Seq<char>>,
) -> Seq<char> {
    match existing {
        None => default_url(locator),
        Some(text) => {
            let t = trim_text(text);
            if scp_like(t) is Some {
                (split_first(t, ':')->0).0 + ":"@ + locator.remote_path + git_suffix(t)
            } else if scheme == Some("file"@) && at_path is Some {
                at_path->0
            } else if (scheme == Some("git"@) || scheme == Some("http"@) || scheme == Some("https"@)
                || scheme == Some("ssh"@)) && at_location is Some {
                at_location->0
            } else {
                default_url(locator)
            }
        },
    }
}

/// `relocated_url` with what the `url` crate makes of the existing URL.
pub open spec fn remote_url(existing: Option<Seq<char>>, locator: LocatorView) -> Seq<char> {
    let t = match existing {
        Some(text) => trim_text(text),
        None => seq![],
    };
    let path = url_path(locator, git_suffix(t));
    let place = host_and_port(locator.authority);
    relocated_url(
        existing,
        locator,
        match parsed_url(t) {
            Some(parts) => Some(parts.0),
            None => None,
        },
        url_with_path(t, path),
        url_with_location(t, place.0, place.1, path),
    )
}

fn suffix_of(url: &str) -> (r: &'static str)
    ensures
        r@ == git_suffix(url@),
{
    if ends_with_str(&trim_end_char(url, '/'), ".git") {
        ".git"
    } else {
        ""
    }
}

pub open spec fn str_view(o: Option<&str>) -> Option<Seq<char>> {
    match o {
        Some(x) => Some(x@),
        None => None,
    }
}

/// The URL of a remote for `locator`, where the existing URL has the scheme
/// `scheme`, and `at_path` and `at_location` are what it becomes.
pub fn remote_url_from(
    existing_url: Option<&str>,
    locator: &Locator,
    scheme: Option<String>,
    at_path: Option<String>,
    at_location: Option<String>,
) -> (r: String)
    ensures
        r@ == relocated_url(
            str_view(existing_url),
            locator@,
            opt_view(scheme),
            opt_view(at_path),
            opt_view(at_location),
        ),
{
    proof {
        reveal_strlit("file");
        reveal_strlit("git");
        reveal_strlit("http");
        reveal_strlit("https");
        reveal_strlit("ssh");
        assert("file"@[0] != "http"@[0]);
    }
    if let Some(existing) = existing_url {
        let trimmed = trim(existing);
        if parse_scp_like(&trimmed).is_some() {
            if let Some((prefix, _)) = split_once(&trimmed, ':') {
                let mut r = prefix;
                r.append(":");
                r.append(&locator.remote_path);
                r.append(suffix_of(&trimmed));
                return r;
            }
        }
        if let Some(scheme) = scheme {
            if scheme.as_str().eq("file") {
                if let Some(url) = at_path {
                    return url;
                }
            } else if scheme.as_str().eq("git") || scheme.as_str().eq("http")
                || scheme.as_str().eq("https") || scheme.as_str().eq("ssh") {
                if let Some(url) = at_location {
                    return url;
                }
            }
        }
    }
    let mut r = "https://".to_owned();
    r.append(&locator.authority);
    r.append("/");
    r.append(&locator.remote_path);
    r.append(".git");
    r
}

pub fn remote_url_for_locator(existing_url: Option<&str>, locator: &Locator) -> (r: String)
    ensures
        r@ == remote_url(str_view(existing_url), locator@),
{
    let text = match existing_url {
        Some(existing) => trim(existing),
        None => String::new(),
    };
    let mut path = "/".to_owned();
    path.append(&locator.remote_path);
    path.append(suffix_of(&text));
    let (host, port) = split_authority_port(&locator.authority);
    let scheme = match parse_url_text(&text) {
        Some(url) => Some(url.scheme),
        None => None,
    };
    let at_path = set_url_path(&text, &path);
    let at_location = set_url_location(&text, &host, port, &path);
    remote_url_from(existing_url, locator, scheme, at_path, at_location)
}

} // verus!
