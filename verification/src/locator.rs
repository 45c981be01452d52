//! Locators: the stable name `<authority>/<remote-path>` of a hosted
//! repository, and the place that it has under a root directory.
use crate::error::{outcome, Error};
use crate::paths::{join, join_all, join_parts, join_path};
use crate::placement::{keyed, parsed_locators_can_be_read_again, rereadable};
use crate::text::{
    before_suffix, char_fn, contains_char, contains_str, contains_text, debug_of, debug_text,
    decimal, decimal_text, lower, lowercase, opt_view, pair_view, rsplit_once, split, split_first,
    split_last, split_once, split_text, strip_suffix, trim, trim_by, trim_char, trim_end_by,
    trim_end_char, trim_text, views,
};
use vstd::prelude::*;

verus! {

#[derive(Debug, PartialEq, Eq)]
pub struct Locator {
    pub authority: String,
    pub remote_path: String,
}

pub struct LocatorView {
    pub authority: Seq<char>,
    pub remote_path: Seq<char>,
}

impl View for Locator {
    type V = LocatorView;

    open spec fn view(&self) -> LocatorView {
        LocatorView { authority: self.authority@, remote_path: self.remote_path@ }
    }
}

impl Clone for Locator {
    fn clone(&self) -> (r: Self)
        ensures
            r@ == self@,
    {
        Locator { authority: self.authority.clone(), remote_path: self.remote_path.clone() }
    }
}

/// The parts of a URL that a locator is made of.
#[derive(Debug)]
pub struct UrlParts {
    pub scheme: String,
    pub host: Option<String>,
    pub port: Option<u16>,
    pub path: String,
}

/// Scheme, host, port where it is not the scheme's own, path.
pub type UrlView = (Seq<char>, Option<Seq<char>>, Option<u16>, Seq<char>);

impl View for UrlParts {
    type V = UrlView;

    open spec fn view(&self) -> UrlView {
        (self.scheme@, opt_view(self.host), self.port, self.path@)
    }
}

pub open spec fn url_view(url: Option<UrlParts>) -> Option<UrlView> {
    match url {
        Some(parts) => Some(parts@),
        None => None,
    }
}

/// The parts of the URL that a text is, by the URL Standard; none where it is
/// not a URL.
pub uninterp spec fn parsed_url(input: Seq<char>) -> Option<
    (Seq<char>, Option<Seq<char>>, Option<u16>, Seq<char>),
>;

/// The host of a URL, if it has one, holds no slash.
pub open spec fn slashless_host(url: Option<UrlView>) -> bool {
    match url {
        Some((_, Some(host), _, _)) => !host.contains('/'),
        _ => true,
    }
}

/// `url::Url::parse`, with what `scheme`, `host_str`, `port` and `path` give
/// of the URL. How a text is parsed is the `url` crate's; the result depends on
/// the text alone. A host holds no slash: the URL Standard forbids it in domains
/// and in opaque hosts, and addresses have none.
#[verifier::external_body]
pub(crate) fn parse_url_text(input: &str) -> (r: Option<UrlParts>)
    ensures
        url_view(r) == parsed_url(input@),
        slashless_host(url_view(r)),
{
    match url::Url::parse(input) {
        Ok(url) => Some(
            UrlParts {
                scheme: url.scheme().to_string(),
                host: url.host_str().map(str::to_string),
                port: url.port(),
                path: url.path().to_string(),
            },
        ),
        Err(_) => None,
    }
}

/// A piece of a remote path that would leave the place it names.
pub open spec fn unsafe_component(c: Seq<char>) -> bool {
    c == ""@ || c == "."@ || c == ".."@
}

pub open spec fn has_unsafe_component(remote_path: Seq<char>) -> bool {
    exists|i: int|
        0 <= i < split(remote_path, '/').len() && unsafe_component(
            #[trigger] split(remote_path, '/')[i],
        )
}

/// The refusal of a remote path, if it is refused.
pub open spec fn remote_path_refusal(remote_path: Seq<char>) -> Option<Seq<char>> {
    if remote_path.len() == 0 {
        Some("remote path is empty"@)
    } else if has_unsafe_component(remote_path) {
        Some("remote path contains unsafe component: "@ + remote_path)
    } else {
        None
    }
}

pub fn validate_remote_path(remote_path: &str) -> (r: Result<(), Error>)
    ensures
        r is Ok <==> remote_path_refusal(remote_path@) is None,
        r matches Err(e) ==> remote_path_refusal(remote_path@) == Some(e@),
{
    if remote_path.is_empty() {
        return Err(Error::fixed("remote path is empty"));
    }
    let parts = split_text(remote_path, '/');
    let mut i: usize = 0;
    while i < parts.len()
        invariant
            i <= parts@.len(),
            remote_path@.len() > 0,
            views(parts@) == split(remote_path@, '/'),
            forall|j: int| 0 <= j < i ==> !unsafe_component(#[trigger] views(parts@)[j]),
        decreases parts@.len() - i,
    {
        let part = parts[i].as_str();
        proof {
            assert(views(parts@)[i as int] == part@);
        }
        if part.eq("") || part.eq(".") || part.eq("..") {
            return Err(Error::about("remote path contains unsafe component: ", remote_path));
        }
        i += 1;
    }
    Ok(())
}

/// An authority as it is kept: trimmed, without slashes at its end, lowercase.
pub open spec fn normal_authority(authority: Seq<char>) -> Seq<char> {
    lower(trim_end_by(trim_text(authority), char_fn('/')))
}

/// A remote path as it is kept: trimmed, without slashes at its ends, without
/// one `.git` at its end.
pub open spec fn normal_remote_path(remote_path: Seq<char>) -> Seq<char> {
    let bare = trim_by(trim_text(remote_path), char_fn('/'));
    match before_suffix(bare, ".git"@) {
        Some(stripped) => stripped,
        None => bare,
    }
}

pub open spec fn new_locator(authority: Seq<char>, remote_path: Seq<char>) -> Result<
    LocatorView,
    Seq<char>,
> {
    let a = normal_authority(authority);
    let p = normal_remote_path(remote_path);
    if a.len() == 0 || a.contains('/') {
        Err("invalid authority: "@ + debug_text(a))
    } else {
        match remote_path_refusal(p) {
            Some(text) => Err(text),
            None => Ok(LocatorView { authority: a, remote_path: p }),
        }
    }
}

/// The two sides of an scp-style address `[user@]host:path`.
pub open spec fn scp_like(input: Seq<char>) -> Option<(Seq<char>, Seq<char>)> {
    if contains_text(input, "://"@) {
        None
    } else {
        match split_first(input, ':') {
            Some((left, right)) => if left.len() == 0 || right.len() == 0 || left.contains('/') {
                None
            } else {
                match split_last(left, '@') {
                    Some((_, host)) => Some((host, right)),
                    None => Some((left, right)),
                }
            },
            None => None,
        }
    }
}

pub fn parse_scp_like(input: &str) -> (r: Option<(String, String)>)
    ensures
        pair_view(r) == scp_like(input@),
{
    if contains_str(input, "://") {
        return None;
    }
    match split_once(input, ':') {
        Some((left, right)) => {
            if left.as_str().is_empty() || right.as_str().is_empty() || contains_char(&left, '/') {
                None
            } else {
                match rsplit_once(&left, '@') {
                    Some((_, host)) => Some((host, right)),
                    None => Some((left, right)),
                }
            }
        },
        None => None,
    }
}

/// The locator of a URL, from its parts.
pub open spec fn url_locator(input: Seq<char>, url: Option<UrlView>) -> Result<
    LocatorView,
    Seq<char>,
> {
    match url {
        None => Err("invalid Git URL: "@ + input),
        Some((scheme, host, port, path)) => {
            let name = match host {
                Some(h) => Some(h),
                None => if scheme == "file"@ {
                    Some("localhost"@)
                } else {
                    None
                },
            };
            match name {
                None => Err("URL does not include an authority: "@ + input),
                Some(h) => match port {
                    Some(n) => new_locator(lower(h) + ":"@ + decimal(n as nat), path),
                    None => new_locator(lower(h), path),
                },
            }
        },
    }
}

/// The locator that a text names: a URL, whose parts are `url`, an scp-style
/// address, or `<authority>/<remote-path>`.
pub open spec fn parsed_locator(input: Seq<char>, url: Option<UrlView>) -> Result<
    LocatorView,
    Seq<char>,
> {
    let t = trim_text(input);
    if t.len() == 0 {
        Err("repository locator is empty"@)
    } else if contains_text(t, "://"@) {
        url_locator(t, url)
    } else {
        match scp_like(t) {
            Some((authority, path)) => new_locator(authority, path),
            None => match split_first(t, '/') {
                Some((authority, path)) => new_locator(authority, path),
                None => Err("expected URL, scp-style URL, or <authority>/<remote-path>"@),
            },
        }
    }
}

impl Locator {
    pub fn new(authority: &str, remote_path: &str) -> (r: Result<Locator, Error>)
        ensures
            outcome(r) == new_locator(authority@, remote_path@),
    {
        let authority = lowercase(&trim_end_char(&trim(authority), '/'));
        if authority.as_str().is_empty() || contains_char(&authority, '/') {
            return Err(Error::about("invalid authority: ", &debug_of(&authority)));
        }
        let bare = trim_char(&trim(remote_path), '/');
        let remote_path = match strip_suffix(&bare, ".git") {
            Some(stripped) => stripped,
            None => bare,
        };
        match validate_remote_path(&remote_path) {
            Ok(()) => Ok(Locator { authority, remote_path }),
            Err(error) => Err(error),
        }
    }

    /// The locator of the URL `input`, whose parts are `url`.
    pub fn from_url(input: &str, url: Option<UrlParts>) -> (r: Result<Locator, Error>)
        ensures
            outcome(r) == url_locator(input@, url_view(url)),
    {
        let url = match url {
            Some(url) => url,
            None => return Err(Error::about("invalid Git URL: ", input)),
        };
        let host = match url.host {
            Some(host) => host,
            None => if url.scheme.as_str().eq("file") {
                "localhost".to_owned()
            } else {
                return Err(Error::about("URL does not include an authority: ", input));
            },
        };
        let mut authority = lowercase(&host);
        if let Some(port) = url.port {
            authority.append(":");
            authority.append(&decimal_text(port as u128));
        }
        Locator::new(&authority, &url.path)
    }

    /// The locator that `input` names, where `url` gives the parts of the
    /// trimmed text as a URL.
    pub fn parse_parts(input: &str, url: Option<UrlParts>) -> (r: Result<Locator, Error>)
        ensures
            outcome(r) == parsed_locator(input@, url_view(url)),
    {
        let input = trim(input);
        if input.as_str().is_empty() {
            return Err(Error::fixed("repository locator is empty"));
        }
        if contains_str(&input, "://") {
            return Locator::from_url(&input, url);
        }
        if let Some((authority, remote_path)) = parse_scp_like(&input) {
            return Locator::new(&authority, &remote_path);
        }
        match split_once(&input, '/') {
            Some((authority, remote_path)) => Locator::new(&authority, &remote_path),
            None => Err(
                Error::fixed("expected URL, scp-style URL, or <authority>/<remote-path>"),
            ),
        }
    }

    /// The locator that `input` names. Its key names it too, unless it has a port
    /// or its remote path is one that is cut when it is read.
    pub fn parse(input: &str) -> (r: Result<Locator, Error>)
        ensures
            outcome(r) == parsed_locator(input@, parsed_url(trim_text(input@))),
            r matches Ok(locator) ==> (keyed(locator@) ==> rereadable(locator@)),
    {
        let url = parse_url_text(&trim(input));
        proof {
            parsed_locators_can_be_read_again(input@, url_view(url));
        }
        Locator::parse_parts(input, url)
    }

    pub fn key(&self) -> (r: String)
        ensures
            r@ == self@.key(),
    {
        let mut r = self.authority.clone();
        r.append("/");
        r.append(&self.remote_path);
        r
    }

    pub fn same(&self, other: &Locator) -> (r: bool)
        ensures
            r == (self@ == other@),
    {
        self.authority == other.authority && self.remote_path == other.remote_path
    }
}

impl LocatorView {
    pub open spec fn key(self) -> Seq<char> {
        self.authority + "/"@ + self.remote_path
    }

    /// What parsing promises of a locator.
    pub open spec fn valid(self) -> bool {
        &&& self.authority.len() > 0
        &&& !self.authority.contains('/')
        &&& lower(self.authority) == self.authority
        &&& remote_path_refusal(self.remote_path) is None
    }
}

/// The place of a repository under `root`.
pub open spec fn placed(root: Seq<char>, locator: LocatorView) -> Seq<char> {
    join_all(join_path(root, locator.authority), split(locator.remote_path, '/'))
}

pub fn locator_path(root: &str, locator: &Locator) -> (r: String)
    ensures
        r@ == placed(root@, locator@),
{
    join_parts(&join(root, &locator.authority), &split_text(&locator.remote_path, '/'))
}

} // verus!
