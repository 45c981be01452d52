//! Forges: which one hosts an authority, what it is asked in order to create a
//! repository there, and what its answers mean.
use crate::cli::CreateArgs;
use crate::config::{forge_at, Config, ForgeBackend, ForgeConfigView, RepoVisibility};
use crate::error::{outcome, Error};
use crate::json::{found_view, json_at, json_lookup, json_string, quoted, JsonFound, JsonFoundView};
use crate::locator::{new_locator, Locator, LocatorView};
use crate::paths::{join, join_all, join_parts, join_path, lemma_split_not_empty};
use crate::repair::opt_locator;
use crate::text::{
    char_fn, chars_of, decimal, decimal_text, join_texts, join_with, lower, lowercase, one_text,
    opt_view, owned, parse_number, parsed_number, rsplit_once_text, split, split_last_text,
    split_text, string_between, trim, trim_end_by, trim_end_char, trim_start_by, trim_start_char,
    trim_text, views,
};
use vstd::prelude::*;

verus! {

broadcast use crate::text::lemma_views_push;

/// A forge, ready to be asked.
#[derive(Debug)]
pub struct CreateForge {
    pub backend: ForgeBackend,
    /// The environment variables that may hold the access token.
    pub token_envs: Vec<String>,
    pub api_base_url: String,
}

#[verifier::ext_equal]
pub struct CreateForgeView {
    pub backend: ForgeBackend,
    pub token_envs: Seq<Seq<char>>,
    pub api_base_url: Seq<char>,
}

impl View for CreateForge {
    type V = CreateForgeView;

    open spec fn view(&self) -> CreateForgeView {
        CreateForgeView {
            backend: self.backend,
            token_envs: views(self.token_envs@),
            api_base_url: self.api_base_url@,
        }
    }
}

/// Who owns a repository at a forge, and its name there.
#[derive(Debug, PartialEq, Eq)]
pub struct RemoteRepoParts {
    pub owner: String,
    pub name: String,
}

impl View for RemoteRepoParts {
    type V = (Seq<char>, Seq<char>);

    open spec fn view(&self) -> (Seq<char>, Seq<char>) {
        (self.owner@, self.name@)
    }
}

/// A request that is to be sent.
#[derive(Debug)]
pub struct HttpRequestPlan {
    pub method: &'static str,
    pub url: String,
    pub headers: Vec<(String, String)>,
    pub body: Option<String>,
}

#[verifier::ext_equal]
pub struct HttpRequestView {
    pub method: Seq<char>,
    pub url: Seq<char>,
    pub headers: Seq<(Seq<char>, Seq<char>)>,
    pub body: Option<Seq<char>>,
}

pub open spec fn header_views(headers: Seq<(String, String)>) -> Seq<(Seq<char>, Seq<char>)> {
    headers.map_values(|header: (String, String)| (header.0@, header.1@))
}

impl View for HttpRequestPlan {
    type V = HttpRequestView;

    open spec fn view(&self) -> HttpRequestView {
        HttpRequestView {
            method: self.method@,
            url: self.url@,
            headers: header_views(self.headers@),
            body: opt_view(self.body),
        }
    }
}

/// What came back.
#[derive(Debug)]
pub struct HttpResponse {
    pub status: u16,
    pub body: String,
}

impl View for HttpResponse {
    type V = (u16, Seq<char>);

    open spec fn view(&self) -> (u16, Seq<char>) {
        (self.status, self.body@)
    }
}

/// A flag on the command line decides; otherwise the configured default does.
pub open spec fn visibility_for(
    default: RepoVisibility,
    private: bool,
    public: bool,
) -> RepoVisibility {
    if private {
        RepoVisibility::Private
    } else if public {
        RepoVisibility::Public
    } else {
        default
    }
}

pub fn create_visibility(config: &Config, args: &CreateArgs) -> (r: RepoVisibility)
    ensures
        r == visibility_for(config.create_default_visibility, args.private, args.public),
{
    if args.private {
        RepoVisibility::Private
    } else if args.public {
        RepoVisibility::Public
    } else {
        config.create_default_visibility
    }
}

pub open spec fn default_token_name(backend: ForgeBackend) -> Seq<char> {
    match backend {
        ForgeBackend::Github => "GITHUB_TOKEN"@,
        ForgeBackend::Sourcehut => "SOURCEHUT_TOKEN"@,
        ForgeBackend::Forgejo => "FORGEJO_TOKEN"@,
    }
}

pub fn default_token_env(backend: ForgeBackend) -> (r: &'static str)
    ensures
        r@ == default_token_name(backend),
{
    match backend {
        ForgeBackend::Github => "GITHUB_TOKEN",
        ForgeBackend::Sourcehut => "SOURCEHUT_TOKEN",
        ForgeBackend::Forgejo => "FORGEJO_TOKEN",
    }
}

pub open spec fn default_base_url(backend: ForgeBackend, authority: Seq<char>) -> Seq<char> {
    match backend {
        ForgeBackend::Github => "https://api.github.com"@,
        ForgeBackend::Sourcehut => "https://"@ + authority + "/query"@,
        ForgeBackend::Forgejo => "https://"@ + authority,
    }
}

pub fn default_api_base_url(backend: ForgeBackend, authority: &str) -> (r: String)
    ensures
        r@ == default_base_url(backend, authority@),
{
    match backend {
        ForgeBackend::Github => "https://api.github.com".to_owned(),
        ForgeBackend::Sourcehut => {
            let mut url = "https://".to_owned();
            url.append(authority);
            url.append("/query");
            url
        },
        ForgeBackend::Forgejo => {
            let mut url = "https://".to_owned();
            url.append(authority);
            url
        },
    }
}

/// The forge at an authority: the configured one, or one of those that are known
/// without being configured.
pub open spec fn forge_for(
    forges: Map<Seq<char>, ForgeConfigView>,
    authority: Seq<char>,
) -> Result<CreateForgeView, Seq<char>> {
    if forges.contains_key(authority) {
        let forge = forges[authority];
        Ok(
            CreateForgeView {
                backend: forge.backend,
                token_envs: seq![
                    match forge.token_env {
                        Some(name) => name,
                        None => default_token_name(forge.backend),
                    },
                ],
                api_base_url: match forge.api_base_url {
                    Some(url) => url,
                    None => default_base_url(forge.backend, authority),
                },
            },
        )
    } else if authority == "github.com"@ {
        Ok(
            CreateForgeView {
                backend: ForgeBackend::Github,
                token_envs: seq!["GITHUB_TOKEN"@],
                api_base_url: "https://api.github.com"@,
            },
        )
    } else if authority == "git.sr.ht"@ {
        Ok(
            CreateForgeView {
                backend: ForgeBackend::Sourcehut,
                token_envs: seq!["SOURCEHUT_TOKEN"@, "SRHT_TOKEN"@],
                api_base_url: "https://git.sr.ht/query"@,
            },
        )
    } else {
        Err(
            "no forge backend configured for "@ + authority
                + "; add it under `forges` in repo-manager config"@,
        )
    }
}

pub fn resolve_create_forge(config: &Config, locator: &Locator) -> (r: Result<CreateForge, Error>)
    ensures
        outcome(r) == forge_for(config@.forges, locator@.authority),
{
    let authority = locator.authority.as_str();
    match forge_at(&config.forges, authority) {
        Some(forge) => {
            let token_env = match &forge.token_env {
                Some(name) => name.clone(),
                None => default_token_env(forge.backend).to_owned(),
            };
            let api_base_url = match &forge.api_base_url {
                Some(url) => url.clone(),
                None => default_api_base_url(forge.backend, authority),
            };
            let token_envs = one_text(token_env);
            proof {
                assert(views(token_envs@) =~= seq![token_env@]);
            }
            return Ok(CreateForge { backend: forge.backend, token_envs, api_base_url });
        },
        None => {},
    }
    if authority.eq("github.com") {
        let token_envs = owned(&["GITHUB_TOKEN"]);
        proof {
            assert(views(token_envs@) =~= seq!["GITHUB_TOKEN"@]);
        }
        Ok(
            CreateForge {
                backend: ForgeBackend::Github,
                token_envs,
                api_base_url: "https://api.github.com".to_owned(),
            },
        )
    } else if authority.eq("git.sr.ht") {
        let token_envs = owned(&["SOURCEHUT_TOKEN", "SRHT_TOKEN"]);
        proof {
            assert(views(token_envs@) =~= seq!["SOURCEHUT_TOKEN"@, "SRHT_TOKEN"@]);
        }
        Ok(
            CreateForge {
                backend: ForgeBackend::Sourcehut,
                token_envs,
                api_base_url: "https://git.sr.ht/query".to_owned(),
            },
        )
    } else {
        let mut text = "no forge backend configured for ".to_owned();
        text.append(authority);
        text.append("; add it under `forges` in repo-manager config");
        Err(Error::new(text))
    }
}

/// What creating a repository starts from.
#[derive(Debug)]
pub struct CreatePlan {
    pub visibility: RepoVisibility,
    pub forge: CreateForge,
}

impl View for CreatePlan {
    type V = (RepoVisibility, CreateForgeView);

    open spec fn view(&self) -> (RepoVisibility, CreateForgeView) {
        (self.visibility, self.forge@)
    }
}

/// Whether a repository can be created, and if so how visible and where.
pub open spec fn create_start(
    forges: Map<Seq<char>, ForgeConfigView>,
    authority: Seq<char>,
    visibility: RepoVisibility,
    path: Seq<char>,
    occupied: bool,
) -> Result<(RepoVisibility, CreateForgeView), Seq<char>> {
    if occupied {
        Err("target path already exists: "@ + path)
    } else {
        match forge_for(forges, authority) {
            Ok(forge) => Ok((visibility, forge)),
            Err(message) => Err(message),
        }
    }
}

/// Creating starts only where nothing stands at the place of the clone, and at a
/// forge that is known. `occupied` says whether something stands at `path`.
pub fn plan_create(
    config: &Config,
    locator: &Locator,
    args: &CreateArgs,
    path: &str,
    occupied: bool,
) -> (r: Result<CreatePlan, Error>)
    ensures
        outcome(r) == create_start(
            config@.forges,
            locator@.authority,
            visibility_for(config.create_default_visibility, args.private, args.public),
            path@,
            occupied,
        ),
{
    if occupied {
        return Err(Error::about("target path already exists: ", path));
    }
    let visibility = create_visibility(config, args);
    match resolve_create_forge(config, locator) {
        Ok(forge) => Ok(CreatePlan { visibility, forge }),
        Err(error) => Err(error),
    }
}

/// The first value that is set and not blank.
pub open spec fn first_token(values: Seq<Option<String>>) -> Option<Seq<char>>
    decreases values.len(),
{
    if values.len() == 0 {
        None
    } else if values[0] is Some && trim_text(values[0]->0@).len() > 0 {
        Some(values[0]->0@)
    } else {
        first_token(values.skip(1))
    }
}

/// The access token among the values of the forge's environment variables.
pub fn read_forge_token(token_envs: &Vec<String>, values: &Vec<Option<String>>) -> (r: Result<
    String,
    Error,
>)
    ensures
        outcome(r) == match first_token(values@) {
            Some(token) => Ok::<Seq<char>, Seq<char>>(token),
            None => Err(
                "missing forge token; set one of: "@ + join_texts(views(token_envs@), ", "@),
            ),
        },
{
    let mut i: usize = 0;
    proof {
        assert(values@.skip(0) =~= values@);
    }
    while i < values.len()
        invariant
            i <= values@.len(),
            first_token(values@.skip(i as int)) == first_token(values@),
        decreases values@.len() - i,
    {
        proof {
            assert(values@.skip(i as int)[0] == values@[i as int]);
            assert(values@.skip(i as int).skip(1) =~= values@.skip(i + 1));
        }
        match &values[i] {
            Some(token) => if !trim(token.as_str()).as_str().is_empty() {
                return Ok(token.clone());
            },
            None => {},
        }
        i += 1;
    }
    proof {
        assert(values@.skip(i as int).len() == 0);
    }
    Err(
        Error::about(
            "missing forge token; set one of: ",
            join_with(token_envs, ", ").as_str(),
        ),
    )
}

/// A remote path of exactly two parts, neither of them empty.
pub open spec fn owner_repo(locator: LocatorView) -> Result<(Seq<char>, Seq<char>), Seq<char>> {
    let parts = split(locator.remote_path, '/');
    if parts.len() == 2 && parts[0].len() > 0 && parts[1].len() > 0 {
        Ok((parts[0], parts[1]))
    } else {
        Err(
            "repository URL for "@ + locator.authority + " must have exactly <owner>/<repo>"@,
        )
    }
}

pub fn parse_owner_repo(locator: &Locator) -> (r: Result<RemoteRepoParts, Error>)
    ensures
        outcome(r) == owner_repo(locator@),
{
    let parts = split_text(locator.remote_path.as_str(), '/');
    if parts.len() == 2 && !parts[0].as_str().is_empty() && !parts[1].as_str().is_empty() {
        Ok(RemoteRepoParts { owner: parts[0].clone(), name: parts[1].clone() })
    } else {
        let mut text = "repository URL for ".to_owned();
        text.append(locator.authority.as_str());
        text.append(" must have exactly <owner>/<repo>");
        Err(Error::new(text))
    }
}

/// A SourceHut path names the owner after a tilde.
pub open spec fn sourcehut_repo(locator: LocatorView) -> Result<
    (Seq<char>, Seq<char>),
    Seq<char>,
> {
    match owner_repo(locator) {
        Err(message) => Err(message),
        Ok((owner, name)) => if owner[0] == '~' {
            Ok((owner.skip(1), name))
        } else {
            Err("SourceHut repository path must be ~<user>/<repo>, got "@ + locator.key())
        },
    }
}

pub fn parse_sourcehut_repo(locator: &Locator) -> (r: Result<RemoteRepoParts, Error>)
    ensures
        outcome(r) == sourcehut_repo(locator@),
{
    let parts = match parse_owner_repo(locator) {
        Ok(parts) => parts,
        Err(error) => {
            return Err(error);
        },
    };
    let owner = chars_of(parts.owner.as_str());
    if owner[0] == '~' {
        let user = string_between(&owner, 1, owner.len());
        proof {
            assert(user@ =~= parts.owner@.skip(1));
        }
        Ok(RemoteRepoParts { owner: user, name: parts.name })
    } else {
        Err(
            Error::about(
                "SourceHut repository path must be ~<user>/<repo>, got ",
                locator.key().as_str(),
            ),
        )
    }
}

/// The headers of a request to a REST interface.
pub open spec fn rest_header_list(token: Seq<char>, github: bool, json_body: bool) -> Seq<
    (Seq<char>, Seq<char>),
> {
    (if github {
        seq![
            ("Accept"@, "application/vnd.github+json"@),
            ("X-GitHub-Api-Version"@, "2022-11-28"@),
            ("User-Agent"@, "repo-manager"@),
            ("Authorization"@, "Bearer "@ + token),
        ]
    } else {
        seq![("Accept"@, "application/json"@), ("Authorization"@, "token "@ + token)]
    }) + (if json_body {
        seq![("Content-Type"@, "application/json"@)]
    } else {
        Seq::empty()
    })
}

fn add_header(headers: &mut Vec<(String, String)>, name: &str, value: &str)
    ensures
        header_views(final(headers)@) == header_views(old(headers)@).push((name@, value@)),
{
    headers.push((name.to_owned(), value.to_owned()));
    proof {
        assert(header_views(headers@) =~= header_views(old(headers)@).push((name@, value@)));
    }
}

fn prefixed(prefix: &str, text: &str) -> (r: String)
    ensures
        r@ == prefix@ + text@,
{
    let mut r = prefix.to_owned();
    r.append(text);
    r
}

pub fn rest_headers(token: &str, github: bool, json_body: bool) -> (r: Vec<(String, String)>)
    ensures
        header_views(r@) == rest_header_list(token@, github, json_body),
{
    let mut headers: Vec<(String, String)> = Vec::new();
    if github {
        add_header(&mut headers, "Accept", "application/vnd.github+json");
        add_header(&mut headers, "X-GitHub-Api-Version", "2022-11-28");
        add_header(&mut headers, "User-Agent", "repo-manager");
        add_header(&mut headers, "Authorization", prefixed("Bearer ", token).as_str());
    } else {
        add_header(&mut headers, "Accept", "application/json");
        add_header(&mut headers, "Authorization", prefixed("token ", token).as_str());
    }
    if json_body {
        add_header(&mut headers, "Content-Type", "application/json");
    }
    proof {
        assert(header_views(headers@) =~= rest_header_list(token@, github, json_body));
    }
    headers
}

/// Where the REST interface of a forge begins.
pub open spec fn rest_root(api_base_url: Seq<char>, github: bool) -> Seq<char> {
    trim_end_by(api_base_url, char_fn('/')) + (if github {
        Seq::empty()
    } else {
        "/api/v1"@
    })
}

fn rest_base(api_base_url: &str, github: bool) -> (r: String)
    ensures
        r@ == rest_root(api_base_url@, github),
{
    let mut url = trim_end_char(api_base_url, '/');
    if !github {
        url.append("/api/v1");
    } else {
        proof {
            assert(url@ + Seq::<char>::empty() =~= url@);
        }
    }
    url
}

pub open spec fn user_request(api_base_url: Seq<char>, token: Seq<char>, github: bool)
    -> HttpRequestView {
    HttpRequestView {
        method: "GET"@,
        url: rest_root(api_base_url, github) + "/user"@,
        headers: rest_header_list(token, github, false),
        body: None,
    }
}

/// Asks whose token it is.
pub fn rest_authenticated_user_request(forge: &CreateForge, token: &str, github: bool) -> (r:
    HttpRequestPlan)
    ensures
        r@ == user_request(forge@.api_base_url, token@, github),
{
    let mut url = rest_base(forge.api_base_url.as_str(), github);
    url.append("/user");
    HttpRequestPlan { method: "GET", url, headers: rest_headers(token, github, false), body: None }
}

pub open spec fn lookup_request(
    api_base_url: Seq<char>,
    parts: (Seq<char>, Seq<char>),
    token: Seq<char>,
    github: bool,
) -> HttpRequestView {
    HttpRequestView {
        method: "GET"@,
        url: rest_root(api_base_url, github) + "/repos/"@ + parts.0 + "/"@ + parts.1,
        headers: rest_header_list(token, github, false),
        body: None,
    }
}

/// Asks whether the repository is there.
pub fn rest_repository_get_request(
    forge: &CreateForge,
    parts: &RemoteRepoParts,
    token: &str,
    github: bool,
) -> (r: HttpRequestPlan)
    ensures
        r@ == lookup_request(forge@.api_base_url, parts@, token@, github),
{
    let mut url = rest_base(forge.api_base_url.as_str(), github);
    url.append("/repos/");
    url.append(parts.owner.as_str());
    url.append("/");
    url.append(parts.name.as_str());
    HttpRequestPlan { method: "GET", url, headers: rest_headers(token, github, false), body: None }
}

/// Creates the repository for its owner: the user, where they own it, and an
/// organisation otherwise.
pub open spec fn create_request(
    api_base_url: Seq<char>,
    parts: (Seq<char>, Seq<char>),
    visibility: RepoVisibility,
    token: Seq<char>,
    user: Seq<char>,
    github: bool,
) -> HttpRequestView {
    HttpRequestView {
        method: "POST"@,
        url: rest_root(api_base_url, github) + (if lower(parts.0) == lower(user) {
            "/user/repos"@
        } else {
            "/orgs/"@ + parts.0 + "/repos"@
        }),
        headers: rest_header_list(token, github, true),
        body: Some(
            "{\"name\":"@ + json_string(parts.1) + ",\"private\":"@ + (if visibility
                == RepoVisibility::Private {
                "true"@
            } else {
                "false"@
            }) + "}"@,
        ),
    }
}

pub fn rest_repository_create_request(
    forge: &CreateForge,
    parts: &RemoteRepoParts,
    visibility: RepoVisibility,
    token: &str,
    authenticated_user: &str,
    github: bool,
) -> (r: HttpRequestPlan)
    ensures
        r@ == create_request(
            forge@.api_base_url,
            parts@,
            visibility,
            token@,
            authenticated_user@,
            github,
        ),
{
    let user_repo = lowercase(parts.owner.as_str()).as_str().eq(
        lowercase(authenticated_user).as_str(),
    );
    let mut url = rest_base(forge.api_base_url.as_str(), github);
    if user_repo {
        url.append("/user/repos");
    } else {
        let mut place = "/orgs/".to_owned();
        place.append(parts.owner.as_str());
        place.append("/repos");
        url.append(place.as_str());
    }
    let mut body = "{\"name\":".to_owned();
    body.append(quoted(parts.name.as_str()).as_str());
    body.append(",\"private\":");
    if visibility.is_private() {
        body.append("true");
    } else {
        body.append("false");
    }
    body.append("}");
    HttpRequestPlan {
        method: "POST",
        url,
        headers: rest_headers(token, github, true),
        body: Some(body),
    }
}

/// A GraphQL query to SourceHut, with its variables as a JSON object.
pub open spec fn graphql_request(
    api_base_url: Seq<char>,
    token: Seq<char>,
    query: Seq<char>,
    variables: Seq<char>,
) -> HttpRequestView {
    HttpRequestView {
        method: "POST"@,
        url: api_base_url,
        headers: seq![
            ("Authorization"@, "Bearer "@ + token),
            ("Content-Type"@, "application/json"@),
        ],
        body: Some(
            "{\"query\":"@ + json_string(query) + ",\"variables\":"@ + variables + "}"@,
        ),
    }
}

fn sourcehut_graphql_request(forge: &CreateForge, token: &str, query: &str, variables: &str) -> (r:
    HttpRequestPlan)
    ensures
        r@ == graphql_request(forge@.api_base_url, token@, query@, variables@),
{
    let mut headers: Vec<(String, String)> = Vec::new();
    add_header(&mut headers, "Authorization", prefixed("Bearer ", token).as_str());
    add_header(&mut headers, "Content-Type", "application/json");
    proof {
        assert(header_views(headers@) =~= seq![
            ("Authorization"@, "Bearer "@ + token@),
            ("Content-Type"@, "application/json"@),
        ]);
    }
    let mut body = "{\"query\":".to_owned();
    body.append(quoted(query).as_str());
    body.append(",\"variables\":");
    body.append(variables);
    body.append("}");
    HttpRequestPlan { method: "POST", url: forge.api_base_url.clone(), headers, body: Some(body) }
}

pub open spec fn me_query() -> Seq<char> {
    "query me { me { username canonicalName } }"@
}

pub open spec fn path_query() -> Seq<char> {
    "query repositoryByDiskPath($path: String!) { repositoryByDiskPath(path: $path) { id name } }"@
}

pub open spec fn create_query() -> Seq<char> {
    "mutation createRepository($name: String!, $visibility: Visibility!) { createRepository(name: $name, visibility: $visibility) { id name visibility } }"@
}

/// Asks SourceHut whose token it is.
pub fn sourcehut_me_request(forge: &CreateForge, token: &str) -> (r: HttpRequestPlan)
    ensures
        r@ == graphql_request(forge@.api_base_url, token@, me_query(), "{}"@),
{
    sourcehut_graphql_request(forge, token, "query me { me { username canonicalName } }", "{}")
}

pub open spec fn path_variables(remote_path: Seq<char>) -> Seq<char> {
    "{\"path\":"@ + json_string(remote_path) + "}"@
}

/// Asks SourceHut whether the repository is there.
pub fn sourcehut_repository_by_path_request(forge: &CreateForge, token: &str, locator: &Locator)
    -> (r: HttpRequestPlan)
    ensures
        r@ == graphql_request(
            forge@.api_base_url,
            token@,
            path_query(),
            path_variables(locator@.remote_path),
        ),
{
    let mut variables = "{\"path\":".to_owned();
    variables.append(quoted(locator.remote_path.as_str()).as_str());
    variables.append("}");
    sourcehut_graphql_request(
        forge,
        token,
        "query repositoryByDiskPath($path: String!) { repositoryByDiskPath(path: $path) { id name } }",
        variables.as_str(),
    )
}

pub open spec fn create_variables(name: Seq<char>, visibility: RepoVisibility) -> Seq<char> {
    "{\"name\":"@ + json_string(name) + ",\"visibility\":"@ + json_string(
        visibility.sourcehut_name(),
    ) + "}"@
}

/// Has SourceHut create the repository.
pub fn sourcehut_create_request(
    forge: &CreateForge,
    token: &str,
    name: &str,
    visibility: RepoVisibility,
) -> (r: HttpRequestPlan)
    ensures
        r@ == graphql_request(
            forge@.api_base_url,
            token@,
            create_query(),
            create_variables(name@, visibility),
        ),
{
    let mut variables = "{\"name\":".to_owned();
    variables.append(quoted(name).as_str());
    variables.append(",\"visibility\":");
    variables.append(quoted(visibility.sourcehut()).as_str());
    variables.append("}");
    sourcehut_graphql_request(
        forge,
        token,
        "mutation createRepository($name: String!, $visibility: Visibility!) { createRepository(name: $name, visibility: $visibility) { id name visibility } }",
        variables.as_str(),
    )
}

/// A body in at most five hundred characters, without the white space around it.
pub open spec fn shown_body(body: Seq<char>) -> Seq<char> {
    let trimmed = trim_text(body);
    if trimmed.len() > 500 {
        trimmed.take(500) + "..."@
    } else {
        trimmed
    }
}

pub fn trim_http_body(body: &str) -> (r: String)
    ensures
        r@ == shown_body(body@),
{
    let trimmed = trim(body);
    let v = chars_of(trimmed.as_str());
    if v.len() > 500 {
        let mut text = string_between(&v, 0, 500);
        proof {
            assert(text@ =~= trimmed@.take(500));
        }
        text.append("...");
        text
    } else {
        trimmed
    }
}

/// The refusal of an answer with an unexpected status.
pub open spec fn http_failure(action: Seq<char>, status: u16, body: Seq<char>) -> Seq<char> {
    action + " failed with HTTP "@ + decimal(status as nat) + ": "@ + shown_body(body)
}

fn failed_http(action: &str, response: &HttpResponse) -> (r: Error)
    ensures
        r@ == http_failure(action@, response@.0, response@.1),
{
    let mut text = action.to_owned();
    text.append(" failed with HTTP ");
    text.append(decimal_text(response.status as u128).as_str());
    text.append(": ");
    text.append(trim_http_body(response.body.as_str()).as_str());
    Error::new(text)
}

/// The login that a lookup in the answer found, unless it is empty.
pub open spec fn login_of(found: Result<Option<JsonFoundView>, Seq<char>>) -> Result<
    Seq<char>,
    Seq<char>,
> {
    match found {
        Err(_) => Err("parsing authenticated user response"@),
        Ok(found) => if found is Some && found->0.text is Some && found->0.text->0.len() > 0 {
            Ok(found->0.text->0)
        } else {
            Err("authenticated user response did not include `login`"@)
        },
    }
}

pub fn read_login(found: Result<Option<JsonFound>, String>) -> (r: Result<String, Error>)
    ensures
        outcome(r) == login_of(found_view(found)),
{
    match found {
        Err(_) => Err(Error::fixed("parsing authenticated user response")),
        Ok(found) => {
            match found {
                Some(found) => match found.text {
                    Some(login) => if !login.as_str().is_empty() {
                        return Ok(login);
                    },
                    None => {},
                },
                None => {},
            }
            Err(Error::fixed("authenticated user response did not include `login`"))
        },
    }
}

/// The user that a REST interface says the token belongs to.
pub open spec fn rest_user(response: (u16, Seq<char>)) -> Result<Seq<char>, Seq<char>> {
    if response.0 != 200 {
        Err(http_failure("reading authenticated forge user"@, response.0, response.1))
    } else {
        login_of(json_at(response.1, "/login"@))
    }
}

pub fn rest_authenticated_user(response: &HttpResponse) -> (r: Result<String, Error>)
    ensures
        outcome(r) == rest_user(response@),
{
    if response.status != 200 {
        return Err(failed_http("reading authenticated forge user", response));
    }
    read_login(json_lookup(response.body.as_str(), "/login"))
}

/// Whether an answer of SourceHut is one of success, for lookups of its `errors`.
pub open spec fn sourcehut_outcome(
    status: u16,
    body: Seq<char>,
    errors: Result<Option<JsonFoundView>, Seq<char>>,
    action: Seq<char>,
) -> Result<(), Seq<char>> {
    if status != 200 {
        Err(http_failure(action, status, body))
    } else {
        match errors {
            Err(_) => Err(action + ": parsing JSON"@),
            Ok(Some(errors)) => Err(action + " failed: "@ + errors.rendered),
            Ok(None) => Ok(()),
        }
    }
}

pub fn judge_sourcehut(
    response: &HttpResponse,
    errors: Result<Option<JsonFound>, String>,
    action: &str,
) -> (r: Result<(), Error>)
    ensures
        outcome(r) == sourcehut_outcome(response@.0, response@.1, found_view(errors), action@),
{
    if response.status != 200 {
        return Err(failed_http(action, response));
    }
    match errors {
        Err(_) => {
            let mut text = action.to_owned();
            text.append(": parsing JSON");
            Err(Error::new(text))
        },
        Ok(Some(errors)) => {
            let mut text = action.to_owned();
            text.append(" failed: ");
            text.append(errors.rendered.as_str());
            Err(Error::new(text))
        },
        Ok(None) => Ok(()),
    }
}

pub fn ensure_sourcehut_success(response: &HttpResponse, action: &str) -> (r: Result<(), Error>)
    ensures
        outcome(r) == sourcehut_outcome(
            response@.0,
            response@.1,
            json_at(response@.1, "/errors"@),
            action@,
        ),
{
    judge_sourcehut(response, json_lookup(response.body.as_str(), "/errors"), action)
}

/// The user name for lookups of `username` and `canonicalName`; the second counts
/// only where there is no first.
pub open spec fn sourcehut_user(
    username: Result<Option<JsonFoundView>, Seq<char>>,
    canonical: Result<Option<JsonFoundView>, Seq<char>>,
) -> Result<Seq<char>, Seq<char>> {
    match (username, canonical) {
        (Ok(username), Ok(canonical)) => {
            let found = if username is Some {
                username
            } else {
                canonical
            };
            if found is Some && found->0.text is Some && trim_start_by(
                found->0.text->0,
                char_fn('~'),
            ).len() > 0 {
                Ok(trim_start_by(found->0.text->0, char_fn('~')))
            } else {
                Err("SourceHut user response did not include username"@)
            }
        },
        _ => Err("parsing SourceHut user"@),
    }
}

pub fn read_sourcehut_user(
    username: Result<Option<JsonFound>, String>,
    canonical: Result<Option<JsonFound>, String>,
) -> (r: Result<String, Error>)
    ensures
        outcome(r) == sourcehut_user(found_view(username), found_view(canonical)),
{
    let username = match username {
        Ok(found) => found,
        Err(_) => {
            return Err(Error::fixed("parsing SourceHut user"));
        },
    };
    let canonical = match canonical {
        Ok(found) => found,
        Err(_) => {
            return Err(Error::fixed("parsing SourceHut user"));
        },
    };
    let found = if username.is_some() {
        username
    } else {
        canonical
    };
    match found {
        Some(found) => match found.text {
            Some(text) => {
                let user = trim_start_char(text.as_str(), '~');
                if !user.as_str().is_empty() {
                    return Ok(user);
                }
            },
            None => {},
        },
        None => {},
    }
    Err(Error::fixed("SourceHut user response did not include username"))
}

pub fn sourcehut_username(body: &str) -> (r: Result<String, Error>)
    ensures
        outcome(r) == sourcehut_user(
            json_at(body@, "/data/me/username"@),
            json_at(body@, "/data/me/canonicalName"@),
        ),
{
    read_sourcehut_user(
        json_lookup(body, "/data/me/username"),
        json_lookup(body, "/data/me/canonicalName"),
    )
}

/// Whether a lookup of the repository found anything but null.
pub open spec fn repository_found(found: Result<Option<JsonFoundView>, Seq<char>>) -> Result<
    bool,
    Seq<char>,
> {
    match found {
        Err(_) => Err("parsing SourceHut repository lookup"@),
        Ok(Some(found)) => Ok(!found.is_null),
        Ok(None) => Ok(false),
    }
}

pub open spec fn plain_outcome<T>(r: Result<T, Error>) -> Result<T, Seq<char>> {
    match r {
        Ok(value) => Ok(value),
        Err(error) => Err(error@),
    }
}

pub fn read_repository_found(found: Result<Option<JsonFound>, String>) -> (r: Result<bool, Error>)
    ensures
        plain_outcome(r) == repository_found(found_view(found)),
{
    match found {
        Err(_) => Err(Error::fixed("parsing SourceHut repository lookup")),
        Ok(Some(found)) => Ok(!found.is_null),
        Ok(None) => Ok(false),
    }
}

pub fn sourcehut_repository_exists(body: &str) -> (r: Result<bool, Error>)
    ensures
        plain_outcome(r) == repository_found(json_at(body@, "/data/repositoryByDiskPath"@)),
{
    read_repository_found(json_lookup(body, "/data/repositoryByDiskPath"))
}

/// Which answer is awaited while a repository is created.
#[derive(Debug)]
pub enum CreateStage {
    RestUser,
    RestLookup { user: String },
    RestCreate,
    SourcehutUser,
    SourcehutLookup,
    SourcehutCreate,
}

pub enum CreateStageView {
    RestUser,
    RestLookup { user: Seq<char> },
    RestCreate,
    SourcehutUser,
    SourcehutLookup,
    SourcehutCreate,
}

impl View for CreateStage {
    type V = CreateStageView;

    open spec fn view(&self) -> CreateStageView {
        match self {
            CreateStage::RestUser => CreateStageView::RestUser,
            CreateStage::RestLookup { user } => CreateStageView::RestLookup { user: user@ },
            CreateStage::RestCreate => CreateStageView::RestCreate,
            CreateStage::SourcehutUser => CreateStageView::SourcehutUser,
            CreateStage::SourcehutLookup => CreateStageView::SourcehutLookup,
            CreateStage::SourcehutCreate => CreateStageView::SourcehutCreate,
        }
    }
}

/// What is to be done next while a repository is created.
#[derive(Debug)]
pub enum CreateAction {
    /// Send the request, and come back with the answer.
    Send { request: HttpRequestPlan, stage: CreateStage },
    /// The repository is there.
    Created,
}

pub enum CreateActionView {
    Send { request: HttpRequestView, stage: CreateStageView },
    Created,
}

impl View for CreateAction {
    type V = CreateActionView;

    open spec fn view(&self) -> CreateActionView {
        match self {
            CreateAction::Send { request, stage } => CreateActionView::Send {
                request: request@,
                stage: stage@,
            },
            CreateAction::Created => CreateActionView::Created,
        }
    }
}

/// The first request: whose token it is. A path that the forge cannot hold is
/// refused before anything is sent.
pub open spec fn first_action(
    forge: CreateForgeView,
    locator: LocatorView,
    token: Seq<char>,
) -> Result<CreateActionView, Seq<char>> {
    match forge.backend {
        ForgeBackend::Sourcehut => match sourcehut_repo(locator) {
            Err(message) => Err(message),
            Ok(_) => Ok(
                CreateActionView::Send {
                    request: graphql_request(forge.api_base_url, token, me_query(), "{}"@),
                    stage: CreateStageView::SourcehutUser,
                },
            ),
        },
        _ => match owner_repo(locator) {
            Err(message) => Err(message),
            Ok(_) => Ok(
                CreateActionView::Send {
                    request: user_request(
                        forge.api_base_url,
                        token,
                        forge.backend == ForgeBackend::Github,
                    ),
                    stage: CreateStageView::RestUser,
                },
            ),
        },
    }
}

pub fn begin_create(forge: &CreateForge, locator: &Locator, token: &str) -> (r: Result<
    CreateAction,
    Error,
>)
    ensures
        outcome(r) == first_action(forge@, locator@, token@),
{
    match forge.backend {
        ForgeBackend::Sourcehut => match parse_sourcehut_repo(locator) {
            Err(error) => Err(error),
            Ok(_) => Ok(
                CreateAction::Send {
                    request: sourcehut_me_request(forge, token),
                    stage: CreateStage::SourcehutUser,
                },
            ),
        },
        _ => match parse_owner_repo(locator) {
            Err(error) => Err(error),
            Ok(_) => {
                let github = match forge.backend {
                    ForgeBackend::Github => true,
                    _ => false,
                };
                Ok(
                    CreateAction::Send {
                        request: rest_authenticated_user_request(forge, token, github),
                        stage: CreateStage::RestUser,
                    },
                )
            },
        },
    }
}

/// What an answer leads to: the user is read, then the repository is looked up,
/// then it is created; anything unexpected is a refusal.
pub open spec fn next_action(
    forge: CreateForgeView,
    locator: LocatorView,
    visibility: RepoVisibility,
    token: Seq<char>,
    stage: CreateStageView,
    response: (u16, Seq<char>),
) -> Result<CreateActionView, Seq<char>> {
    let github = forge.backend == ForgeBackend::Github;
    match stage {
        CreateStageView::RestUser => match (owner_repo(locator), rest_user(response)) {
            (Err(message), _) => Err(message),
            (_, Err(message)) => Err(message),
            (Ok(parts), Ok(user)) => Ok(
                CreateActionView::Send {
                    request: lookup_request(forge.api_base_url, parts, token, github),
                    stage: CreateStageView::RestLookup { user },
                },
            ),
        },
        CreateStageView::RestLookup { user } => match owner_repo(locator) {
            Err(message) => Err(message),
            Ok(parts) => if response.0 == 200 {
                Err("remote repository already exists: "@ + locator.key())
            } else if response.0 == 404 {
                Ok(
                    CreateActionView::Send {
                        request: create_request(
                            forge.api_base_url,
                            parts,
                            visibility,
                            token,
                            user,
                            github,
                        ),
                        stage: CreateStageView::RestCreate,
                    },
                )
            } else {
                Err(http_failure("checking remote repository existence"@, response.0, response.1))
            },
        },
        CreateStageView::RestCreate => if response.0 == 201 {
            Ok(CreateActionView::Created)
        } else {
            Err(http_failure("creating remote repository"@, response.0, response.1))
        },
        CreateStageView::SourcehutUser => match (
            sourcehut_repo(locator),
            sourcehut_outcome(
                response.0,
                response.1,
                json_at(response.1, "/errors"@),
                "reading authenticated SourceHut user"@,
            ),
            sourcehut_user(
                json_at(response.1, "/data/me/username"@),
                json_at(response.1, "/data/me/canonicalName"@),
            ),
        ) {
            (Err(message), _, _) => Err(message),
            (_, Err(message), _) => Err(message),
            (_, _, Err(message)) => Err(message),
            (Ok(parts), _, Ok(user)) => if user == parts.0 {
                Ok(
                    CreateActionView::Send {
                        request: graphql_request(
                            forge.api_base_url,
                            token,
                            path_query(),
                            path_variables(locator.remote_path),
                        ),
                        stage: CreateStageView::SourcehutLookup,
                    },
                )
            } else {
                Err(
                    "SourceHut can only create repositories for the authenticated user `"@ + user
                        + "`, got `"@ + parts.0 + "`"@,
                )
            },
        },
        CreateStageView::SourcehutLookup => match (
            sourcehut_repo(locator),
            sourcehut_outcome(
                response.0,
                response.1,
                json_at(response.1, "/errors"@),
                "checking remote repository existence"@,
            ),
            repository_found(json_at(response.1, "/data/repositoryByDiskPath"@)),
        ) {
            (Err(message), _, _) => Err(message),
            (_, Err(message), _) => Err(message),
            (_, _, Err(message)) => Err(message),
            (Ok(parts), _, Ok(found)) => if found {
                Err("remote repository already exists: "@ + locator.key())
            } else {
                Ok(
                    CreateActionView::Send {
                        request: graphql_request(
                            forge.api_base_url,
                            token,
                            create_query(),
                            create_variables(parts.1, visibility),
                        ),
                        stage: CreateStageView::SourcehutCreate,
                    },
                )
            },
        },
        CreateStageView::SourcehutCreate => match sourcehut_outcome(
            response.0,
            response.1,
            json_at(response.1, "/errors"@),
            "creating SourceHut repository"@,
        ) {
            Err(message) => Err(message),
            Ok(_) => Ok(CreateActionView::Created),
        },
    }
}

pub fn continue_create(
    forge: &CreateForge,
    locator: &Locator,
    visibility: RepoVisibility,
    token: &str,
    stage: &CreateStage,
    response: &HttpResponse,
) -> (r: Result<CreateAction, Error>)
    ensures
        outcome(r) == next_action(forge@, locator@, visibility, token@, stage@, response@),
{
    let github = match forge.backend {
        ForgeBackend::Github => true,
        _ => false,
    };
    match stage {
        CreateStage::RestUser => {
            let parts = match parse_owner_repo(locator) {
                Ok(parts) => parts,
                Err(error) => {
                    return Err(error);
                },
            };
            let user = match rest_authenticated_user(response) {
                Ok(user) => user,
                Err(error) => {
                    return Err(error);
                },
            };
            Ok(
                CreateAction::Send {
                    request: rest_repository_get_request(forge, &parts, token, github),
                    stage: CreateStage::RestLookup { user },
                },
            )
        },
        CreateStage::RestLookup { user } => {
            let parts = match parse_owner_repo(locator) {
                Ok(parts) => parts,
                Err(error) => {
                    return Err(error);
                },
            };
            if response.status == 200 {
                return Err(
                    Error::about("remote repository already exists: ", locator.key().as_str()),
                );
            }
            if response.status != 404 {
                return Err(failed_http("checking remote repository existence", response));
            }
            Ok(
                CreateAction::Send {
                    request: rest_repository_create_request(
                        forge,
                        &parts,
                        visibility,
                        token,
                        user.as_str(),
                        github,
                    ),
                    stage: CreateStage::RestCreate,
                },
            )
        },
        CreateStage::RestCreate => if response.status == 201 {
            Ok(CreateAction::Created)
        } else {
            Err(failed_http("creating remote repository", response))
        },
        CreateStage::SourcehutUser => {
            let parts = match parse_sourcehut_repo(locator) {
                Ok(parts) => parts,
                Err(error) => {
                    return Err(error);
                },
            };
            match ensure_sourcehut_success(response, "reading authenticated SourceHut user") {
                Ok(()) => {},
                Err(error) => {
                    return Err(error);
                },
            }
            let user = match sourcehut_username(response.body.as_str()) {
                Ok(user) => user,
                Err(error) => {
                    return Err(error);
                },
            };
            if !user.as_str().eq(parts.owner.as_str()) {
                let mut text =
                    "SourceHut can only create repositories for the authenticated user `".to_owned();
                text.append(user.as_str());
                text.append("`, got `");
                text.append(parts.owner.as_str());
                text.append("`");
                return Err(Error::new(text));
            }
            Ok(
                CreateAction::Send {
                    request: sourcehut_repository_by_path_request(forge, token, locator),
                    stage: CreateStage::SourcehutLookup,
                },
            )
        },
        CreateStage::SourcehutLookup => {
            let parts = match parse_sourcehut_repo(locator) {
                Ok(parts) => parts,
                Err(error) => {
                    return Err(error);
                },
            };
            match ensure_sourcehut_success(response, "checking remote repository existence") {
                Ok(()) => {},
                Err(error) => {
                    return Err(error);
                },
            }
            match sourcehut_repository_exists(response.body.as_str()) {
                Ok(found) => if found {
                    return Err(
                        Error::about("remote repository already exists: ", locator.key().as_str()),
                    );
                },
                Err(error) => {
                    return Err(error);
                },
            }
            Ok(
                CreateAction::Send {
                    request: sourcehut_create_request(
                        forge,
                        token,
                        parts.name.as_str(),
                        visibility,
                    ),
                    stage: CreateStage::SourcehutCreate,
                },
            )
        },
        CreateStage::SourcehutCreate => match ensure_sourcehut_success(
            response,
            "creating SourceHut repository",
        ) {
            Ok(()) => Ok(CreateAction::Created),
            Err(error) => Err(error),
        },
    }
}

/// A repository is created only after the forge has said that it is not there:
/// whatever comes back, creating is asked for only in answer to a lookup that
/// found nothing, and done only in answer to that request.
pub proof fn nothing_is_created_unlooked_for(
    forge: CreateForgeView,
    locator: LocatorView,
    visibility: RepoVisibility,
    token: Seq<char>,
    stage: CreateStageView,
    response: (u16, Seq<char>),
)
    ensures
        next_action(forge, locator, visibility, token, stage, response) matches Ok(action) ==> {
            &&& action matches CreateActionView::Send { stage: CreateStageView::RestCreate, .. }
                ==> stage is RestLookup && response.0 == 404
            &&& action matches CreateActionView::Send {
                stage: CreateStageView::SourcehutCreate,
                ..
            } ==> stage is SourcehutLookup && response.0 == 200 && json_at(
                response.1,
                "/errors"@,
            ) == Ok::<Option<JsonFoundView>, Seq<char>>(None) && repository_found(
                json_at(response.1, "/data/repositoryByDiskPath"@),
            ) == Ok::<bool, Seq<char>>(false)
            &&& action is Created ==> stage is RestCreate && response.0 == 201
                || stage is SourcehutCreate && response.0 == 200
        },
        first_action(forge, locator, token) matches Ok(action) ==> action matches
            CreateActionView::Send { stage, .. } && (stage is RestUser || stage is SourcehutUser),
{
}

/// How each request is handed to `curl`: the headers one by one, the body where
/// there is one, and a last line of output that tells the status.
pub open spec fn curl_command(request: HttpRequestView) -> Seq<Seq<char>> {
    seq!["-sS"@, "-L"@, "-X"@, request.method] + header_args(request.headers) + (match request.body {
        Some(body) => seq!["-d"@, body],
        None => Seq::empty(),
    }) + seq!["-w"@, "\nrepo-manager-http-status:%{http_code}"@, request.url]
}

pub open spec fn header_args(headers: Seq<(Seq<char>, Seq<char>)>) -> Seq<Seq<char>>
    decreases headers.len(),
{
    if headers.len() == 0 {
        Seq::empty()
    } else {
        header_args(headers.drop_last()) + seq![
            "-H"@,
            headers.last().0 + ": "@ + headers.last().1,
        ]
    }
}

pub fn curl_args(request: &HttpRequestPlan) -> (r: Vec<String>)
    ensures
        views(r@) == curl_command(request@),
{
    let ghost all = header_views(request.headers@);
    let mut args = owned(&["-sS", "-L", "-X", request.method]);
    let ghost start = views(args@);
    proof {
        assert(start =~= seq!["-sS"@, "-L"@, "-X"@, request.method@]);
        assert(header_args(all.take(0)) =~= Seq::empty());
        assert(views(args@) =~= start + header_args(all.take(0)));
    }
    let mut i: usize = 0;
    while i < request.headers.len()
        invariant
            i <= request.headers@.len(),
            all == header_views(request.headers@),
            views(args@) == start + header_args(all.take(i as int)),
        decreases request.headers@.len() - i,
    {
        let ghost before = views(args@);
        let mut line = request.headers[i].0.clone();
        line.append(": ");
        line.append(request.headers[i].1.as_str());
        args.push("-H".to_owned());
        args.push(line);
        proof {
            assert(all.take(i + 1).drop_last() =~= all.take(i as int));
            assert(all.take(i + 1).last() == all[i as int]);
            assert(views(args@) =~= before + seq!["-H"@, line@]);
            assert(start + header_args(all.take(i as int)) + seq!["-H"@, line@] =~= start
                + header_args(all.take(i + 1)));
        }
        i += 1;
    }
    proof {
        assert(all.take(i as int) =~= all);
    }
    let ghost before = views(args@);
    match &request.body {
        Some(body) => {
            args.push("-d".to_owned());
            args.push(body.clone());
        },
        None => {},
    }
    args.push("-w".to_owned());
    args.push("\nrepo-manager-http-status:%{http_code}".to_owned());
    args.push(request.url.clone());
    proof {
        assert(views(args@) =~= curl_command(request@));
    }
    args
}

/// The answer in what `curl` printed: all before the last status line is the body.
pub open spec fn curl_answer(stdout: Seq<char>) -> Result<(u16, Seq<char>), Seq<char>> {
    match split_last_text(stdout, "\nrepo-manager-http-status:"@) {
        None => Err("curl response did not include HTTP status marker"@),
        Some((body, status)) => match parsed_number(trim_text(status), 65535) {
            Some(status) => Ok((status as u16, body)),
            None => Err("parsing HTTP status"@),
        },
    }
}

pub fn read_curl_output(stdout: &str) -> (r: Result<HttpResponse, Error>)
    ensures
        outcome(r) == curl_answer(stdout@),
{
    match rsplit_once_text(stdout, "\nrepo-manager-http-status:") {
        None => Err(Error::fixed("curl response did not include HTTP status marker")),
        Some((body, status)) => match parse_number(trim(status.as_str()).as_str(), 65535) {
            Some(status) => Ok(HttpResponse { status: status as u16, body }),
            None => Err(Error::fixed("parsing HTTP status")),
        },
    }
}

/// Where GitHub tells what a repository is called now; only a repository of
/// GitHub with an owner and a name is asked for.
pub open spec fn github_api(locator: LocatorView) -> Option<Seq<char>> {
    let parts = split(locator.remote_path, '/');
    if locator.authority == "github.com"@ && parts.len() == 2 {
        Some("https://api.github.com/repos/"@ + parts[0] + "/"@ + parts[1])
    } else {
        None
    }
}

pub fn github_api_url(locator: &Locator) -> (r: Option<String>)
    ensures
        opt_view(r) == github_api(locator@),
{
    let parts = split_text(locator.remote_path.as_str(), '/');
    if locator.authority.as_str().eq("github.com") && parts.len() == 2 {
        let mut url = "https://api.github.com/repos/".to_owned();
        url.append(parts[0].as_str());
        url.append("/");
        url.append(parts[1].as_str());
        Some(url)
    } else {
        None
    }
}

pub open spec fn github_command(url: Seq<char>) -> Seq<Seq<char>> {
    seq![
        "-fsSL"@,
        "-H"@,
        "Accept: application/vnd.github+json"@,
        "-H"@,
        "User-Agent: repo-manager"@,
        url,
    ]
}

pub fn github_curl_args(url: &str) -> (r: Vec<String>)
    ensures
        views(r@) == github_command(url@),
{
    let args = owned(
        &[
            "-fsSL",
            "-H",
            "Accept: application/vnd.github+json",
            "-H",
            "User-Agent: repo-manager",
            url,
        ],
    );
    proof {
        assert(views(args@) =~= github_command(url@));
    }
    args
}

/// Where GitHub's answer about a repository is kept.
pub open spec fn github_cache(cache_root: Seq<char>, remote_path: Seq<char>) -> Seq<char> {
    let parts = split(remote_path, '/');
    join_path(
        join_all(join_path(cache_root, "github.com"@), parts.drop_last()),
        parts.last() + ".json"@,
    )
}

pub fn github_cache_path(cache_root: &str, locator: &Locator) -> (r: String)
    ensures
        r@ == github_cache(cache_root@, locator@.remote_path),
{
    let mut parts = split_text(locator.remote_path.as_str(), '/');
    let ghost all = views(parts@);
    proof {
        lemma_split_not_empty(locator@.remote_path, '/', 0);
    }
    let base = join(cache_root, "github.com");
    match parts.pop() {
        Some(leaf) => {
            proof {
                assert(views(parts@) =~= all.drop_last());
                assert(leaf@ == all.last());
            }
            let mut name = leaf;
            name.append(".json");
            join(join_parts(base.as_str(), &parts).as_str(), name.as_str())
        },
        None => join(base.as_str(), "unknown.json"),
    }
}

/// The locator that GitHub's answer names, for a lookup of `full_name`.
pub open spec fn github_locator(found: Result<Option<JsonFoundView>, Seq<char>>) -> Result<
    Option<LocatorView>,
    Seq<char>,
> {
    match found {
        Err(_) => Err("parsing GitHub API JSON"@),
        Ok(found) => if found is Some && found->0.text is Some {
            match new_locator("github.com"@, found->0.text->0) {
                Ok(locator) => Ok(Some(locator)),
                Err(message) => Err(message),
            }
        } else {
            Ok(None)
        },
    }
}

pub open spec fn locator_outcome(r: Result<Option<Locator>, Error>) -> Result<
    Option<LocatorView>,
    Seq<char>,
> {
    match r {
        Ok(Some(locator)) => Ok(Some(locator@)),
        Ok(None) => Ok(None),
        Err(error) => Err(error@),
    }
}

pub fn read_github_locator(found: Result<Option<JsonFound>, String>) -> (r: Result<
    Option<Locator>,
    Error,
>)
    ensures
        locator_outcome(r) == github_locator(found_view(found)),
{
    match found {
        Err(_) => Err(Error::fixed("parsing GitHub API JSON")),
        Ok(found) => {
            match found {
                Some(found) => match found.text {
                    Some(full_name) => {
                        return match Locator::new("github.com", full_name.as_str()) {
                            Ok(locator) => Ok(Some(locator)),
                            Err(error) => Err(error),
                        };
                    },
                    None => {},
                },
                None => {},
            }
            Ok(None)
        },
    }
}

pub fn github_locator_from_api_json(body: &str) -> (r: Result<Option<Locator>, Error>)
    ensures
        locator_outcome(r) == github_locator(json_at(body@, "/full_name"@)),
{
    read_github_locator(json_lookup(body, "/full_name"))
}

/// What a kept answer tells; one that cannot be read tells nothing.
pub fn cached_github_locator(body: &str) -> (r: Option<Locator>)
    ensures
        opt_locator(r) == match github_locator(json_at(body@, "/full_name"@)) {
            Ok(found) => found,
            Err(_) => None,
        },
{
    match github_locator_from_api_json(body) {
        Ok(found) => found,
        Err(_) => None,
    }
}

} // verus!
