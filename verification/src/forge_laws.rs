//! What holds of every repository that is created at a forge, and of every question to
//! one.
use crate::config::{ForgeBackend, ForgeConfigView, RepoVisibility};
use crate::forge::{
    create_query, create_request, curl_answer, curl_command, first_action, first_token, forge_for,
    github_api, github_cache, github_command, github_locator, header_args, login_of, next_action,
    owner_repo, repository_found, rest_header_list, rest_root, rest_user, shown_body,
    sourcehut_outcome, sourcehut_repo, sourcehut_user, visibility_for, CreateActionView,
    CreateForgeView, CreateStageView, HttpRequestView,
};
use crate::json::{json_at, json_string, JsonFoundView};
use crate::locator::{new_locator, LocatorView};
use crate::paths::{join_all, join_path};
use crate::text::{
    char_fn, decimal, find_from, find_text_back, is_digit, lemma_decimal_reads_back,
    lemma_find_from, lower, occurs_at, skip_from, split, split_from, trim_end_by, trim_text,
};
use crate::text_laws::{lemma_skipped, trimmed_texts_stay};
use vstd::prelude::*;

verus! {

/// A flag decides whether a repository is private, and the default where there is none.
pub proof fn flags_decide_the_visibility(default: RepoVisibility, private: bool, public: bool)
    ensures
        private ==> visibility_for(default, private, public) == RepoVisibility::Private,
        public && !private ==> visibility_for(default, private, public) == RepoVisibility::Public,
        !private && !public ==> visibility_for(default, private, public) == default,
{
}

proof fn lemma_split_two(a: Seq<char>, b: Seq<char>, sep: char)
    requires
        !a.contains(sep),
        !b.contains(sep),
    ensures
        split(a.push(sep) + b, sep) == seq![a, b],
{
    let s = a.push(sep) + b;
    lemma_find_from(s, sep, 0);
    let i = find_from(s, sep, 0);
    assert(s[a.len() as int] == sep);
    if i < a.len() {
        assert(a[i] == s[i]);
    }
    let n = s.len() as int;
    lemma_find_from(s, sep, i + 1);
    let j = find_from(s, sep, i + 1);
    if j < n {
        assert(b[j - a.len() - 1] == s[j]);
    }
    assert(s.subrange(0, i) =~= a);
    assert(s.subrange(i + 1, n) =~= b);
    assert(split_from(s, sep, i + 1) =~= seq![b]);
    assert(split(s, sep) =~= seq![a, b]);
}

/// A repository is known to a forge by its owner and its name, in that order; at
/// SourceHut the owner stands behind a tilde.
pub proof fn owners_come_before_names(
    authority: Seq<char>,
    owner: Seq<char>,
    name: Seq<char>,
)
    requires
        !owner.contains('/'),
        !name.contains('/'),
        owner.len() > 0,
        name.len() > 0,
    ensures
        ({
            let locator = LocatorView { authority, remote_path: owner.push('/') + name };
            &&& owner_repo(locator) == Ok::<(Seq<char>, Seq<char>), Seq<char>>((owner, name))
            &&& owner[0] == '~' ==> sourcehut_repo(locator) == Ok::<
                (Seq<char>, Seq<char>),
                Seq<char>,
            >((owner.subrange(1, owner.len() as int), name))
            &&& owner[0] != '~' ==> sourcehut_repo(locator) is Err
            &&& authority == "github.com"@ ==> github_api(locator) == Some(
                "https://api.github.com/repos/"@ + owner + "/"@ + name,
            )
            &&& authority != "github.com"@ ==> github_api(locator) is None
        }),
{
    lemma_split_two(owner, name, '/');
    assert(owner.skip(1) =~= owner.subrange(1, owner.len() as int));
}

/// A forge is the one that is configured for the authority, with the usual token and
/// address where these are not; without a configuration only the two that are known
/// are.
pub proof fn configured_forges_come_first(
    forges: Map<Seq<char>, ForgeConfigView>,
    authority: Seq<char>,
)
    ensures
        ({
            let forge = forge_for(forges, authority);
            let set = forges[authority];
            &&& forges.contains_key(authority) ==> {
                &&& forge is Ok
                &&& forge->Ok_0.backend == set.backend
                &&& forge->Ok_0.token_envs.len() == 1
                &&& set.token_env is Some ==> forge->Ok_0.token_envs[0] == set.token_env->0
                &&& set.token_env is None ==> forge->Ok_0.token_envs[0] == match set.backend {
                    ForgeBackend::Github => "GITHUB_TOKEN"@,
                    ForgeBackend::Sourcehut => "SOURCEHUT_TOKEN"@,
                    ForgeBackend::Forgejo => "FORGEJO_TOKEN"@,
                }
                &&& set.api_base_url is Some ==> forge->Ok_0.api_base_url == set.api_base_url->0
                &&& set.api_base_url is None ==> forge->Ok_0.api_base_url == match set.backend {
                    ForgeBackend::Github => "https://api.github.com"@,
                    ForgeBackend::Sourcehut => "https://"@ + authority + "/query"@,
                    ForgeBackend::Forgejo => "https://"@ + authority,
                }
            }
            &&& !forges.contains_key(authority) ==> {
                &&& forge is Ok <==> authority == "github.com"@ || authority == "git.sr.ht"@
                &&& authority == "github.com"@ ==> forge->Ok_0.backend == ForgeBackend::Github
                &&& forge is Ok && authority != "github.com"@ ==> forge->Ok_0.backend
                    == ForgeBackend::Sourcehut
            }
        }),
{
}

/// The token is the first value that is not blank.
pub proof fn the_first_token_counts(values: Seq<Option<String>>, k: int)
    requires
        0 <= k <= values.len(),
        forall|i: int|
            0 <= i < k ==> (#[trigger] values[i] is None || trim_text(values[i]->0@).len() == 0),
    ensures
        k < values.len() && values[k] is Some && trim_text(values[k]->0@).len() > 0 ==> first_token(
            values,
        ) == Some(values[k]->0@),
        k == values.len() ==> first_token(values) is None,
    decreases k,
{
    if k > 0 {
        let rest = values.skip(1);
        assert(values[0] is None || trim_text(values[0]->0@).len() == 0);
        assert forall|i: int| 0 <= i < k - 1 implies (#[trigger] rest[i] is None || trim_text(
            rest[i]->0@,
        ).len() == 0) by {
            assert(rest[i] == values[i + 1]);
        }
        the_first_token_counts(rest, k - 1);
        if k < values.len() {
            assert(rest[k - 1] == values[k]);
        }
    }
}

/// Every request to a REST interface carries the token, as that interface wants it.
pub proof fn requests_carry_the_token(token: Seq<char>, github: bool, json_body: bool)
    ensures
        ({
            let headers = rest_header_list(token, github, json_body);
            &&& github ==> headers.contains(("Authorization"@, "Bearer "@ + token))
            &&& !github ==> headers.contains(("Authorization"@, "token "@ + token))
            &&& json_body ==> headers.last() == ("Content-Type"@, "application/json"@)
            &&& github ==> headers[0] == ("Accept"@, "application/vnd.github+json"@)
            &&& github ==> headers.contains(("X-GitHub-Api-Version"@, "2022-11-28"@))
            &&& github ==> headers.contains(("User-Agent"@, "repo-manager"@))
            &&& !github ==> headers[0] == ("Accept"@, "application/json"@)
            &&& headers.len() == (if github {
                4int
            } else {
                2
            }) + (if json_body {
                1int
            } else {
                0
            })
        }),
{
    let headers = rest_header_list(token, github, json_body);
    if github {
        assert(headers[3] == ("Authorization"@, "Bearer "@ + token));
        assert(headers[1] == ("X-GitHub-Api-Version"@, "2022-11-28"@));
        assert(headers[2] == ("User-Agent"@, "repo-manager"@));
    } else {
        assert(headers[1] == ("Authorization"@, "token "@ + token));
    }
}

/// Creating goes to the user's own repositories exactly where the user owns it, letters
/// in either case, and to the owner's otherwise. It is asked for by the name, and as
/// private exactly where it is to be.
pub proof fn repositories_are_created_for_their_owner(
    api_base_url: Seq<char>,
    owner: Seq<char>,
    name: Seq<char>,
    visibility: RepoVisibility,
    token: Seq<char>,
    user: Seq<char>,
    github: bool,
)
    ensures
        ({
            let request = create_request(
                api_base_url,
                (owner, name),
                visibility,
                token,
                user,
                github,
            );
            let root = if github {
                trim_end_by(api_base_url, char_fn('/'))
            } else {
                trim_end_by(api_base_url, char_fn('/')) + "/api/v1"@
            };
            &&& request.method == "POST"@
            &&& lower(owner) == lower(user) ==> request.url == root + "/user/repos"@
            &&& lower(owner) != lower(user) ==> request.url == root + "/orgs/"@ + owner + "/repos"@
            &&& request.headers == rest_header_list(token, github, true)
            &&& visibility == RepoVisibility::Private ==> request.body == Some(
                "{\"name\":"@ + json_string(name) + ",\"private\":"@ + "true"@ + "}"@,
            )
            &&& visibility == RepoVisibility::Public ==> request.body == Some(
                "{\"name\":"@ + json_string(name) + ",\"private\":"@ + "false"@ + "}"@,
            )
        }),
{
    let root = rest_root(api_base_url, github);
    assert(trim_end_by(api_base_url, char_fn('/')) + Seq::<char>::empty() =~= trim_end_by(
        api_base_url,
        char_fn('/'),
    ));
    assert(root + ("/orgs/"@ + owner + "/repos"@) =~= root + "/orgs/"@ + owner + "/repos"@);
}

/// The REST interface is asked three things in turn: whose the token is, whether the
/// repository is there, and to create it. It goes on only after the answer that it
/// should: the user, that there is no such repository, and that it was created.
pub proof fn rest_repositories_are_looked_up_and_created(
    forge: CreateForgeView,
    locator: LocatorView,
    visibility: RepoVisibility,
    token: Seq<char>,
    user: Seq<char>,
    response: (u16, Seq<char>),
)
    requires
        owner_repo(locator) is Ok,
        forge.backend != ForgeBackend::Sourcehut,
    ensures
        ({
            let github = forge.backend == ForgeBackend::Github;
            let (owner, name) = owner_repo(locator)->Ok_0;
            let root = if github {
                trim_end_by(forge.api_base_url, char_fn('/'))
            } else {
                trim_end_by(forge.api_base_url, char_fn('/')) + "/api/v1"@
            };
            let ask = |method: Seq<char>, path: Seq<char>|
                HttpRequestView {
                    method,
                    url: root + path,
                    headers: rest_header_list(token, github, false),
                    body: None,
                };
            let read = next_action(
                forge,
                locator,
                visibility,
                token,
                CreateStageView::RestUser,
                response,
            );
            let looked = next_action(
                forge,
                locator,
                visibility,
                token,
                CreateStageView::RestLookup { user },
                response,
            );
            let created = next_action(
                forge,
                locator,
                visibility,
                token,
                CreateStageView::RestCreate,
                response,
            );
            &&& first_action(forge, locator, token) == Ok::<CreateActionView, Seq<char>>(
                CreateActionView::Send {
                    request: ask("GET"@, "/user"@),
                    stage: CreateStageView::RestUser,
                },
            )
            &&& read is Ok <==> rest_user(response) is Ok
            &&& read is Ok ==> read->Ok_0 == (CreateActionView::Send {
                request: ask("GET"@, "/repos/"@ + owner + "/"@ + name),
                stage: CreateStageView::RestLookup { user: rest_user(response)->Ok_0 },
            })
            &&& looked is Ok <==> response.0 == 404
            &&& looked is Ok ==> looked->Ok_0 == (CreateActionView::Send {
                request: create_request(
                    forge.api_base_url,
                    (owner, name),
                    visibility,
                    token,
                    user,
                    github,
                ),
                stage: CreateStageView::RestCreate,
            })
            &&& created is Ok <==> response.0 == 201
            &&& created is Ok ==> created->Ok_0 is Created
        }),
{
    let github = forge.backend == ForgeBackend::Github;
    let (owner, name) = owner_repo(locator)->Ok_0;
    let root = rest_root(forge.api_base_url, github);
    assert(trim_end_by(forge.api_base_url, char_fn('/')) + Seq::<char>::empty() =~= trim_end_by(
        forge.api_base_url,
        char_fn('/'),
    ));
    assert(root + ("/repos/"@ + owner + "/"@ + name) =~= root + "/repos/"@ + owner + "/"@ + name);
}

/// The body by which SourceHut is asked to create a repository.
pub open spec fn asked_to_create(name: Seq<char>, visibility: Seq<char>) -> Seq<char> {
    "{\"query\":"@ + json_string(create_query()) + ",\"variables\":"@ + ("{\"name\":"@
        + json_string(name) + ",\"visibility\":"@ + json_string(visibility) + "}"@) + "}"@
}

/// SourceHut creates repositories only for the user whose token it is, under the name
/// and with the visibility that are asked for; an answer that is no success, or that
/// holds errors, ends it.
pub proof fn sourcehut_repositories_are_the_users_own(
    forge: CreateForgeView,
    locator: LocatorView,
    visibility: RepoVisibility,
    token: Seq<char>,
    response: (u16, Seq<char>),
)
    requires
        sourcehut_repo(locator) is Ok,
    ensures
        ({
            let (owner, name) = sourcehut_repo(locator)->Ok_0;
            let user = sourcehut_user(
                json_at(response.1, "/data/me/username"@),
                json_at(response.1, "/data/me/canonicalName"@),
            );
            let found = repository_found(
                json_at(response.1, "/data/repositoryByDiskPath"@),
            );
            let fine = response.0 == 200 && json_at(response.1, "/errors"@) == Ok::<
                Option<JsonFoundView>,
                Seq<char>,
            >(None);
            let read = next_action(
                forge,
                locator,
                visibility,
                token,
                CreateStageView::SourcehutUser,
                response,
            );
            let looked = next_action(
                forge,
                locator,
                visibility,
                token,
                CreateStageView::SourcehutLookup,
                response,
            );
            let created = next_action(
                forge,
                locator,
                visibility,
                token,
                CreateStageView::SourcehutCreate,
                response,
            );
            &&& read is Ok <==> fine && user == Ok::<Seq<char>, Seq<char>>(owner)
            &&& read is Ok ==> read->Ok_0 is Send && read->Ok_0->stage is SourcehutLookup
            &&& looked is Ok <==> fine && found == Ok::<bool, Seq<char>>(false)
            &&& looked is Ok ==> looked->Ok_0 is Send && looked->Ok_0->stage is SourcehutCreate
                && looked->Ok_0->request.url == forge.api_base_url && looked->Ok_0->request.method
                == "POST"@
            &&& looked is Ok && visibility == RepoVisibility::Private
                ==> looked->Ok_0->request.body == Some(asked_to_create(name, "PRIVATE"@))
            &&& looked is Ok && visibility == RepoVisibility::Public
                ==> looked->Ok_0->request.body == Some(asked_to_create(name, "PUBLIC"@))
            &&& created is Ok <==> fine
        }),
{
}

/// An answer is a success exactly where its status is and it holds no errors.
pub proof fn sourcehut_answers_are_judged(
    status: u16,
    body: Seq<char>,
    errors: Result<Option<JsonFoundView>, Seq<char>>,
    action: Seq<char>,
)
    ensures
        sourcehut_outcome(status, body, errors, action) is Ok <==> status == 200 && errors is Ok
            && errors->Ok_0 is None,
{
}

/// The answer tells the text.
pub open spec fn tells(found: Result<Option<JsonFoundView>, Seq<char>>, text: Seq<char>) -> bool {
    found is Ok && found->Ok_0 is Some && found->Ok_0->0.text == Some(text)
}

/// The name of a SourceHut user is told at one of two places, of which the first
/// counts; it is read without the tildes before it.
pub proof fn user_names_lose_their_tildes(
    tildes: Seq<char>,
    name: Seq<char>,
    first: Result<Option<JsonFoundView>, Seq<char>>,
    second: Result<Option<JsonFoundView>, Seq<char>>,
)
    requires
        forall|i: int| 0 <= i < tildes.len() ==> tildes[i] == '~',
        name.len() > 0,
        name[0] != '~',
    ensures
        ({
            let user = sourcehut_user(first, second);
            &&& tells(first, tildes + name) && second is Ok ==> user == Ok::<Seq<char>, Seq<char>>(
                name,
            )
            &&& first is Ok && first->Ok_0 is None && tells(second, tildes + name) ==> user == Ok::<
                Seq<char>,
                Seq<char>,
            >(name)
            &&& tells(first, tildes) ==> user is Err
            &&& first is Err || second is Err ==> user is Err
            &&& first is Ok && first->Ok_0 is None && second is Ok && second->Ok_0 is None
                ==> user is Err
        }),
{
    let p = char_fn('~');
    let text = tildes + name;
    lemma_skipped(text, p, 0);
    lemma_skipped(tildes, p, 0);
    let at = skip_from(text, p, 0);
    if at < tildes.len() {
        assert(text[at] == tildes[at]);
    }
    if at > tildes.len() {
        assert(p(text[tildes.len() as int]));
    }
    assert(text.subrange(at, text.len() as int) =~= name);
}

/// A repository is there where the answer holds one that is not `null`. Whose the token
/// is, is read from an answer with the right status alone.
pub proof fn answers_tell_what_is_there(
    found: Result<Option<JsonFoundView>, Seq<char>>,
    status: u16,
    body: Seq<char>,
)
    ensures
        repository_found(found) is Ok <==> found is Ok,
        repository_found(found) == Ok::<bool, Seq<char>>(true) <==> found is Ok && found->Ok_0
            is Some && !found->Ok_0->0.is_null,
        status != 200 ==> rest_user((status, body)) is Err,
        status == 200 ==> rest_user((status, body)) == login_of(json_at(body, "/login"@)),
{
}

/// The login is read where there is one that is not empty.
pub proof fn logins_are_read(found: Result<Option<JsonFoundView>, Seq<char>>, login: Seq<char>)
    ensures
        login_of(found) == Ok::<Seq<char>, Seq<char>>(login) <==> login.len() > 0 && found is Ok
            && found->Ok_0 is Some && found->Ok_0->0.text == Some(login),
        found is Ok && found->Ok_0 is Some && found->Ok_0->0.text is Some ==> github_locator(found)
            == match new_locator("github.com"@, found->Ok_0->0.text->0) {
            Ok(locator) => Ok::<Option<LocatorView>, Seq<char>>(Some(locator)),
            Err(message) => Err(message),
        },
        found is Ok && (found->Ok_0 is None || found->Ok_0->0.text is None) ==> github_locator(found)
            == Ok::<Option<LocatorView>, Seq<char>>(None),
{
}

proof fn lemma_header_args(headers: Seq<(Seq<char>, Seq<char>)>, i: int)
    requires
        0 <= i < headers.len(),
    ensures
        header_args(headers).len() == 2 * headers.len(),
        header_args(headers)[2 * i] == "-H"@,
        header_args(headers)[2 * i + 1] == headers[i].0 + ": "@ + headers[i].1,
    decreases headers.len(),
{
    let rest = headers.drop_last();
    if i < rest.len() {
        lemma_header_args(rest, i);
        assert(rest[i] == headers[i]);
    } else if rest.len() > 0 {
        lemma_header_args(rest, 0);
    } else {
        assert(header_args(rest) =~= Seq::<Seq<char>>::empty());
    }
}

/// A request is handed to `curl` as it is: its method, each header, its body where it
/// has one, and its URL last.
pub proof fn requests_are_handed_on_whole(request: HttpRequestView, i: int)
    requires
        0 <= i < request.headers.len(),
    ensures
        ({
            let args = curl_command(request);
            let n = args.len() as int;
            let h = 2 * request.headers.len() as int;
            &&& args[2] == "-X"@ && args[3] == request.method
            &&& args[4 + 2 * i] == "-H"@
            &&& args[4 + 2 * i + 1] == request.headers[i].0 + ": "@ + request.headers[i].1
            &&& args[n - 1] == request.url
            &&& request.body is Some ==> n == 4 + h + 2 + 3 && args[4 + h] == "-d"@ && args[4 + h
                + 1] == request.body->0
            &&& request.body is None ==> n == 4 + h + 3
        }),
{
    lemma_header_args(request.headers, i);
}

proof fn lemma_text_back(s: Seq<char>, p: Seq<char>, end: int, k: int)
    requires
        0 <= k < end,
        occurs_at(s, p, k),
        forall|j: int| k < j < end ==> !occurs_at(s, p, j),
    ensures
        find_text_back(s, p, end) == k,
    decreases end - k,
{
    if end - 1 > k {
        assert(!occurs_at(s, p, end - 1));
        lemma_text_back(s, p, end - 1, k);
    }
}

proof fn lemma_marker()
    ensures
        "\nrepo-manager-http-status:"@.len() > 0,
        "\nrepo-manager-http-status:"@[0] == '\n',
        forall|i: int|
            0 < i < "\nrepo-manager-http-status:"@.len() ==> (
            #[trigger] "\nrepo-manager-http-status:"@[i]) != '\n',
{
    reveal_strlit("\nrepo-manager-http-status:");
}

/// What `curl` printed is read back as the body and the status that it was told, even
/// where the body looks like a status itself.
pub proof fn answers_are_read_back(body: Seq<char>, status: u16)
    ensures
        curl_answer(body + "\nrepo-manager-http-status:"@ + decimal(status as nat)) == Ok::<
            (u16, Seq<char>),
            Seq<char>,
        >((status, body)),
{
    let mark = "\nrepo-manager-http-status:"@;
    let text = decimal(status as nat);
    let s = body + mark + text;
    lemma_marker();
    lemma_decimal_reads_back(status as nat, 65535);
    let k = body.len() as int;
    assert(s.subrange(k, k + mark.len()) =~= mark);
    assert forall|j: int| k < j <= s.len() implies !occurs_at(s, mark, j) by {
        if occurs_at(s, mark, j) {
            assert(s.subrange(j, j + mark.len())[0] == s[j]);
            if j < k + mark.len() {
                assert(s[j] == mark[j - k]);
                assert(mark[j - k] != '\n');
            } else {
                assert(s[j] == text[j - k - mark.len()]);
                assert(is_digit(text[j - k - mark.len()]));
            }
        }
    }
    lemma_text_back(s, mark, s.len() as int + 1, k);
    assert(s.subrange(0, k) =~= body);
    assert(s.subrange(k + mark.len(), s.len() as int) =~= text);
    assert(is_digit(text[0]) && is_digit(text[text.len() - 1]));
    trimmed_texts_stay(text);
}

/// GitHub is asked for the repository at the address that is given, and its answer is
/// kept in a file of the repository's own.
pub proof fn answers_are_kept_by_repository(
    url: Seq<char>,
    cache_root: Seq<char>,
    owner: Seq<char>,
    name: Seq<char>,
)
    requires
        !owner.contains('/'),
        !name.contains('/'),
    ensures
        github_command(url).last() == url,
        github_command(url)[0] == "-fsSL"@,
        github_cache(cache_root, owner.push('/') + name) == join_path(
            join_path(join_path(cache_root, "github.com"@), owner),
            name + ".json"@,
        ),
{
    lemma_split_two(owner, name, '/');
    let parts = seq![owner, name];
    let base = join_path(cache_root, "github.com"@);
    assert(parts.drop_last() =~= seq![owner]);
    assert(seq![owner].drop_last() =~= Seq::<Seq<char>>::empty());
    assert(join_all(base, Seq::empty()) == base);
    assert(join_all(base, seq![owner]) == join_path(base, owner));
}

/// A long body is shown by its beginning, and a short one whole.
pub proof fn long_bodies_are_cut(body: Seq<char>)
    ensures
        trim_text(body).len() <= 500 ==> shown_body(body) == trim_text(body),
        trim_text(body).len() > 500 ==> shown_body(body).len() == 500 + "..."@.len() && shown_body(
            body,
        ).subrange(0, 500) == trim_text(body).subrange(0, 500),
{
    let t = trim_text(body);
    if t.len() > 500 {
        assert(shown_body(body).subrange(0, 500) =~= t.subrange(0, 500));
    }
}

} // verus!
