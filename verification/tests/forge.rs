use repo_manager::cli::CreateArgs;
use repo_manager::config::{Config, ForgeBackend, ForgeConfig, ForgeEntry, RepoVisibility};
use repo_manager::forge::{
    begin_create, cached_github_locator, continue_create, create_visibility, curl_args,
    default_api_base_url, default_token_env, ensure_sourcehut_success, github_api_url,
    github_cache_path, github_curl_args, github_locator_from_api_json, parse_owner_repo,
    parse_sourcehut_repo, plan_create, read_curl_output, read_forge_token, resolve_create_forge,
    rest_authenticated_user, rest_authenticated_user_request, rest_repository_create_request,
    rest_repository_get_request, sourcehut_create_request, sourcehut_me_request,
    sourcehut_repository_exists, sourcehut_username, trim_http_body, CreateAction, CreateForge,
    CreateStage, HttpResponse, RemoteRepoParts,
};
use repo_manager::locator::Locator;

fn test_config(root: &str) -> Config {
    Config {
        config_path: format!("{root}/config.json"),
        state: format!("{root}/repos.sqlite"),
        cache_root: format!("{root}/cache"),
        root: format!("{root}/code"),
        clone_root: format!("{root}/code/clones"),
        dev_worktree_root: format!("{root}/code/dev-worktrees"),
        rpc_url: format!("unix://{root}/repo-manager.sock"),
        client_id: "00000000-0000-4000-8000-000000000099".to_string(),
        assume_origin_as_canonical: false,
        clone_as_bare: false,
        create_default_visibility: RepoVisibility::Private,
        forges: Vec::new(),
    }
}

fn create(url: &str, private: bool, public: bool) -> CreateArgs {
    CreateArgs {
        url: url.to_string(),
        private,
        public,
    }
}

#[test]
fn create_resolves_builtin_and_configured_forges() {
    let config = test_config("/tmp/repo-manager-test");
    let github = resolve_create_forge(
        &config,
        &Locator::parse("https://github.com/example/project.git").unwrap(),
    )
    .unwrap();
    assert_eq!(github.backend, ForgeBackend::Github);
    assert_eq!(github.token_envs, vec!["GITHUB_TOKEN"]);
    assert_eq!(github.api_base_url, "https://api.github.com");

    let sourcehut = resolve_create_forge(
        &config,
        &Locator::parse("https://git.sr.ht/~me/tool").unwrap(),
    )
    .unwrap();
    assert_eq!(sourcehut.backend, ForgeBackend::Sourcehut);
    assert_eq!(
        sourcehut.token_envs,
        vec!["SOURCEHUT_TOKEN".to_string(), "SRHT_TOKEN".to_string()]
    );
    assert_eq!(sourcehut.api_base_url, "https://git.sr.ht/query");

    let mut configured = config;
    configured.forges.push(ForgeEntry {
        authority: "git.example.test".to_string(),
        forge: ForgeConfig {
            backend: ForgeBackend::Forgejo,
            token_env: Some("EXAMPLE_FORGE_TOKEN".to_string()),
            api_base_url: Some("https://git.example.test/api-root".to_string()),
        },
    });
    let forge = resolve_create_forge(
        &configured,
        &Locator::parse("https://git.example.test/me/tool.git").unwrap(),
    )
    .unwrap();
    assert_eq!(forge.backend, ForgeBackend::Forgejo);
    assert_eq!(forge.token_envs, vec!["EXAMPLE_FORGE_TOKEN"]);
    assert_eq!(forge.api_base_url, "https://git.example.test/api-root");

    assert!(resolve_create_forge(
        &configured,
        &Locator::parse("https://git.unconfigured.test/me/tool.git").unwrap(),
    )
    .is_err());
}

#[test]
fn create_visibility_prefers_cli_flags_over_config_default() {
    let mut config = test_config("/tmp/repo-manager-test");
    config.create_default_visibility = RepoVisibility::Public;
    assert_eq!(
        create_visibility(&config, &create("github.com/me/tool", false, false)),
        RepoVisibility::Public
    );
    assert_eq!(
        create_visibility(&config, &create("github.com/me/tool", true, false)),
        RepoVisibility::Private
    );
}

#[test]
fn create_builds_rest_and_sourcehut_requests() {
    let github = CreateForge {
        backend: ForgeBackend::Github,
        token_envs: vec!["GITHUB_TOKEN".to_string()],
        api_base_url: "https://api.github.com".to_string(),
    };
    let parts = RemoteRepoParts {
        owner: "org".to_string(),
        name: "tool".to_string(),
    };
    let github_request =
        rest_repository_create_request(&github, &parts, RepoVisibility::Public, "tok", "me", true);
    assert_eq!(github_request.method, "POST");
    assert_eq!(github_request.url, "https://api.github.com/orgs/org/repos");
    assert!(github_request
        .headers
        .contains(&("Authorization".to_string(), "Bearer tok".to_string())));
    let github_body: serde_json::Value =
        serde_json::from_str(github_request.body.as_deref().unwrap()).unwrap();
    assert_eq!(github_body["name"], "tool");
    assert_eq!(github_body["private"], false);

    let forgejo = CreateForge {
        backend: ForgeBackend::Forgejo,
        token_envs: vec!["FORGEJO_TOKEN".to_string()],
        api_base_url: "https://git.example.test".to_string(),
    };
    let forgejo_request = rest_authenticated_user_request(&forgejo, "tok", false);
    assert_eq!(forgejo_request.url, "https://git.example.test/api/v1/user");
    assert!(forgejo_request
        .headers
        .contains(&("Authorization".to_string(), "token tok".to_string())));

    let sourcehut = CreateForge {
        backend: ForgeBackend::Sourcehut,
        token_envs: vec!["SOURCEHUT_TOKEN".to_string()],
        api_base_url: "https://git.sr.ht/query".to_string(),
    };
    let sourcehut_request =
        sourcehut_create_request(&sourcehut, "tok", "tool", RepoVisibility::Private);
    assert_eq!(sourcehut_request.method, "POST");
    assert_eq!(sourcehut_request.url, "https://git.sr.ht/query");
    let sourcehut_body: serde_json::Value =
        serde_json::from_str(sourcehut_request.body.as_deref().unwrap()).unwrap();
    assert_eq!(sourcehut_body["variables"]["name"], "tool");
    assert_eq!(sourcehut_body["variables"]["visibility"], "PRIVATE");
}

#[test]
fn sourcehut_create_requires_tilde_owner_paths() {
    let locator = Locator::parse("https://git.sr.ht/~john/tool").unwrap();
    assert_eq!(
        parse_sourcehut_repo(&locator).unwrap(),
        RemoteRepoParts {
            owner: "john".to_string(),
            name: "tool".to_string()
        }
    );
    assert!(
        parse_sourcehut_repo(&Locator::parse("https://git.sr.ht/john/tool").unwrap()).is_err()
    );
}

#[test]
fn names_are_quoted_in_request_bodies() {
    let forge = CreateForge {
        backend: ForgeBackend::Sourcehut,
        token_envs: vec![],
        api_base_url: "https://git.sr.ht/query".to_string(),
    };
    let request =
        sourcehut_create_request(&forge, "tok", "to\"ol\\", RepoVisibility::Public);
    let body: serde_json::Value = serde_json::from_str(request.body.as_deref().unwrap()).unwrap();
    assert_eq!(body["variables"]["name"], "to\"ol\\");
    assert_eq!(body["variables"]["visibility"], "PUBLIC");
}

#[test]
fn create_refuses_a_taken_place() {
    let config = test_config("/work");
    let locator = Locator::parse("https://github.com/me/tool").unwrap();
    let args = create("https://github.com/me/tool", false, false);
    let path = "/work/code/clones/github.com/me/tool";
    assert!(plan_create(&config, &locator, &args, path, true)
        .unwrap_err()
        .message
        .contains(path));
    let plan = plan_create(&config, &locator, &args, path, false).unwrap();
    assert_eq!(plan.visibility, RepoVisibility::Private);
    assert_eq!(plan.forge.backend, ForgeBackend::Github);
}

#[test]
fn tokens_come_from_the_first_variable_that_is_set() {
    let envs = vec!["SOURCEHUT_TOKEN".to_string(), "SRHT_TOKEN".to_string()];
    assert_eq!(
        read_forge_token(&envs, &vec![None, Some("tok".to_string())]).unwrap(),
        "tok"
    );
    let error = read_forge_token(&envs, &vec![None, None]).unwrap_err();
    assert!(error.message.contains("SOURCEHUT_TOKEN"));
}

fn response(status: u16, body: &str) -> HttpResponse {
    HttpResponse {
        status,
        body: body.to_string(),
    }
}

#[test]
fn github_repositories_are_looked_up_before_they_are_created() {
    let config = test_config("/work");
    let locator = Locator::parse("https://github.com/me/tool").unwrap();
    let forge = resolve_create_forge(&config, &locator).unwrap();

    let first = begin_create(&forge, &locator, "tok").unwrap();
    let stage = match first {
        CreateAction::Send { request, stage } => {
            assert_eq!(request.method, "GET");
            assert_eq!(request.url, "https://api.github.com/user");
            stage
        }
        CreateAction::Created => panic!("nothing was asked"),
    };
    let second = continue_create(
        &forge,
        &locator,
        RepoVisibility::Private,
        "tok",
        &stage,
        &response(200, r#"{"login":"me"}"#),
    )
    .unwrap();
    let stage = match second {
        CreateAction::Send { request, stage } => {
            assert_eq!(request.method, "GET");
            assert_eq!(request.url, "https://api.github.com/repos/me/tool");
            stage
        }
        CreateAction::Created => panic!("nothing was looked up"),
    };
    let taken = continue_create(
        &forge,
        &locator,
        RepoVisibility::Private,
        "tok",
        &stage,
        &response(200, "{}"),
    );
    assert!(taken.is_err());
    let third = continue_create(
        &forge,
        &locator,
        RepoVisibility::Private,
        "tok",
        &stage,
        &response(404, "{}"),
    )
    .unwrap();
    let stage = match third {
        CreateAction::Send { request, stage } => {
            assert_eq!(request.method, "POST");
            assert_eq!(request.url, "https://api.github.com/user/repos");
            stage
        }
        CreateAction::Created => panic!("nothing was created"),
    };
    assert!(matches!(stage, CreateStage::RestCreate));
    let last = continue_create(
        &forge,
        &locator,
        RepoVisibility::Private,
        "tok",
        &stage,
        &response(201, "{}"),
    )
    .unwrap();
    assert!(matches!(last, CreateAction::Created));
    assert!(continue_create(
        &forge,
        &locator,
        RepoVisibility::Private,
        "tok",
        &stage,
        &response(500, "oops"),
    )
    .is_err());
}

#[test]
fn sourcehut_repositories_belong_to_the_token_owner() {
    let config = test_config("/work");
    let locator = Locator::parse("https://git.sr.ht/~me/tool").unwrap();
    let forge = resolve_create_forge(&config, &locator).unwrap();
    let stage = match begin_create(&forge, &locator, "tok").unwrap() {
        CreateAction::Send { request, stage } => {
            assert_eq!(request.url, sourcehut_me_request(&forge, "tok").url);
            stage
        }
        CreateAction::Created => panic!("nothing was asked"),
    };
    let next = |body: &str| {
        continue_create(
            &forge,
            &locator,
            RepoVisibility::Public,
            "tok",
            &stage,
            &response(200, body),
        )
    };
    assert!(next(r#"{"data":{"me":{"username":"you"}}}"#).is_err());
    assert!(next(r#"{"errors":[{"message":"no"}]}"#).is_err());
    assert!(matches!(
        next(r#"{"data":{"me":{"username":"me"}}}"#).unwrap(),
        CreateAction::Send {
            stage: CreateStage::SourcehutLookup,
            ..
        }
    ));
}

#[test]
fn answers_of_forges_are_read() {
    assert_eq!(
        rest_authenticated_user(&response(200, r#"{"login":"me"}"#)).unwrap(),
        "me"
    );
    assert!(rest_authenticated_user(&response(401, "no")).is_err());
    assert!(rest_authenticated_user(&response(200, "{}")).is_err());
    assert!(rest_authenticated_user(&response(200, "nothing")).is_err());
    assert!(ensure_sourcehut_success(&response(500, "{}"), "looking").is_err());
    assert!(ensure_sourcehut_success(&response(200, r#"{"data":{}}"#), "looking").is_ok());
    assert_eq!(
        sourcehut_username(r#"{"data":{"me":{"canonicalName":"~me"}}}"#).unwrap(),
        "me"
    );
    assert!(sourcehut_repository_exists(r#"{"data":{"repositoryByPath":{"id":1}}}"#).is_ok());
    assert_eq!(trim_http_body("  a\nb "), "a\nb");
}

#[test]
fn owners_and_names_are_the_two_parts_of_the_path() {
    let parts = parse_owner_repo(&Locator::parse("github.com/me/tool").unwrap()).unwrap();
    assert_eq!(parts.owner, "me");
    assert_eq!(parts.name, "tool");
    assert!(parse_owner_repo(&Locator::parse("github.com/group/sub/tool").unwrap()).is_err());
    assert!(parse_owner_repo(&Locator::parse("github.com/tool").unwrap()).is_err());
}

#[test]
fn forges_have_default_tokens_and_bases() {
    assert_eq!(default_token_env(ForgeBackend::Github), "GITHUB_TOKEN");
    assert_eq!(
        default_api_base_url(ForgeBackend::Github, "github.com"),
        "https://api.github.com"
    );
    assert_eq!(
        default_api_base_url(ForgeBackend::Forgejo, "git.example.test"),
        "https://git.example.test"
    );
    let forge = CreateForge {
        backend: ForgeBackend::Forgejo,
        token_envs: vec![],
        api_base_url: "https://git.example.test".to_string(),
    };
    let parts = RemoteRepoParts {
        owner: "me".to_string(),
        name: "tool".to_string(),
    };
    assert_eq!(
        rest_repository_get_request(&forge, &parts, "tok", false).url,
        "https://git.example.test/api/v1/repos/me/tool"
    );
}

#[test]
fn curl_calls_are_written_and_read() {
    let forge = CreateForge {
        backend: ForgeBackend::Github,
        token_envs: vec![],
        api_base_url: "https://api.github.com".to_string(),
    };
    let request = rest_authenticated_user_request(&forge, "tok", true);
    let args = curl_args(&request);
    assert_eq!(args.last().unwrap(), "https://api.github.com/user");
    assert!(args.contains(&"Authorization: Bearer tok".to_string()));

    let read = read_curl_output("{\"a\":1}\nrepo-manager-http-status:200").unwrap();
    assert_eq!(read.status, 200);
    assert_eq!(read.body, "{\"a\":1}");
    assert!(read_curl_output("nothing").is_err());
    assert!(read_curl_output("body\nrepo-manager-http-status:abc").is_err());
}

fn cached() {
    let locator = Locator::parse("github.com/old-owner/old-name").unwrap();
    assert_eq!(
        github_cache_path("/work/cache", &locator),
        "/work/cache/github.com/old-owner/old-name.json"
    );
    assert_eq!(
        cached_github_locator(r#"{"full_name":"new-owner/new-name"}"#).unwrap(),
        Locator::parse("github.com/new-owner/new-name").unwrap()
    );
}

#[test]
fn github_api_responses_are_cached_under_cache_root() {
    cached();
}

#[test]
fn lib_github_api_responses_are_cached_under_cache_root() {
    cached();
}

fn full_name() {
    let locator = github_locator_from_api_json(r#"{"id":123,"full_name":"new-owner/new-name"}"#)
        .unwrap()
        .unwrap();
    assert_eq!(
        locator,
        Locator::parse("github.com/new-owner/new-name").unwrap()
    );
}

#[test]
fn parses_github_api_full_name_as_locator() {
    full_name();
}

#[test]
fn lib_parses_github_api_full_name_as_locator() {
    full_name();
}

#[test]
fn only_github_locators_are_looked_up() {
    assert_eq!(
        github_api_url(&Locator::parse("github.com/me/tool").unwrap()).unwrap(),
        "https://api.github.com/repos/me/tool"
    );
    assert!(github_api_url(&Locator::parse("example.com/me/tool").unwrap()).is_none());
    assert!(github_curl_args("https://api.github.com/repos/me/tool")
        .contains(&"https://api.github.com/repos/me/tool".to_string()));
    assert!(github_locator_from_api_json(r#"{"id":1}"#).unwrap().is_none());
    assert!(github_locator_from_api_json("nothing").is_err());
    assert!(cached_github_locator("nothing").is_none());
}
