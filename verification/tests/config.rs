use repo_manager::cli::{ConfigArgs, DaemonConfigArgs, SetupArgs};
use repo_manager::client_id::{
    client_id_from, format_uuid, generate_client_id, is_uuid_like, validate_client_id,
};
use repo_manager::config::{
    check_config_file, clone_root_for, default_rpc_url, dev_worktree_root_for, forge_at,
    judge_config, setup_config, validate_config_json, xdg_config_dir_paths, BaseDirectories,
    Config, DaemonConfig, FileConfig, ForgeBackend, ForgeConfig, ForgeEntry, RepoVisibility,
    RuntimeDirectories, CONFIG_SCHEMA_V1, CURRENT_CONFIG_VERSION,
};

fn test_rpc_url(root: &str) -> String {
    format!("unix://{root}/repo-manager.sock")
}

fn test_config(root: &str) -> Config {
    Config {
        config_path: format!("{root}/config.json"),
        state: format!("{root}/repos.sqlite"),
        cache_root: format!("{root}/cache"),
        root: format!("{root}/code"),
        clone_root: format!("{root}/code/clones"),
        dev_worktree_root: format!("{root}/code/dev-worktrees"),
        rpc_url: test_rpc_url(root),
        client_id: "00000000-0000-4000-8000-000000000099".to_string(),
        assume_origin_as_canonical: false,
        clone_as_bare: false,
        create_default_visibility: RepoVisibility::Private,
        forges: Vec::new(),
    }
}

fn text(value: &str) -> Option<String> {
    Some(value.to_string())
}

fn runtime() -> RuntimeDirectories {
    RuntimeDirectories {
        runtime_dir: text("/run/user/1000"),
        user: text("ada"),
        temp_dir: "/tmp".to_string(),
    }
}

fn base() -> Option<BaseDirectories> {
    Some(BaseDirectories {
        home_dir: "/home/ada".to_string(),
        config_dir: "/home/ada/.config".to_string(),
        cache_dir: "/home/ada/.cache".to_string(),
        state_dir: text("/home/ada/.local/state"),
    })
}

fn no_args() -> ConfigArgs {
    ConfigArgs {
        config: None,
        state: None,
        cache_root: None,
        root: None,
        rpc_url: None,
        client_id: None,
        assume_origin_as_canonical: None,
    }
}

fn no_daemon_args() -> DaemonConfigArgs {
    DaemonConfigArgs {
        config: None,
        state: None,
        rpc_url: None,
        detect_related: None,
        clone_start_ttl_minutes: None,
        rpc_rate_limit_per_second: None,
        background_fetch_minimum_interval_seconds: None,
    }
}

fn from_file() -> FileConfig {
    FileConfig {
        config_version: None,
        state: text("/work/state/from-file.sqlite"),
        cache_root: text("/work/cache/from-file"),
        root: text("/work/code/from-file"),
        rpc_url: text("unix:///tmp/repo-manager-from-file.sock"),
        client_id: text("00000000-0000-4000-8000-000000000001"),
        assume_origin_as_canonical: Some(false),
        clone_as_bare: Some(true),
        detect_related: Some(true),
        clone_start_ttl_minutes: Some(45),
        rpc_rate_limit_per_second: Some(7),
        background_fetch_minimum_interval_seconds: Some(3600),
        create_default_visibility: Some(RepoVisibility::Public),
        forges: Some(vec![ForgeEntry {
            authority: "git.example.test".to_string(),
            forge: ForgeConfig {
                backend: ForgeBackend::Forgejo,
                token_env: text("EXAMPLE_FORGE_TOKEN"),
                api_base_url: text("https://git.example.test"),
            },
        }]),
    }
}

fn file_and_command_line() {
    let args = ConfigArgs {
        config: text("/work/config/config.json"),
        state: None,
        cache_root: text("/work/cache/from-cli"),
        root: text("/work/code/from-cli"),
        rpc_url: text("unix:///tmp/repo-manager-from-cli.sock"),
        client_id: text("00000000-0000-4000-8000-000000000002"),
        assume_origin_as_canonical: Some(true),
    };
    let config = Config::from_args(
        &args,
        "/work/config/config.json".to_string(),
        from_file(),
        &base(),
        &runtime(),
    )
    .unwrap();

    assert_eq!(config.config_path, "/work/config/config.json");
    assert_eq!(config.state, "/work/state/from-file.sqlite");
    assert_eq!(config.cache_root, "/work/cache/from-cli");
    assert_eq!(config.root, "/work/code/from-cli");
    assert_eq!(config.clone_root, "/work/code/from-cli/clones");
    assert_eq!(config.dev_worktree_root, "/work/code/from-cli/dev-worktrees");
    assert_eq!(config.rpc_url, "unix:///tmp/repo-manager-from-cli.sock");
    assert_eq!(config.client_id, "00000000-0000-4000-8000-000000000002");
    assert!(config.assume_origin_as_canonical);
    assert!(config.clone_as_bare);
    assert_eq!(config.create_default_visibility, RepoVisibility::Public);
    assert_eq!(
        forge_at(&config.forges, "git.example.test").and_then(|forge| forge.token_env.as_deref()),
        Some("EXAMPLE_FORGE_TOKEN")
    );
    let (daemon_config, _rpc_url) =
        DaemonConfig::from_args(&no_daemon_args(), from_file(), &base(), &runtime()).unwrap();
    assert_eq!(
        daemon_config.background_fetch_minimum_interval_seconds,
        Some(3600)
    );
}

#[test]
fn file_config_loads_and_cli_values_override_it() {
    file_and_command_line();
}

#[test]
fn lib_file_config_loads_and_cli_values_override_it() {
    file_and_command_line();
}

#[test]
fn config_schema_v1_accepts_compatibility_fixtures() {
    let schema: serde_json::Value = serde_json::from_str(CONFIG_SCHEMA_V1).unwrap();
    jsonschema::validator_for(&schema).unwrap();

    let fixtures = [
        r#"{}"#,
        r#"{
            "root": "/home/test/code",
            "state": "/home/test/.local/state/repo-manager/repos.sqlite",
            "detect_related": true
        }"#,
        r#"{
            "config_version": 1,
            "clone_as_bare": true,
            "background_fetch_minimum_interval_seconds": 3600
        }"#,
        r#"{
            "config-version": 1,
            "clone-as-bare": true,
            "background-fetch-minimum-interval-seconds": 3600
        }"#,
        r#"{
            "config_version": null,
            "clone_as_bare": null,
            "background_fetch_minimum_interval_seconds": null
        }"#,
        r#"{
            "config_version": 1,
            "create_default_visibility": "public",
            "forges": {
                "git.example.test": {
                    "backend": "forgejo",
                    "token_env": "EXAMPLE_FORGE_TOKEN",
                    "api_base_url": "https://git.example.test"
                }
            }
        }"#,
    ];

    for fixture in fixtures {
        validate_config_json(fixture).unwrap();
    }
}

#[test]
fn config_schema_rejects_breaking_or_unknown_config_shapes() {
    assert!(validate_config_json(r#"{ "config_version": 2 }"#).is_err());
    assert!(validate_config_json(r#"{ "unknown": true }"#).is_err());
    assert!(
        validate_config_json(r#"{ "background_fetch_minimum_interval_seconds": -1 }"#).is_err()
    );
    assert!(validate_config_json(r#"{ "create_default_visibility": "protected" }"#).is_err());
    assert!(validate_config_json(
        r#"{ "forges": { "git.example.test": { "backend": "unknown" } } }"#
    )
    .is_err());
}

#[test]
fn daemon_shared_history_detection_defaults_to_enabled() {
    let (daemon_config, _rpc_url) =
        DaemonConfig::from_args(&no_daemon_args(), FileConfig::empty(), &base(), &runtime())
            .unwrap();

    assert!(daemon_config.detect_related);
}

#[test]
fn shared_history_detection_defaults_to_enabled() {
    let (daemon_config, _rpc_url) =
        DaemonConfig::from_args(&no_daemon_args(), FileConfig::empty(), &base(), &runtime())
            .unwrap();

    assert!(daemon_config.detect_related);
}

fn explicit_setup() {
    let mut config = test_config("/work");
    config.config_path = "/work/default/config.json".to_string();
    config.state = "/work/state/repos.sqlite".to_string();
    config.client_id = "00000000-0000-4000-8000-000000000003".to_string();

    let result = setup_config(
        &config,
        SetupArgs {
            file: text("/work/custom/repo-config.json"),
            state: None,
            cache_root: None,
            root: text("/work/custom-root"),
            rpc_url: text("unix:///tmp/repo-manager-explicit.sock"),
            client_id: text("00000000-0000-4000-8000-000000000004"),
            assume_origin_as_canonical: Some(true),
        },
    );

    assert_eq!(result.config_path, "/work/custom/repo-config.json");
    let saved = result.config;
    assert_eq!(saved.config_version, Some(CURRENT_CONFIG_VERSION));
    assert_eq!(saved.state, Some(config.state));
    assert_eq!(saved.cache_root, Some(config.cache_root));
    assert_eq!(saved.root, text("/work/custom-root"));
    assert_eq!(saved.rpc_url, text("unix:///tmp/repo-manager-explicit.sock"));
    assert_eq!(saved.client_id, text("00000000-0000-4000-8000-000000000004"));
    assert_eq!(saved.assume_origin_as_canonical, Some(true));
    assert_eq!(saved.detect_related, None);
    assert_eq!(saved.clone_start_ttl_minutes, None);
    assert_eq!(saved.rpc_rate_limit_per_second, None);
    assert_eq!(
        saved.create_default_visibility,
        Some(RepoVisibility::Private)
    );
    assert!(saved.forges.is_none());
}

#[test]
fn setup_can_write_an_explicit_config_file() {
    explicit_setup();
}

#[test]
fn lib_setup_can_write_an_explicit_config_file() {
    explicit_setup();
}

#[test]
fn setup_writes_the_default_config_file() {
    let config = test_config("/work");
    let result = setup_config(
        &config,
        SetupArgs {
            file: None,
            state: None,
            cache_root: None,
            root: None,
            rpc_url: None,
            client_id: None,
            assume_origin_as_canonical: None,
        },
    );
    assert_eq!(result.config_path, "/work/config.json");

    let read_back = Config::resolve(
        &no_args(),
        result.config_path,
        result.config,
        &base(),
        &runtime(),
        None,
    )
    .unwrap();
    assert_eq!(read_back.state, config.state);
    assert_eq!(read_back.cache_root, config.cache_root);
    assert_eq!(read_back.root, config.root);
    assert_eq!(read_back.clone_root, config.clone_root);
    assert_eq!(read_back.dev_worktree_root, config.dev_worktree_root);
    assert_eq!(read_back.rpc_url, config.rpc_url);
    assert_eq!(read_back.client_id, config.client_id);
}

fn layered() {
    let mut base = FileConfig::empty();
    base.state = text("/work/state/base.sqlite");
    base.cache_root = text("/work/cache/base");
    base.rpc_url = text("unix:///run/base.sock");
    base.assume_origin_as_canonical = Some(false);
    base.detect_related = Some(false);
    base.clone_start_ttl_minutes = Some(60);
    base.rpc_rate_limit_per_second = Some(1);

    let mut user = FileConfig::empty();
    user.config_version = Some(CURRENT_CONFIG_VERSION);
    user.cache_root = text("/work/cache/user");
    user.root = text("/work/code/user");
    user.client_id = text("00000000-0000-4000-8000-000000000005");
    user.assume_origin_as_canonical = Some(true);
    user.detect_related = Some(true);
    user.clone_start_ttl_minutes = Some(10);
    user.rpc_rate_limit_per_second = Some(9);

    base.merge(user);

    assert_eq!(base.state, text("/work/state/base.sqlite"));
    assert_eq!(base.cache_root, text("/work/cache/user"));
    assert_eq!(base.root, text("/work/code/user"));
    assert_eq!(base.rpc_url, text("unix:///run/base.sock"));
    assert_eq!(base.clone_start_ttl_minutes, Some(10));
    assert_eq!(base.client_id, text("00000000-0000-4000-8000-000000000005"));
    assert_eq!(base.assume_origin_as_canonical, Some(true));
    assert_eq!(base.detect_related, Some(true));
    assert_eq!(base.rpc_rate_limit_per_second, Some(9));
}

#[test]
fn file_config_merge_lets_later_layers_override_earlier_ones() {
    layered();
}

#[test]
fn lib_file_config_merge_lets_later_layers_override_earlier_ones() {
    layered();
}

#[test]
fn test_config_uses_isolated_state_and_rpc_endpoint() {
    let config = test_config("/work");

    assert_eq!(config.state, "/work/repos.sqlite");
    assert_eq!(config.rpc_url, test_rpc_url("/work"));
    assert_ne!(config.rpc_url, default_rpc_url(&runtime()));
}

fn forge(authority: &str, backend: ForgeBackend) -> ForgeEntry {
    ForgeEntry {
        authority: authority.to_string(),
        forge: ForgeConfig {
            backend,
            token_env: None,
            api_base_url: None,
        },
    }
}

#[test]
fn layered_forges_are_replaced_one_by_one() {
    let mut first = FileConfig::empty();
    first.forges = Some(vec![
        forge("one.test", ForgeBackend::Github),
        forge("two.test", ForgeBackend::Github),
    ]);
    let mut second = FileConfig::empty();
    second.forges = Some(vec![forge("two.test", ForgeBackend::Forgejo)]);
    let silent = FileConfig::empty();

    let merged = FileConfig::load_layered(vec![first, second, silent]);
    let forges = merged.forges.unwrap();
    assert_eq!(
        forge_at(&forges, "one.test").unwrap().backend,
        ForgeBackend::Github
    );
    assert_eq!(
        forge_at(&forges, "two.test").unwrap().backend,
        ForgeBackend::Forgejo
    );
    assert!(forge_at(&forges, "three.test").is_none());
}

#[test]
fn defaults_come_from_the_base_directories() {
    let random = [
        0u8, 17, 34, 51, 68, 85, 102, 119, 136, 153, 170, 187, 204, 221, 238, 255,
    ];
    let config = Config::resolve(
        &no_args(),
        "/home/ada/.config/repo-manager/config.json".to_string(),
        FileConfig::empty(),
        &base(),
        &runtime(),
        Some(random),
    )
    .unwrap();
    let dirs = base().unwrap();
    assert_eq!(config.state, dirs.default_state_path());
    assert_eq!(config.cache_root, dirs.default_cache_root());
    assert_eq!(config.root, dirs.default_root());
    assert_eq!(config.clone_root, clone_root_for(&dirs.default_root()));
    assert_eq!(
        config.dev_worktree_root,
        dev_worktree_root_for(&dirs.default_root())
    );
    assert_eq!(config.rpc_url, default_rpc_url(&runtime()));
    assert_eq!(config.client_id, "00112233-4455-4677-8899-aabbccddeeff");
    assert!(!config.assume_origin_as_canonical);
    assert!(!config.clone_as_bare);
    assert_eq!(config.create_default_visibility, RepoVisibility::Private);
}

#[test]
fn missing_base_directories_are_an_error() {
    let resolved = Config::resolve(
        &no_args(),
        "config.json".to_string(),
        FileConfig::empty(),
        &None,
        &runtime(),
        None,
    );
    assert!(resolved.is_err());
    assert!(
        DaemonConfig::from_args(&no_daemon_args(), FileConfig::empty(), &None, &runtime()).is_err()
    );
}

#[test]
fn client_ids_are_checked() {
    assert!(is_uuid_like("00000000-0000-4000-8000-000000000001"));
    assert!(is_uuid_like("ABCDEF00-0000-4000-8000-000000000001"));
    assert!(!is_uuid_like("00000000-0000-4000-8000-00000000000"));
    assert!(!is_uuid_like("00000000_0000-4000-8000-000000000001"));
    assert!(!is_uuid_like("g0000000-0000-4000-8000-000000000001"));
    assert!(validate_client_id("00000000-0000-4000-8000-000000000001".to_string()).is_ok());
    assert!(validate_client_id("ada".to_string()).is_err());
    assert!(client_id_from(None).is_err());
}

#[test]
fn generated_client_ids_are_fresh_and_of_version_four() {
    let first = generate_client_id().unwrap();
    let second = generate_client_id().unwrap();
    assert_ne!(first, second);
    assert!(is_uuid_like(&first));
    assert_eq!(first.as_bytes()[14], b'4');
    assert!(b"89ab".contains(&first.as_bytes()[19]));
    assert_eq!(
        client_id_from(Some([255u8; 16])).unwrap(),
        "ffffffff-ffff-4fff-bfff-ffffffffffff"
    );
    assert_eq!(
        format_uuid([1u8; 16]),
        "01010101-0101-0101-0101-010101010101"
    );
}

#[test]
fn search_directories_are_read_from_the_environment() {
    assert_eq!(
        xdg_config_dir_paths(&text("/etc/xdg:/opt/xdg")),
        vec![
            "/etc/xdg/repo-manager/config.json",
            "/opt/xdg/repo-manager/config.json"
        ]
    );
    assert_eq!(
        xdg_config_dir_paths(&None),
        vec!["/etc/xdg/repo-manager/config.json"]
    );
}

#[test]
fn endpoints_fall_back_to_the_temporary_directory() {
    assert_eq!(
        default_rpc_url(&runtime()),
        "unix:///run/user/1000/repo-manager/socket"
    );
    let bare = RuntimeDirectories {
        runtime_dir: None,
        user: text("ada"),
        temp_dir: "/tmp".to_string(),
    };
    assert_eq!(
        default_rpc_url(&bare),
        "unix:///tmp/repo-manager-ada/repo-manager/socket"
    );
}

#[test]
fn config_complaints_name_the_file() {
    let error = check_config_file("/work/config.json", r#"{ "unknown": true }"#).unwrap_err();
    assert!(error.message.starts_with(
        "validating /work/config.json: repo-manager config does not match schema v1: "
    ));
    assert!(check_config_file("/work/config.json", "{}").is_ok());
    let error = check_config_file("/work/config.json", "not json").unwrap_err();
    assert_eq!(error.message, "parsing /work/config.json");
    let error =
        check_config_file("/work/config.json", r#"{ "config_version": 2 }"#).unwrap_err();
    assert_eq!(
        error.message,
        "validating /work/config.json: unsupported repo-manager config version 2; supported \
         versions: 1"
    );
}

#[test]
fn only_the_current_config_version_is_supported() {
    let fine: Result<Vec<String>, String> = Ok(Vec::new());
    assert!(judge_config(1, &fine).is_ok());
    assert!(judge_config(2, &fine).is_err());
    let complaint: Result<Vec<String>, String> = Ok(vec!["wrong".to_string()]);
    assert!(judge_config(1, &complaint)
        .unwrap_err()
        .message
        .contains("wrong"));
    let unreadable: Result<Vec<String>, String> = Err("no schema".to_string());
    assert!(judge_config(1, &unreadable).is_err());
}
