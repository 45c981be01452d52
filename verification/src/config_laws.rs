//! What holds of every set of settings, wherever they come from.
use crate::cli::{ConfigArgs, DaemonConfigArgs, SetupArgs};
use crate::client_id::checked_client_id;
use crate::config::{
    config_for, config_version_of, daemon_config_for, default_endpoint, forge_map, judged, layered,
    merged, setup_for, stated_version, xdg_config_paths, BaseDirectoriesView, ConfigView,
    FileConfig, FileConfigView, ForgeConfigView, ForgeEntry, RepoVisibility,
};
use crate::json::json_at;
use crate::paths::join_path;
use crate::text::{opt_view, split};
use vstd::prelude::*;

verus! {

/// A setting is what is given where something is, and otherwise what is filed, and
/// otherwise the default.
pub open spec fn takes<T>(value: T, given: Option<T>, filed: Option<T>, default: T) -> bool {
    &&& given is Some ==> value == given->0
    &&& given is None && filed is Some ==> value == filed->0
    &&& given is None && filed is None ==> value == default
}

/// What is said last holds, and what was said before holds where nothing is said.
pub open spec fn overrides<T>(value: Option<T>, later: Option<T>, earlier: Option<T>) -> bool {
    &&& later is Some ==> value == later
    &&& later is None ==> value == earlier
}

/// The command line holds over the config files, and these over the defaults, for each
/// setting by itself. Clones and worktrees stand in directories of their own below the
/// root.
pub proof fn given_settings_win(
    args: ConfigArgs,
    config_path: Seq<char>,
    file: FileConfigView,
    dirs: BaseDirectoriesView,
    endpoint: Seq<char>,
    random: Option<[u8; 16]>,
)
    ensures
        config_for(args, config_path, file, Some(dirs), endpoint, random) matches Ok(config) ==> {
            let state_dir = if dirs.state_dir is Some {
                dirs.state_dir->0
            } else {
                join_path(dirs.home_dir, ".local/state"@)
            };
            &&& config.config_path == config_path
            &&& takes(
                config.state,
                opt_view(args.state),
                file.state,
                join_path(state_dir, "repo-manager/repos.sqlite"@),
            )
            &&& takes(
                config.cache_root,
                opt_view(args.cache_root),
                file.cache_root,
                join_path(dirs.cache_dir, "repo-manager"@),
            )
            &&& takes(config.root, opt_view(args.root), file.root, join_path(dirs.home_dir, "code"@))
            &&& config.clone_root == join_path(config.root, "clones"@)
            &&& config.dev_worktree_root == join_path(config.root, "dev-worktrees"@)
            &&& takes(config.rpc_url, opt_view(args.rpc_url), file.rpc_url, endpoint)
            &&& takes(
                config.assume_origin_as_canonical,
                args.assume_origin_as_canonical,
                file.assume_origin_as_canonical,
                false,
            )
            &&& takes(config.clone_as_bare, None, file.clone_as_bare, false)
            &&& takes(
                config.create_default_visibility,
                None,
                file.create_default_visibility,
                RepoVisibility::Private,
            )
            &&& takes(config.forges, None, file.forges, Map::empty())
            &&& args.client_id is Some ==> checked_client_id(args.client_id->0@) == Ok::<
                Seq<char>,
                Seq<char>,
            >(config.client_id)
            &&& args.client_id is None && file.client_id is Some ==> checked_client_id(
                file.client_id->0,
            ) == Ok::<Seq<char>, Seq<char>>(config.client_id)
        },
        config_for(args, config_path, file, None, endpoint, random) is Err,
        config_for(args, config_path, file, Some(dirs), endpoint, random) is Ok <==> (
        if args.client_id is Some {
            checked_client_id(args.client_id->0@) is Ok
        } else if file.client_id is Some {
            checked_client_id(file.client_id->0) is Ok
        } else {
            random is Some
        }),
{
}

/// The same holds of the daemon, which fetches in the background only where it is told
/// how often.
pub proof fn given_daemon_settings_win(
    args: DaemonConfigArgs,
    file: FileConfigView,
    dirs: BaseDirectoriesView,
    endpoint: Seq<char>,
)
    ensures
        daemon_config_for(args, file, None, endpoint) is Err,
        daemon_config_for(args, file, Some(dirs), endpoint) matches Ok((config, url)) && {
            let state_dir = if dirs.state_dir is Some {
                dirs.state_dir->0
            } else {
                join_path(dirs.home_dir, ".local/state"@)
            };
            &&& takes(
                config.state,
                opt_view(args.state),
                file.state,
                join_path(state_dir, "repo-manager/repos.sqlite"@),
            )
            &&& takes(
                config.clone_start_ttl_minutes,
                args.clone_start_ttl_minutes,
                file.clone_start_ttl_minutes,
                60,
            )
            &&& takes(
                config.rpc_rate_limit_per_second,
                args.rpc_rate_limit_per_second,
                file.rpc_rate_limit_per_second,
                1,
            )
            &&& takes(config.detect_related, args.detect_related, file.detect_related, true)
            &&& overrides(
                config.background_fetch_minimum_interval_seconds,
                args.background_fetch_minimum_interval_seconds,
                file.background_fetch_minimum_interval_seconds,
            )
            &&& takes(url, opt_view(args.rpc_url), file.rpc_url, endpoint)
        },
{
}

/// A later layer holds over an earlier one, for each setting by itself.
pub proof fn later_layers_win(earlier: FileConfigView, later: FileConfigView)
    ensures
        ({
            let both = merged(earlier, later);
            &&& overrides(both.config_version, later.config_version, earlier.config_version)
            &&& overrides(both.state, later.state, earlier.state)
            &&& overrides(both.cache_root, later.cache_root, earlier.cache_root)
            &&& overrides(both.root, later.root, earlier.root)
            &&& overrides(both.rpc_url, later.rpc_url, earlier.rpc_url)
            &&& overrides(both.client_id, later.client_id, earlier.client_id)
            &&& overrides(
                both.assume_origin_as_canonical,
                later.assume_origin_as_canonical,
                earlier.assume_origin_as_canonical,
            )
            &&& overrides(both.clone_as_bare, later.clone_as_bare, earlier.clone_as_bare)
            &&& overrides(both.detect_related, later.detect_related, earlier.detect_related)
            &&& overrides(
                both.clone_start_ttl_minutes,
                later.clone_start_ttl_minutes,
                earlier.clone_start_ttl_minutes,
            )
            &&& overrides(
                both.rpc_rate_limit_per_second,
                later.rpc_rate_limit_per_second,
                earlier.rpc_rate_limit_per_second,
            )
            &&& overrides(
                both.background_fetch_minimum_interval_seconds,
                later.background_fetch_minimum_interval_seconds,
                earlier.background_fetch_minimum_interval_seconds,
            )
            &&& overrides(
                both.create_default_visibility,
                later.create_default_visibility,
                earlier.create_default_visibility,
            )
            &&& later.forges is None ==> both.forges == earlier.forges
            &&& earlier.forges is None ==> both.forges == later.forges
            &&& both.forges is Some <==> earlier.forges is Some || later.forges is Some
            &&& forall|authority: Seq<char>|
                later.forges is Some && later.forges->0.contains_key(authority)
                    ==> #[trigger] both.forges->0.contains_key(authority)
                    && both.forges->0[authority] == later.forges->0[authority]
            &&& forall|authority: Seq<char>|
                earlier.forges is Some && earlier.forges->0.contains_key(authority) && !(
                later.forges is Some && later.forges->0.contains_key(authority))
                    ==> #[trigger] both.forges->0.contains_key(authority)
                    && both.forges->0[authority] == earlier.forges->0[authority]
        }),
{
}

/// Of the entries for an authority the last one counts, and there is no forge without
/// an entry.
pub proof fn the_last_entry_counts(entries: Seq<ForgeEntry>, k: int)
    requires
        0 <= k < entries.len(),
        forall|j: int|
            k < j < entries.len() ==> (#[trigger] entries[j]).authority@ != entries[k].authority@,
    ensures
        forge_map(entries).contains_key(entries[k].authority@),
        forge_map(entries)[entries[k].authority@] == entries[k].forge@,
        forall|authority: Seq<char>| #[trigger]
            forge_map(entries).contains_key(authority) ==> exists|i: int|
                0 <= i < entries.len() && (#[trigger] entries[i]).authority@ == authority,
    decreases entries.len(),
{
    let rest = entries.drop_last();
    let n = entries.len() - 1;
    assert(entries[n] == entries.last());
    assert forall|j: int| 0 <= j < rest.len() implies #[trigger] rest[j] == entries[j] by {}
    if k < n {
        the_last_entry_counts(rest, k);
    }
    lemma_forge_entries(entries);
}

proof fn lemma_forge_entries(entries: Seq<ForgeEntry>)
    ensures
        forall|authority: Seq<char>| #[trigger]
            forge_map(entries).contains_key(authority) ==> exists|i: int|
                0 <= i < entries.len() && (#[trigger] entries[i]).authority@ == authority,
    decreases entries.len(),
{
    if entries.len() > 0 {
        let rest = entries.drop_last();
        lemma_forge_entries(rest);
        assert(entries[entries.len() - 1] == entries.last());
        assert forall|authority: Seq<char>| #[trigger]
            forge_map(entries).contains_key(authority) implies exists|i: int|
            0 <= i < entries.len() && (#[trigger] entries[i]).authority@ == authority by {
            if entries.last().authority@ != authority {
                assert(forge_map(rest).contains_key(authority));
                let i = choose|i: int|
                    0 <= i < rest.len() && (#[trigger] rest[i]).authority@ == authority;
                assert(entries[i] == rest[i]);
            }
        }
    }
}

/// A setting that the last layers are silent about is that of the last one that speaks.
pub proof fn the_last_layer_that_speaks_holds(layers: Seq<FileConfig>, k: int)
    requires
        0 <= k < layers.len(),
    ensures
        layers[k]@.root is Some && (forall|j: int|
            k < j < layers.len() ==> (#[trigger] layers[j])@.root is None) ==> layered(layers).root
            == layers[k]@.root,
        layers[k]@.client_id is Some && (forall|j: int|
            k < j < layers.len() ==> (#[trigger] layers[j])@.client_id is None) ==> layered(
            layers,
        ).client_id == layers[k]@.client_id,
        layers[k]@.clone_as_bare is Some && (forall|j: int|
            k < j < layers.len() ==> (#[trigger] layers[j])@.clone_as_bare is None) ==> layered(
            layers,
        ).clone_as_bare == layers[k]@.clone_as_bare,
    decreases layers.len(),
{
    let rest = layers.drop_last();
    if k < layers.len() - 1 {
        the_last_layer_that_speaks_holds(rest, k);
        assert(layers[layers.len() - 1] == layers.last());
        assert(rest[k] == layers[k]);
        assert forall|j: int| k < j < rest.len() implies #[trigger] rest[j] == layers[j] by {}
    }
}

/// Setting up writes what is given, and otherwise what is in force, and leaves the
/// daemon's settings alone.
pub proof fn setup_writes_what_is_in_force(config: ConfigView, args: SetupArgs)
    ensures
        ({
            let (path, file) = setup_for(config, args);
            &&& takes(path, opt_view(args.file), None, config.config_path)
            &&& file.config_version == Some(1u32)
            &&& file.state is Some && takes(file.state->0, opt_view(args.state), None, config.state)
            &&& file.cache_root is Some && takes(
                file.cache_root->0,
                opt_view(args.cache_root),
                None,
                config.cache_root,
            )
            &&& file.root is Some && takes(file.root->0, opt_view(args.root), None, config.root)
            &&& file.rpc_url is Some && takes(
                file.rpc_url->0,
                opt_view(args.rpc_url),
                None,
                config.rpc_url,
            )
            &&& file.client_id is Some && takes(
                file.client_id->0,
                opt_view(args.client_id),
                None,
                config.client_id,
            )
            &&& file.assume_origin_as_canonical is Some && takes(
                file.assume_origin_as_canonical->0,
                args.assume_origin_as_canonical,
                None,
                config.assume_origin_as_canonical,
            )
            &&& file.clone_as_bare == Some(config.clone_as_bare)
            &&& file.create_default_visibility == Some(config.create_default_visibility)
            &&& file.detect_related is None && file.clone_start_ttl_minutes is None
            &&& file.rpc_rate_limit_per_second is None
            &&& file.background_fetch_minimum_interval_seconds is None
            &&& file.forges is Some ==> file.forges->0 == config.forges
            &&& file.forges is None <==> config.forges == Map::<Seq<char>, ForgeConfigView>::empty()
        }),
{
}

/// A config file is taken exactly where it is in the one version there is and nothing
/// is said against it.
pub proof fn only_fitting_files_are_taken(
    version: u64,
    complaints: Result<Seq<Seq<char>>, Seq<char>>,
)
    ensures
        judged(version, complaints) is Ok <==> version == 1 && complaints is Ok
            && complaints->Ok_0.len() == 0,
{
}

/// The daemon listens in the user's runtime directory, and where there is none in one
/// below the temporary files that is named after the user.
pub proof fn endpoints_are_the_users_own(
    runtime_dir: Seq<char>,
    user: Seq<char>,
    temp_dir: Seq<char>,
)
    ensures
        runtime_dir.len() > 0 ==> default_endpoint(Some(runtime_dir), Some(user), temp_dir)
            == "unix://"@ + join_path(runtime_dir, "repo-manager/socket"@),
        default_endpoint(None, Some(user), temp_dir) == "unix://"@ + join_path(
            join_path(temp_dir, "repo-manager-"@ + user),
            "repo-manager/socket"@,
        ),
        default_endpoint(Some(seq![]), Some(user), temp_dir) == default_endpoint(
            None,
            Some(user),
            temp_dir,
        ),
        default_endpoint(None, None, temp_dir) == default_endpoint(
            None,
            Some("unknown"@),
            temp_dir,
        ),
{
}

/// There is one system-wide config file in each directory that is listed, in that
/// order.
pub proof fn each_directory_has_a_config_file(dirs: Seq<char>, i: int)
    requires
        dirs.len() > 0,
        0 <= i < split(dirs, ':').len(),
    ensures
        xdg_config_paths(Some(dirs)).len() == split(dirs, ':').len(),
        xdg_config_paths(Some(dirs))[i] == join_path(
            split(dirs, ':')[i],
            "repo-manager/config.json"@,
        ),
        xdg_config_paths(None) == xdg_config_paths(Some("/etc/xdg"@)),
        xdg_config_paths(Some(seq![])) == xdg_config_paths(Some("/etc/xdg"@)),
{
    reveal_strlit("/etc/xdg");
}

/// A config file is in the version that it states, the underscore spelling before the
/// other, and in the first version where it states none.
pub proof fn stated_versions_count(content: Seq<char>, version: u64)
    ensures
        ({
            let a = json_at(content, "/config_version"@);
            let b = json_at(content, "/config-version"@);
            let first = a is Ok && a->Ok_0 is Some;
            let second = b is Ok && b->Ok_0 is Some;
            &&& first ==> stated_version(content) == a->Ok_0->0.whole
            &&& !first && second ==> stated_version(content) == b->Ok_0->0.whole
            &&& !first && !second ==> stated_version(content) is None
            &&& config_version_of(Some(version)) == version
            &&& config_version_of(None) == 1
        }),
{
}

} // verus!
