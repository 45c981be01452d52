//! Settings: what a config file may hold, how config files are layered, and what
//! the command line, the files and the built-in defaults come to together.
use crate::cli::{ConfigArgs, DaemonConfigArgs, SetupArgs};
use crate::client_id::{
    checked_client_id, client_id_from, generated_client_id, generated_ids_are_version_four,
    random_bytes, validate_client_id, version_four,
};
use crate::error::{outcome, Error};
use crate::json::{json_at, json_lookup, schema_complaints, schema_fits};
use crate::paths::{join, join_path};
use crate::registry_relations::clone_text;
use crate::text::{
    decimal, decimal_text, join_texts, join_with, opt_view, split, split_text, views,
};
use vstd::prelude::*;

verus! {

broadcast use crate::text::lemma_views_push;

/// The version of the config file format that is written.
pub const CURRENT_CONFIG_VERSION: u32 = 1;

/// Whether the daemon looks for shared history when nothing says otherwise.
pub const DEFAULT_DETECT_RELATED: bool = true;

/// The JSON Schema of config files in version 1. Every setting may be left out
/// or null, and no other setting is known.
pub const CONFIG_SCHEMA_V1: &'static str = r#"{
  "$schema": "https://json-schema.org/draft/2020-12/schema",
  "title": "repo-manager config",
  "type": "object",
  "additionalProperties": false,
  "properties": {
    "config_version": { "enum": [1, null] },
    "config-version": { "enum": [1, null] },
    "state": { "type": ["string", "null"] },
    "cache_root": { "type": ["string", "null"] },
    "root": { "type": ["string", "null"] },
    "rpc_url": { "type": ["string", "null"] },
    "client_id": { "type": ["string", "null"] },
    "assume_origin_as_canonical": { "type": ["boolean", "null"] },
    "clone_as_bare": { "type": ["boolean", "null"] },
    "clone-as-bare": { "type": ["boolean", "null"] },
    "detect_related": { "type": ["boolean", "null"] },
    "clone_start_ttl_minutes": { "type": ["integer", "null"], "minimum": 0 },
    "rpc_rate_limit_per_second": { "type": ["integer", "null"], "minimum": 0 },
    "background_fetch_minimum_interval_seconds": { "type": ["integer", "null"], "minimum": 0 },
    "background-fetch-minimum-interval-seconds": { "type": ["integer", "null"], "minimum": 0 },
    "create_default_visibility": { "enum": ["private", "public", null] },
    "create-default-visibility": { "enum": ["private", "public", null] },
    "forges": {
      "type": ["object", "null"],
      "additionalProperties": {
        "type": "object",
        "additionalProperties": false,
        "required": ["backend"],
        "properties": {
          "backend": { "enum": ["github", "sourcehut", "forgejo"] },
          "token_env": { "type": ["string", "null"] },
          "token-env": { "type": ["string", "null"] },
          "api_base_url": { "type": ["string", "null"] },
          "api-base-url": { "type": ["string", "null"] }
        }
      }
    }
  }
}
"#;

/// Who can see a repository that is created.
#[derive(Debug, Clone, Copy, PartialEq, Eq, Structural)]
pub enum RepoVisibility {
    Private,
    Public,
}

impl Default for RepoVisibility {
    fn default() -> (r: RepoVisibility)
        ensures
            r == RepoVisibility::Private,
    {
        RepoVisibility::Private
    }
}

impl RepoVisibility {
    pub fn is_private(self) -> (r: bool)
        ensures
            r == (self == RepoVisibility::Private),
    {
        match self {
            RepoVisibility::Private => true,
            RepoVisibility::Public => false,
        }
    }

    /// How SourceHut names it.
    pub open spec fn sourcehut_name(self) -> Seq<char> {
        match self {
            RepoVisibility::Private => "PRIVATE"@,
            RepoVisibility::Public => "PUBLIC"@,
        }
    }

    pub fn sourcehut(self) -> (r: &'static str)
        ensures
            r@ == self.sourcehut_name(),
    {
        match self {
            RepoVisibility::Private => "PRIVATE",
            RepoVisibility::Public => "PUBLIC",
        }
    }
}

/// Which kind of service hosts repositories at an authority.
#[derive(Debug, Clone, Copy, PartialEq, Eq, Structural)]
pub enum ForgeBackend {
    Github,
    Sourcehut,
    Forgejo,
}

/// What a config file says about one forge.
#[derive(Debug)]
pub struct ForgeConfig {
    pub backend: ForgeBackend,
    pub token_env: Option<String>,
    pub api_base_url: Option<String>,
}

#[verifier::ext_equal]
pub struct ForgeConfigView {
    pub backend: ForgeBackend,
    pub token_env: Option<Seq<char>>,
    pub api_base_url: Option<Seq<char>>,
}

impl View for ForgeConfig {
    type V = ForgeConfigView;

    open spec fn view(&self) -> ForgeConfigView {
        ForgeConfigView {
            backend: self.backend,
            token_env: opt_view(self.token_env),
            api_base_url: opt_view(self.api_base_url),
        }
    }
}

impl Clone for ForgeConfig {
    fn clone(&self) -> (r: ForgeConfig)
        ensures
            r@ == self@,
    {
        ForgeConfig {
            backend: self.backend,
            token_env: clone_text(&self.token_env),
            api_base_url: clone_text(&self.api_base_url),
        }
    }
}

/// The forge at one authority.
#[derive(Debug)]
pub struct ForgeEntry {
    pub authority: String,
    pub forge: ForgeConfig,
}

impl View for ForgeEntry {
    type V = (Seq<char>, ForgeConfigView);

    open spec fn view(&self) -> (Seq<char>, ForgeConfigView) {
        (self.authority@, self.forge@)
    }
}

/// The forges that a list of entries describes: the last entry of an authority
/// holds.
pub open spec fn forge_map(entries: Seq<ForgeEntry>) -> Map<Seq<char>, ForgeConfigView>
    decreases entries.len(),
{
    if entries.len() == 0 {
        Map::empty()
    } else {
        forge_map(entries.drop_last()).insert(entries.last().authority@, entries.last().forge@)
    }
}

/// Writing one list of entries after another puts the second above the first.
pub proof fn lemma_forge_map_add(a: Seq<ForgeEntry>, b: Seq<ForgeEntry>)
    ensures
        forge_map(a + b) == forge_map(a).union_prefer_right(forge_map(b)),
    decreases b.len(),
{
    if b.len() == 0 {
        assert(a + b =~= a);
        assert(forge_map(a).union_prefer_right(forge_map(b)) =~= forge_map(a));
    } else {
        lemma_forge_map_add(a, b.drop_last());
        assert((a + b).drop_last() =~= a + b.drop_last());
        assert((a + b).last() == b.last());
        assert(forge_map(a + b) =~= forge_map(a).union_prefer_right(forge_map(b)));
    }
}

/// The forge at an authority, if one is described.
pub fn forge_at<'a>(entries: &'a Vec<ForgeEntry>, authority: &str) -> (r: Option<&'a ForgeConfig>)
    ensures
        match r {
            Some(forge) => forge_map(entries@).contains_key(authority@) && forge@ == forge_map(
                entries@,
            )[authority@],
            None => !forge_map(entries@).contains_key(authority@),
        },
{
    let mut i: usize = entries.len();
    proof {
        assert(entries@.take(i as int) =~= entries@);
    }
    while i > 0
        invariant
            i <= entries@.len(),
            forge_map(entries@.take(i as int)).contains_key(authority@) == forge_map(
                entries@,
            ).contains_key(authority@),
            forge_map(entries@).contains_key(authority@) ==> forge_map(
                entries@.take(i as int),
            )[authority@] == forge_map(entries@)[authority@],
        decreases i,
    {
        i -= 1;
        proof {
            assert(entries@.take(i + 1).drop_last() =~= entries@.take(i as int));
            assert(entries@.take(i + 1).last() == entries@[i as int]);
        }
        if entries[i].authority.as_str().eq(authority) {
            return Some(&entries[i].forge);
        }
    }
    None
}

fn clone_forges(entries: &Vec<ForgeEntry>) -> (r: Vec<ForgeEntry>)
    ensures
        r@.len() == entries@.len(),
        forge_map(r@) == forge_map(entries@),
{
    let mut r: Vec<ForgeEntry> = Vec::new();
    let mut i: usize = 0;
    while i < entries.len()
        invariant
            i <= entries@.len(),
            r@.len() == i,
            forge_map(r@) == forge_map(entries@.take(i as int)),
        decreases entries@.len() - i,
    {
        let ghost before = r@;
        r.push(
            ForgeEntry {
                authority: entries[i].authority.clone(),
                forge: entries[i].forge.clone(),
            },
        );
        proof {
            assert(r@.drop_last() =~= before);
            assert(entries@.take(i + 1).drop_last() =~= entries@.take(i as int));
            assert(entries@.take(i + 1).last() == entries@[i as int]);
        }
        i += 1;
    }
    proof {
        assert(entries@.take(i as int) =~= entries@);
    }
    r
}

/// What one config file says, or what several say together. A setting that is
/// not there is left to an earlier layer or a default.
#[derive(Debug)]
pub struct FileConfig {
    pub config_version: Option<u32>,
    pub state: Option<String>,
    pub cache_root: Option<String>,
    pub root: Option<String>,
    pub rpc_url: Option<String>,
    pub client_id: Option<String>,
    pub assume_origin_as_canonical: Option<bool>,
    pub clone_as_bare: Option<bool>,
    pub detect_related: Option<bool>,
    pub clone_start_ttl_minutes: Option<u64>,
    pub rpc_rate_limit_per_second: Option<u32>,
    pub background_fetch_minimum_interval_seconds: Option<u64>,
    pub create_default_visibility: Option<RepoVisibility>,
    pub forges: Option<Vec<ForgeEntry>>,
}

#[verifier::ext_equal]
pub struct FileConfigView {
    pub config_version: Option<u32>,
    pub state: Option<Seq<char>>,
    pub cache_root: Option<Seq<char>>,
    pub root: Option<Seq<char>>,
    pub rpc_url: Option<Seq<char>>,
    pub client_id: Option<Seq<char>>,
    pub assume_origin_as_canonical: Option<bool>,
    pub clone_as_bare: Option<bool>,
    pub detect_related: Option<bool>,
    pub clone_start_ttl_minutes: Option<u64>,
    pub rpc_rate_limit_per_second: Option<u32>,
    pub background_fetch_minimum_interval_seconds: Option<u64>,
    pub create_default_visibility: Option<RepoVisibility>,
    pub forges: Option<Map<Seq<char>, ForgeConfigView>>,
}

pub open spec fn opt_forges(o: Option<Vec<ForgeEntry>>) -> Option<
    Map<Seq<char>, ForgeConfigView>,
> {
    match o {
        Some(entries) => Some(forge_map(entries@)),
        None => None,
    }
}

impl View for FileConfig {
    type V = FileConfigView;

    open spec fn view(&self) -> FileConfigView {
        FileConfigView {
            config_version: self.config_version,
            state: opt_view(self.state),
            cache_root: opt_view(self.cache_root),
            root: opt_view(self.root),
            rpc_url: opt_view(self.rpc_url),
            client_id: opt_view(self.client_id),
            assume_origin_as_canonical: self.assume_origin_as_canonical,
            clone_as_bare: self.clone_as_bare,
            detect_related: self.detect_related,
            clone_start_ttl_minutes: self.clone_start_ttl_minutes,
            rpc_rate_limit_per_second: self.rpc_rate_limit_per_second,
            background_fetch_minimum_interval_seconds: self.background_fetch_minimum_interval_seconds,
            create_default_visibility: self.create_default_visibility,
            forges: opt_forges(self.forges),
        }
    }
}

/// A config file that says nothing.
pub open spec fn no_settings() -> FileConfigView {
    FileConfigView {
        config_version: None,
        state: None,
        cache_root: None,
        root: None,
        rpc_url: None,
        client_id: None,
        assume_origin_as_canonical: None,
        clone_as_bare: None,
        detect_related: None,
        clone_start_ttl_minutes: None,
        rpc_rate_limit_per_second: None,
        background_fetch_minimum_interval_seconds: None,
        create_default_visibility: None,
        forges: None,
    }
}

/// The first choice where there is one.
pub open spec fn first_of<T>(a: Option<T>, b: Option<T>) -> Option<T> {
    if a is Some {
        a
    } else {
        b
    }
}

/// What an earlier and a later layer say together: the later one holds wherever
/// it speaks, and forges are taken one by one.
pub open spec fn merged(earlier: FileConfigView, later: FileConfigView) -> FileConfigView {
    FileConfigView {
        config_version: first_of(later.config_version, earlier.config_version),
        state: first_of(later.state, earlier.state),
        cache_root: first_of(later.cache_root, earlier.cache_root),
        root: first_of(later.root, earlier.root),
        rpc_url: first_of(later.rpc_url, earlier.rpc_url),
        client_id: first_of(later.client_id, earlier.client_id),
        assume_origin_as_canonical: first_of(
            later.assume_origin_as_canonical,
            earlier.assume_origin_as_canonical,
        ),
        clone_as_bare: first_of(later.clone_as_bare, earlier.clone_as_bare),
        detect_related: first_of(later.detect_related, earlier.detect_related),
        clone_start_ttl_minutes: first_of(
            later.clone_start_ttl_minutes,
            earlier.clone_start_ttl_minutes,
        ),
        rpc_rate_limit_per_second: first_of(
            later.rpc_rate_limit_per_second,
            earlier.rpc_rate_limit_per_second,
        ),
        background_fetch_minimum_interval_seconds: first_of(
            later.background_fetch_minimum_interval_seconds,
            earlier.background_fetch_minimum_interval_seconds,
        ),
        create_default_visibility: first_of(
            later.create_default_visibility,
            earlier.create_default_visibility,
        ),
        forges: merged_forges(earlier.forges, later.forges),
    }
}

pub open spec fn merged_forges(
    earlier: Option<Map<Seq<char>, ForgeConfigView>>,
    later: Option<Map<Seq<char>, ForgeConfigView>>,
) -> Option<Map<Seq<char>, ForgeConfigView>> {
    match (earlier, later) {
        (Some(a), Some(b)) => Some(a.union_prefer_right(b)),
        (None, Some(b)) => Some(b),
        (a, None) => a,
    }
}

/// Layers one above the other, from the first to the last.
pub open spec fn layered(layers: Seq<FileConfig>) -> FileConfigView
    decreases layers.len(),
{
    if layers.len() == 0 {
        no_settings()
    } else {
        merged(layered(layers.drop_last()), layers.last()@)
    }
}

/// Layering is associative: it does not matter which neighbouring layers are put
/// together first.
pub proof fn layers_can_be_grouped(a: FileConfigView, b: FileConfigView, c: FileConfigView)
    ensures
        merged(merged(a, b), c) == merged(a, merged(b, c)),
{
    match (a.forges, b.forges, c.forges) {
        (Some(x), Some(y), Some(z)) => {
            assert(x.union_prefer_right(y).union_prefer_right(z) =~= x.union_prefer_right(
                y.union_prefer_right(z),
            ));
        },
        _ => {},
    }
}

/// A layer that says nothing changes nothing, above or below another.
pub proof fn silent_layers_change_nothing(a: FileConfigView)
    ensures
        merged(a, no_settings()) == a,
        merged(no_settings(), a) == a,
{
}

/// A forge that the later layer describes is taken from it whole, and one that
/// only the earlier layer describes stays.
pub proof fn forges_are_layered_one_by_one(
    earlier: Map<Seq<char>, ForgeConfigView>,
    later: Map<Seq<char>, ForgeConfigView>,
    authority: Seq<char>,
)
    ensures
        merged_forges(Some(earlier), Some(later)) matches Some(both) && {
            &&& both.contains_key(authority) == (earlier.contains_key(authority)
                || later.contains_key(authority))
            &&& later.contains_key(authority) ==> both[authority] == later[authority]
            &&& !later.contains_key(authority) && earlier.contains_key(authority)
                ==> both[authority] == earlier[authority]
        },
{
}

/// Puts a later choice above an earlier one.
fn overlay<T>(slot: &mut Option<T>, later: Option<T>)
    ensures
        *final(slot) == first_of(later, *old(slot)),
{
    if later.is_some() {
        *slot = later;
    }
}

impl FileConfig {
    pub fn empty() -> (r: FileConfig)
        ensures
            r@ == no_settings(),
    {
        FileConfig {
            config_version: None,
            state: None,
            cache_root: None,
            root: None,
            rpc_url: None,
            client_id: None,
            assume_origin_as_canonical: None,
            clone_as_bare: None,
            detect_related: None,
            clone_start_ttl_minutes: None,
            rpc_rate_limit_per_second: None,
            background_fetch_minimum_interval_seconds: None,
            create_default_visibility: None,
            forges: None,
        }
    }

    /// Puts a later layer above this one.
    pub fn merge(&mut self, other: FileConfig)
        ensures
            final(self)@ == merged(old(self)@, other@),
    {
        overlay(&mut self.config_version, other.config_version);
        overlay(&mut self.state, other.state);
        overlay(&mut self.cache_root, other.cache_root);
        overlay(&mut self.root, other.root);
        overlay(&mut self.rpc_url, other.rpc_url);
        overlay(&mut self.client_id, other.client_id);
        overlay(&mut self.assume_origin_as_canonical, other.assume_origin_as_canonical);
        overlay(&mut self.clone_as_bare, other.clone_as_bare);
        overlay(&mut self.detect_related, other.detect_related);
        overlay(&mut self.clone_start_ttl_minutes, other.clone_start_ttl_minutes);
        overlay(&mut self.rpc_rate_limit_per_second, other.rpc_rate_limit_per_second);
        overlay(
            &mut self.background_fetch_minimum_interval_seconds,
            other.background_fetch_minimum_interval_seconds,
        );
        overlay(&mut self.create_default_visibility, other.create_default_visibility);
        match other.forges {
            Some(later) => {
                let mut later = later;
                match self.forges.take() {
                    Some(earlier) => {
                        let mut entries = earlier;
                        proof {
                            lemma_forge_map_add(earlier@, later@);
                        }
                        entries.append(&mut later);
                        self.forges = Some(entries);
                    },
                    None => {
                        self.forges = Some(later);
                    },
                }
            },
            None => {},
        }
    }

    /// All layers together, the last above the others.
    pub fn load_layered(layers: Vec<FileConfig>) -> (r: FileConfig)
        ensures
            r@ == layered(layers@),
    {
        let ghost all = layers@;
        let mut rest = layers;
        let mut above: Vec<FileConfig> = Vec::new();
        while rest.len() > 0
            invariant
                all =~= rest@ + above@.reverse(),
            decreases rest@.len(),
        {
            match rest.pop() {
                Some(layer) => {
                    above.push(layer);
                },
                None => {},
            }
        }
        let mut config = FileConfig::empty();
        let ghost mut done: int = 0;
        proof {
            assert(all.take(0) =~= Seq::<FileConfig>::empty());
        }
        while above.len() > 0
            invariant
                0 <= done <= all.len(),
                above@.len() == all.len() - done,
                above@.reverse() =~= all.skip(done),
                config@ == layered(all.take(done)),
            decreases above@.len(),
        {
            match above.pop() {
                Some(layer) => {
                    proof {
                        assert(layer == all[done]) by {
                            assert(all.skip(done)[0] == all[done]);
                        }
                        assert(all.take(done + 1).drop_last() =~= all.take(done));
                        assert(all.take(done + 1).last() == all[done]);
                        done = done + 1;
                    }
                    config.merge(layer);
                    proof {
                        assert(above@.reverse() =~= all.skip(done)) by {
                            assert forall|k: int| 0 <= k < above@.len() implies
                                above@.reverse()[k] == all.skip(done)[k] by {
                                assert(all.skip(done - 1)[k + 1] == all[done + k]);
                            }
                        }
                    }
                },
                None => {},
            }
        }
        proof {
            assert(all.take(done) =~= all);
        }
        config
    }
}

/// The directories that the operating system gives to a user's programs.
#[derive(Debug)]
pub struct BaseDirectories {
    pub home_dir: String,
    pub config_dir: String,
    pub cache_dir: String,
    pub state_dir: Option<String>,
}

#[verifier::ext_equal]
pub struct BaseDirectoriesView {
    pub home_dir: Seq<char>,
    pub config_dir: Seq<char>,
    pub cache_dir: Seq<char>,
    pub state_dir: Option<Seq<char>>,
}

impl View for BaseDirectories {
    type V = BaseDirectoriesView;

    open spec fn view(&self) -> BaseDirectoriesView {
        BaseDirectoriesView {
            home_dir: self.home_dir@,
            config_dir: self.config_dir@,
            cache_dir: self.cache_dir@,
            state_dir: opt_view(self.state_dir),
        }
    }
}

impl BaseDirectoriesView {
    pub open spec fn config_path(self) -> Seq<char> {
        join_path(self.config_dir, "repo-manager/config.json"@)
    }

    /// The state directory, or the place in the home directory that stands in
    /// for it.
    pub open spec fn state_path(self) -> Seq<char> {
        join_path(
            match self.state_dir {
                Some(dir) => dir,
                None => join_path(self.home_dir, ".local/state"@),
            },
            "repo-manager/repos.sqlite"@,
        )
    }

    pub open spec fn cache_root(self) -> Seq<char> {
        join_path(self.cache_dir, "repo-manager"@)
    }

    pub open spec fn root(self) -> Seq<char> {
        join_path(self.home_dir, "code"@)
    }
}

impl BaseDirectories {
    pub fn default_config_path(&self) -> (r: String)
        ensures
            r@ == self@.config_path(),
    {
        join(self.config_dir.as_str(), "repo-manager/config.json")
    }

    pub fn default_state_path(&self) -> (r: String)
        ensures
            r@ == self@.state_path(),
    {
        let dir = match &self.state_dir {
            Some(dir) => dir.clone(),
            None => join(self.home_dir.as_str(), ".local/state"),
        };
        join(dir.as_str(), "repo-manager/repos.sqlite")
    }

    pub fn default_cache_root(&self) -> (r: String)
        ensures
            r@ == self@.cache_root(),
    {
        join(self.cache_dir.as_str(), "repo-manager")
    }

    pub fn default_root(&self) -> (r: String)
        ensures
            r@ == self@.root(),
    {
        join(self.home_dir.as_str(), "code")
    }
}

/// Where the system-wide config files stand: one in each directory that
/// `XDG_CONFIG_DIRS` lists, or in `/etc/xdg` where that is unset or empty.
pub open spec fn xdg_config_paths(dirs: Option<Seq<char>>) -> Seq<Seq<char>> {
    split(
        match dirs {
            Some(dirs) => if dirs.len() == 0 {
                "/etc/xdg"@
            } else {
                dirs
            },
            None => "/etc/xdg"@,
        },
        ':',
    ).map_values(|dir: Seq<char>| join_path(dir, "repo-manager/config.json"@))
}

pub fn xdg_config_dir_paths(dirs: &Option<String>) -> (r: Vec<String>)
    ensures
        views(r@) == xdg_config_paths(opt_view(*dirs)),
{
    let listed = match dirs {
        Some(dirs) => if dirs.as_str().is_empty() {
            split_text("/etc/xdg", ':')
        } else {
            split_text(dirs.as_str(), ':')
        },
        None => split_text("/etc/xdg", ':'),
    };
    let ghost all = xdg_config_paths(opt_view(*dirs));
    let mut r: Vec<String> = Vec::new();
    let mut i: usize = 0;
    while i < listed.len()
        invariant
            i <= listed@.len(),
            all == views(listed@).map_values(
                |dir: Seq<char>| join_path(dir, "repo-manager/config.json"@),
            ),
            views(r@) =~= all.take(i as int),
        decreases listed@.len() - i,
    {
        r.push(join(listed[i].as_str(), "repo-manager/config.json"));
        i += 1;
        proof {
            assert(all.take(i as int) =~= all.take(i - 1).push(all[i - 1]));
            assert(all[i - 1] == join_path(listed@[i - 1]@, "repo-manager/config.json"@));
        }
    }
    proof {
        assert(all.take(i as int) =~= all);
    }
    r
}

/// What of the environment decides where the daemon listens.
#[derive(Debug)]
pub struct RuntimeDirectories {
    pub runtime_dir: Option<String>,
    pub user: Option<String>,
    pub temp_dir: String,
}

/// The default endpoint: a socket in the user's runtime directory, or in a
/// directory of the user's own among the temporary files where there is none.
pub open spec fn default_endpoint(
    runtime_dir: Option<Seq<char>>,
    user: Option<Seq<char>>,
    temp_dir: Seq<char>,
) -> Seq<char> {
    "unix://"@ + join_path(
        if runtime_dir is Some && runtime_dir->0.len() > 0 {
            runtime_dir->0
        } else {
            join_path(
                temp_dir,
                "repo-manager-"@ + (match user {
                    Some(user) => user,
                    None => "unknown"@,
                }),
            )
        },
        "repo-manager/socket"@,
    )
}

impl View for RuntimeDirectories {
    type V = Seq<char>;

    /// Taken together they decide the default endpoint, and nothing else.
    open spec fn view(&self) -> Seq<char> {
        default_endpoint(opt_view(self.runtime_dir), opt_view(self.user), self.temp_dir@)
    }
}

pub fn default_rpc_url(dirs: &RuntimeDirectories) -> (r: String)
    ensures
        r@ == dirs@,
{
    let fallback = {
        let mut name = "repo-manager-".to_owned();
        match &dirs.user {
            Some(user) => name.append(user.as_str()),
            None => name.append("unknown"),
        }
        join(dirs.temp_dir.as_str(), name.as_str())
    };
    let base = match &dirs.runtime_dir {
        Some(dir) => if dir.as_str().is_empty() {
            fallback
        } else {
            dir.clone()
        },
        None => fallback,
    };
    let mut url = "unix://".to_owned();
    url.append(join(base.as_str(), "repo-manager/socket").as_str());
    url
}

pub open spec fn clone_root_of(root: Seq<char>) -> Seq<char> {
    join_path(root, "clones"@)
}

pub open spec fn dev_worktree_root_of(root: Seq<char>) -> Seq<char> {
    join_path(root, "dev-worktrees"@)
}

pub fn clone_root_for(root: &str) -> (r: String)
    ensures
        r@ == clone_root_of(root@),
{
    join(root, "clones")
}

pub fn dev_worktree_root_for(root: &str) -> (r: String)
    ensures
        r@ == dev_worktree_root_of(root@),
{
    join(root, "dev-worktrees")
}

/// The settings that a command runs with.
#[derive(Debug)]
pub struct Config {
    pub config_path: String,
    pub state: String,
    pub cache_root: String,
    pub root: String,
    pub clone_root: String,
    pub dev_worktree_root: String,
    pub rpc_url: String,
    pub client_id: String,
    pub assume_origin_as_canonical: bool,
    pub clone_as_bare: bool,
    pub create_default_visibility: RepoVisibility,
    pub forges: Vec<ForgeEntry>,
}

#[verifier::ext_equal]
pub struct ConfigView {
    pub config_path: Seq<char>,
    pub state: Seq<char>,
    pub cache_root: Seq<char>,
    pub root: Seq<char>,
    pub clone_root: Seq<char>,
    pub dev_worktree_root: Seq<char>,
    pub rpc_url: Seq<char>,
    pub client_id: Seq<char>,
    pub assume_origin_as_canonical: bool,
    pub clone_as_bare: bool,
    pub create_default_visibility: RepoVisibility,
    pub forges: Map<Seq<char>, ForgeConfigView>,
}

impl View for Config {
    type V = ConfigView;

    open spec fn view(&self) -> ConfigView {
        ConfigView {
            config_path: self.config_path@,
            state: self.state@,
            cache_root: self.cache_root@,
            root: self.root@,
            clone_root: self.clone_root@,
            dev_worktree_root: self.dev_worktree_root@,
            rpc_url: self.rpc_url@,
            client_id: self.client_id@,
            assume_origin_as_canonical: self.assume_origin_as_canonical,
            clone_as_bare: self.clone_as_bare,
            create_default_visibility: self.create_default_visibility,
            forges: forge_map(self.forges@),
        }
    }
}

/// The command line, then the config files, then the default.
pub open spec fn setting<T>(given: Option<T>, filed: Option<T>, default: T) -> T {
    match first_of(given, filed) {
        Some(value) => value,
        None => default,
    }
}

fn choose_text(given: &Option<String>, filed: Option<String>, default: String) -> (r: String)
    ensures
        r@ == setting(opt_view(*given), opt_view(filed), default@),
{
    match given {
        Some(text) => text.clone(),
        None => match filed {
            Some(text) => text,
            None => default,
        },
    }
}

/// The refusal of a system that does not say where a user's files belong.
pub open spec fn no_base_directories() -> Seq<char> {
    "could not determine XDG base directories"@
}

/// The client identifier: one that is given or filed is checked, and otherwise
/// one is made of random bytes.
pub open spec fn client_id_for(
    given: Option<Seq<char>>,
    filed: Option<Seq<char>>,
    random: Option<[u8; 16]>,
) -> Result<Seq<char>, Seq<char>> {
    match first_of(given, filed) {
        Some(id) => checked_client_id(id),
        None => generated_client_id(random),
    }
}

/// The settings that the command line, the config files and the defaults come
/// to. The system must say where a user's files belong even where all places are
/// set.
pub open spec fn config_for(
    args: ConfigArgs,
    config_path: Seq<char>,
    file: FileConfigView,
    dirs: Option<BaseDirectoriesView>,
    endpoint: Seq<char>,
    random: Option<[u8; 16]>,
) -> Result<ConfigView, Seq<char>> {
    match dirs {
        None => Err(no_base_directories()),
        Some(dirs) => {
            let root = setting(opt_view(args.root), file.root, dirs.root());
            match client_id_for(opt_view(args.client_id), file.client_id, random) {
                Err(message) => Err(message),
                Ok(client_id) => Ok(
                    ConfigView {
                        config_path,
                        state: setting(opt_view(args.state), file.state, dirs.state_path()),
                        cache_root: setting(
                            opt_view(args.cache_root),
                            file.cache_root,
                            dirs.cache_root(),
                        ),
                        root,
                        clone_root: clone_root_of(root),
                        dev_worktree_root: dev_worktree_root_of(root),
                        rpc_url: setting(opt_view(args.rpc_url), file.rpc_url, endpoint),
                        client_id,
                        assume_origin_as_canonical: setting(
                            args.assume_origin_as_canonical,
                            file.assume_origin_as_canonical,
                            false,
                        ),
                        clone_as_bare: setting(None, file.clone_as_bare, false),
                        create_default_visibility: setting(
                            None,
                            file.create_default_visibility,
                            RepoVisibility::Private,
                        ),
                        forges: match file.forges {
                            Some(forges) => forges,
                            None => Map::empty(),
                        },
                    },
                ),
            }
        },
    }
}

pub open spec fn opt_dirs(dirs: Option<BaseDirectories>) -> Option<BaseDirectoriesView> {
    match dirs {
        Some(dirs) => Some(dirs@),
        None => None,
    }
}

impl Config {
    /// The settings for given random bytes.
    pub fn resolve(
        args: &ConfigArgs,
        config_path: String,
        file: FileConfig,
        dirs: &Option<BaseDirectories>,
        runtime: &RuntimeDirectories,
        random: Option<[u8; 16]>,
    ) -> (r: Result<Config, Error>)
        ensures
            outcome(r) == config_for(
                *args,
                config_path@,
                file@,
                opt_dirs(*dirs),
                runtime@,
                random,
            ),
    {
        let dirs = match dirs {
            Some(dirs) => dirs,
            None => {
                return Err(Error::fixed("could not determine XDG base directories"));
            },
        };
        let state = choose_text(&args.state, file.state, dirs.default_state_path());
        let cache_root = choose_text(&args.cache_root, file.cache_root, dirs.default_cache_root());
        let root = choose_text(&args.root, file.root, dirs.default_root());
        let rpc_url = choose_text(&args.rpc_url, file.rpc_url, default_rpc_url(runtime));
        let client_id = match &args.client_id {
            Some(id) => validate_client_id(id.clone()),
            None => match file.client_id {
                Some(id) => validate_client_id(id),
                None => client_id_from(random),
            },
        };
        let client_id = match client_id {
            Ok(id) => id,
            Err(error) => {
                return Err(error);
            },
        };
        Ok(
            Config {
                config_path,
                state,
                cache_root,
                clone_root: clone_root_for(root.as_str()),
                dev_worktree_root: dev_worktree_root_for(root.as_str()),
                root,
                rpc_url,
                client_id,
                assume_origin_as_canonical: match args.assume_origin_as_canonical {
                    Some(given) => given,
                    None => match file.assume_origin_as_canonical {
                        Some(given) => given,
                        None => false,
                    },
                },
                clone_as_bare: match file.clone_as_bare {
                    Some(bare) => bare,
                    None => false,
                },
                create_default_visibility: match file.create_default_visibility {
                    Some(visibility) => visibility,
                    None => RepoVisibility::Private,
                },
                forges: match file.forges {
                    Some(forges) => forges,
                    None => Vec::new(),
                },
            },
        )
    }

    /// The settings, with a fresh client identifier where none is set.
    pub fn from_args(
        args: &ConfigArgs,
        config_path: String,
        file: FileConfig,
        dirs: &Option<BaseDirectories>,
        runtime: &RuntimeDirectories,
    ) -> (r: Result<Config, Error>)
        ensures
            exists|random: Option<[u8; 16]>|
                outcome(r) == #[trigger] config_for(
                    *args,
                    config_path@,
                    file@,
                    opt_dirs(*dirs),
                    runtime@,
                    random,
                ),
            first_of(opt_view(args.client_id), file@.client_id) is None ==> (r matches Ok(config)
                ==> version_four(config@.client_id)),
    {
        let random = if args.client_id.is_some() || file.client_id.is_some() {
            None
        } else {
            random_bytes()
        };
        proof {
            if let Some(bytes) = random {
                generated_ids_are_version_four(bytes);
            }
        }
        Config::resolve(args, config_path, file, dirs, runtime, random)
    }
}

/// The settings that the daemon runs with.
#[derive(Debug)]
pub struct DaemonConfig {
    pub state: String,
    pub detect_related: bool,
    pub clone_start_ttl_minutes: u64,
    pub rpc_rate_limit_per_second: u32,
    pub background_fetch_minimum_interval_seconds: Option<u64>,
}

#[verifier::ext_equal]
pub struct DaemonConfigView {
    pub state: Seq<char>,
    pub detect_related: bool,
    pub clone_start_ttl_minutes: u64,
    pub rpc_rate_limit_per_second: u32,
    pub background_fetch_minimum_interval_seconds: Option<u64>,
}

impl View for DaemonConfig {
    type V = DaemonConfigView;

    open spec fn view(&self) -> DaemonConfigView {
        DaemonConfigView {
            state: self.state@,
            detect_related: self.detect_related,
            clone_start_ttl_minutes: self.clone_start_ttl_minutes,
            rpc_rate_limit_per_second: self.rpc_rate_limit_per_second,
            background_fetch_minimum_interval_seconds: self.background_fetch_minimum_interval_seconds,
        }
    }
}

/// The daemon's settings and the endpoint that it listens at.
pub open spec fn daemon_config_for(
    args: DaemonConfigArgs,
    file: FileConfigView,
    dirs: Option<BaseDirectoriesView>,
    endpoint: Seq<char>,
) -> Result<(DaemonConfigView, Seq<char>), Seq<char>> {
    match dirs {
        None => Err(no_base_directories()),
        Some(dirs) => Ok(
            (
                DaemonConfigView {
                    state: setting(opt_view(args.state), file.state, dirs.state_path()),
                    detect_related: setting(
                        args.detect_related,
                        file.detect_related,
                        DEFAULT_DETECT_RELATED,
                    ),
                    clone_start_ttl_minutes: setting(
                        args.clone_start_ttl_minutes,
                        file.clone_start_ttl_minutes,
                        60,
                    ),
                    rpc_rate_limit_per_second: setting(
                        args.rpc_rate_limit_per_second,
                        file.rpc_rate_limit_per_second,
                        1,
                    ),
                    background_fetch_minimum_interval_seconds: first_of(
                        args.background_fetch_minimum_interval_seconds,
                        file.background_fetch_minimum_interval_seconds,
                    ),
                },
                setting(opt_view(args.rpc_url), file.rpc_url, endpoint),
            ),
        ),
    }
}

impl DaemonConfig {
    pub fn from_args(
        args: &DaemonConfigArgs,
        file: FileConfig,
        dirs: &Option<BaseDirectories>,
        runtime: &RuntimeDirectories,
    ) -> (r: Result<(DaemonConfig, String), Error>)
        ensures
            outcome(r) == daemon_config_for(*args, file@, opt_dirs(*dirs), runtime@),
    {
        let dirs = match dirs {
            Some(dirs) => dirs,
            None => {
                return Err(Error::fixed("could not determine XDG base directories"));
            },
        };
        let config = DaemonConfig {
            state: choose_text(&args.state, file.state, dirs.default_state_path()),
            detect_related: match args.detect_related {
                Some(detect) => detect,
                None => match file.detect_related {
                    Some(detect) => detect,
                    None => DEFAULT_DETECT_RELATED,
                },
            },
            clone_start_ttl_minutes: match args.clone_start_ttl_minutes {
                Some(minutes) => minutes,
                None => match file.clone_start_ttl_minutes {
                    Some(minutes) => minutes,
                    None => 60,
                },
            },
            rpc_rate_limit_per_second: match args.rpc_rate_limit_per_second {
                Some(limit) => limit,
                None => match file.rpc_rate_limit_per_second {
                    Some(limit) => limit,
                    None => 1,
                },
            },
            background_fetch_minimum_interval_seconds: match args.background_fetch_minimum_interval_seconds {
                Some(seconds) => Some(seconds),
                None => file.background_fetch_minimum_interval_seconds,
            },
        };
        let rpc_url = choose_text(&args.rpc_url, file.rpc_url, default_rpc_url(runtime));
        Ok((config, rpc_url))
    }
}

/// Where `setup` writes, and what.
#[derive(Debug)]
pub struct SetupResult {
    pub config_path: String,
    pub config: FileConfig,
}

impl View for SetupResult {
    type V = (Seq<char>, FileConfigView);

    open spec fn view(&self) -> (Seq<char>, FileConfigView) {
        (self.config_path@, self.config@)
    }
}

/// The settings in force, with those given to `setup` above them. Settings of the
/// daemon are not written, and forges only where there are some.
pub open spec fn setup_for(config: ConfigView, args: SetupArgs) -> (Seq<char>, FileConfigView) {
    (
        setting(opt_view(args.file), None, config.config_path),
        FileConfigView {
            config_version: Some(CURRENT_CONFIG_VERSION),
            state: Some(setting(opt_view(args.state), None, config.state)),
            cache_root: Some(setting(opt_view(args.cache_root), None, config.cache_root)),
            root: Some(setting(opt_view(args.root), None, config.root)),
            rpc_url: Some(setting(opt_view(args.rpc_url), None, config.rpc_url)),
            client_id: Some(setting(opt_view(args.client_id), None, config.client_id)),
            assume_origin_as_canonical: first_of(
                args.assume_origin_as_canonical,
                Some(config.assume_origin_as_canonical),
            ),
            clone_as_bare: Some(config.clone_as_bare),
            detect_related: None,
            clone_start_ttl_minutes: None,
            rpc_rate_limit_per_second: None,
            background_fetch_minimum_interval_seconds: None,
            create_default_visibility: Some(config.create_default_visibility),
            forges: if config.forges == Map::<Seq<char>, ForgeConfigView>::empty() {
                None
            } else {
                Some(config.forges)
            },
        },
    )
}

pub fn setup_config(config: &Config, args: SetupArgs) -> (r: SetupResult)
    ensures
        r@ == setup_for(config@, args),
{
    proof {
        if config.forges@.len() > 0 {
            assert(forge_map(config.forges@).contains_key(config.forges@.last().authority@));
        }
    }
    SetupResult {
        config_path: choose_text(&args.file, None, config.config_path.clone()),
        config: FileConfig {
            config_version: Some(CURRENT_CONFIG_VERSION),
            state: Some(choose_text(&args.state, None, config.state.clone())),
            cache_root: Some(choose_text(&args.cache_root, None, config.cache_root.clone())),
            root: Some(choose_text(&args.root, None, config.root.clone())),
            rpc_url: Some(choose_text(&args.rpc_url, None, config.rpc_url.clone())),
            client_id: Some(choose_text(&args.client_id, None, config.client_id.clone())),
            assume_origin_as_canonical: match args.assume_origin_as_canonical {
                Some(given) => Some(given),
                None => Some(config.assume_origin_as_canonical),
            },
            clone_as_bare: Some(config.clone_as_bare),
            detect_related: None,
            clone_start_ttl_minutes: None,
            rpc_rate_limit_per_second: None,
            background_fetch_minimum_interval_seconds: None,
            create_default_visibility: Some(config.create_default_visibility),
            forges: if config.forges.len() == 0 {
                None
            } else {
                Some(clone_forges(&config.forges))
            },
        },
    }
}

/// What `setup` writes gives the same settings when it is read back: all those of
/// `config` that `setup` was not told to change, whatever the defaults are.
pub proof fn setup_is_read_back(
    config: ConfigView,
    setup: SetupArgs,
    args: ConfigArgs,
    dirs: BaseDirectoriesView,
    endpoint: Seq<char>,
    random: Option<[u8; 16]>,
)
    requires
        opt_view(args.state) is None,
        opt_view(args.cache_root) is None,
        opt_view(args.root) is None,
        opt_view(args.rpc_url) is None,
        opt_view(args.client_id) is None,
        args.assume_origin_as_canonical is None,
        checked_client_id(setup_for(config, setup).1.client_id->0) is Ok,
    ensures
        ({
            let (path, file) = setup_for(config, setup);
            &&& config_for(args, path, file, Some(dirs), endpoint, random) matches Ok(read)
            &&& read.config_path == setting(opt_view(setup.file), None, config.config_path)
            &&& read.state == setting(opt_view(setup.state), None, config.state)
            &&& read.cache_root == setting(opt_view(setup.cache_root), None, config.cache_root)
            &&& read.root == setting(opt_view(setup.root), None, config.root)
            &&& read.rpc_url == setting(opt_view(setup.rpc_url), None, config.rpc_url)
            &&& read.client_id == setting(opt_view(setup.client_id), None, config.client_id)
            &&& read.assume_origin_as_canonical == setting(
                setup.assume_origin_as_canonical,
                None,
                config.assume_origin_as_canonical,
            )
            &&& read.clone_as_bare == config.clone_as_bare
            &&& read.create_default_visibility == config.create_default_visibility
            &&& read.forges == config.forges
        }),
{
}

/// The version that a config file states; the underscore spelling is looked for
/// first, and what is no whole number counts as nothing.
pub open spec fn stated_version(content: Seq<char>) -> Option<u64> {
    match json_at(content, "/config_version"@) {
        Ok(Some(found)) => found.whole,
        _ => match json_at(content, "/config-version"@) {
            Ok(Some(found)) => found.whole,
            _ => None,
        },
    }
}

/// The version that a config file is read in.
pub open spec fn config_version_of(stated: Option<u64>) -> u64 {
    match stated {
        Some(version) => version,
        None => CURRENT_CONFIG_VERSION as u64,
    }
}

fn unsupported_version(version: u64) -> (r: Error)
    ensures
        r@ == unsupported(version),
{
    let mut text = "unsupported repo-manager config version ".to_owned();
    text.append(decimal_text(version as u128).as_str());
    text.append("; supported versions: 1");
    Error::new(text)
}

pub open spec fn unsupported(version: u64) -> Seq<char> {
    "unsupported repo-manager config version "@ + decimal(version as nat)
        + "; supported versions: 1"@
}

/// What follows from a file's version and from the complaints about it.
pub open spec fn judged(version: u64, complaints: Result<Seq<Seq<char>>, Seq<char>>) -> Result<
    (),
    Seq<char>,
> {
    if version != 1 {
        Err(unsupported(version))
    } else {
        match complaints {
            Err(_) => Err("compiling repo-manager config JSON Schema"@),
            Ok(complaints) => if complaints.len() == 0 {
                Ok(())
            } else {
                Err(
                    "repo-manager config does not match schema v1: "@ + join_texts(
                        complaints,
                        "; "@,
                    ),
                )
            },
        }
    }
}

pub open spec fn complaint_views(r: Result<Vec<String>, String>) -> Result<
    Seq<Seq<char>>,
    Seq<char>,
> {
    match r {
        Ok(list) => Ok(views(list@)),
        Err(message) => Err(message@),
    }
}

pub fn judge_config(version: u64, complaints: &Result<Vec<String>, String>) -> (r: Result<
    (),
    Error,
>)
    ensures
        outcome(r) == judged(version, complaint_views(*complaints)),
{
    if version != 1 {
        return Err(unsupported_version(version));
    }
    match complaints {
        Err(_) => Err(Error::fixed("compiling repo-manager config JSON Schema")),
        Ok(complaints) => if complaints.len() == 0 {
            Ok(())
        } else {
            Err(
                Error::about(
                    "repo-manager config does not match schema v1: ",
                    join_with(complaints, "; ").as_str(),
                ),
            )
        },
    }
}

/// Whether complaints let a document fit its schema; nothing where there is no
/// verdict.
pub open spec fn verdict(complaints: Result<Seq<Seq<char>>, Seq<char>>) -> Option<bool> {
    match complaints {
        Ok(list) => Some(list.len() == 0),
        Err(_) => None,
    }
}

/// A judgement on a file in version 1 that agrees with whether the file fits.
pub open spec fn judged_by_schema(
    content: Seq<char>,
    complaints: Result<Seq<Seq<char>>, Seq<char>>,
    judgement: Result<(), Seq<char>>,
) -> bool {
    verdict(complaints) == schema_fits(CONFIG_SCHEMA_V1@, content) && judgement == judged(
        1,
        complaints,
    )
}

/// Checks the text of a config file. A file in another version is refused by its
/// number, before it is held against any schema; a file in version 1 is accepted
/// exactly when it satisfies the schema.
pub fn validate_config_json(content: &str) -> (r: Result<(), Error>)
    ensures
        ({
            let version = config_version_of(stated_version(content@));
            if version != 1 {
                outcome(r) == Err::<(), Seq<char>>(unsupported(version))
            } else {
                &&& r is Ok <==> schema_fits(CONFIG_SCHEMA_V1@, content@) == Some(true)
                &&& exists|complaints: Result<Seq<Seq<char>>, Seq<char>>| #[trigger]
                    judged_by_schema(content@, complaints, outcome(r))
            }
        }),
{
    let stated = match json_lookup(content, "/config_version") {
        Ok(Some(found)) => found.whole,
        _ => match json_lookup(content, "/config-version") {
            Ok(Some(found)) => found.whole,
            _ => None,
        },
    };
    let version: u64 = match stated {
        Some(version) => version,
        None => 1,
    };
    if version != 1 {
        return Err(unsupported_version(version));
    }
    let complaints = schema_complaints(CONFIG_SCHEMA_V1, content);
    let r = judge_config(version, &complaints);
    proof {
        assert(judged_by_schema(content@, complaint_views(complaints), outcome(r)));
    }
    r
}

/// Checks a config file on behalf of the user that it stands at `path`: it has to
/// be JSON, and to be valid.
pub fn check_config_file(path: &str, content: &str) -> (r: Result<(), Error>)
    ensures
        json_at(content@, Seq::empty()) is Err ==> outcome(r) == Err::<(), Seq<char>>(
            "parsing "@ + path@,
        ),
        json_at(content@, Seq::empty()) is Ok ==> ({
            let version = config_version_of(stated_version(content@));
            if version != 1 {
                outcome(r) == Err::<(), Seq<char>>(
                    "validating "@ + path@ + ": "@ + unsupported(version),
                )
            } else {
                &&& r is Ok <==> schema_fits(CONFIG_SCHEMA_V1@, content@) == Some(true)
                &&& exists|
                    complaints: Result<Seq<Seq<char>>, Seq<char>>,
                    judgement: Result<(), Seq<char>>,
                | #[trigger]
                    judged_by_schema(content@, complaints, judgement) && outcome(r) == (
                    match judgement {
                        Ok(()) => Ok::<(), Seq<char>>(()),
                        Err(message) => Err("validating "@ + path@ + ": "@ + message),
                    })
            }
        }),
{
    proof {
        reveal_strlit("");
        assert(""@ =~= Seq::empty());
    }
    if json_lookup(content, "").is_err() {
        return Err(Error::about("parsing ", path));
    }
    match validate_config_json(content) {
        Ok(()) => Ok(()),
        Err(error) => {
            let mut text = "validating ".to_owned();
            text.append(path);
            text.append(": ");
            text.append(error.message.as_str());
            Err(Error::new(text))
        },
    }
}

} // verus!
