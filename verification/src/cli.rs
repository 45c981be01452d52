//! The commands of the program, as plain values, and their grouped help.
use crate::error::Error;
use crate::help::{
    command_views, group_views, help_text, render_help_template, GroupView, HelpCommand,
    HelpCommandGroup, HelpGroup, HelpTemplate,
};
use vstd::prelude::*;

verus! {

/// One invocation of the program.
#[derive(Debug)]
pub struct Cli {
    pub config: ConfigArgs,
    pub dir: Option<String>,
    pub json: bool,
    pub command: Commands,
}

/// The settings that every command takes from the command line or the
/// environment.
#[derive(Debug)]
pub struct ConfigArgs {
    pub config: Option<String>,
    pub state: Option<String>,
    pub cache_root: Option<String>,
    pub root: Option<String>,
    pub rpc_url: Option<String>,
    pub client_id: Option<String>,
    pub assume_origin_as_canonical: Option<bool>,
}

/// The settings that the daemon takes from the command line or the
/// environment.
#[derive(Debug)]
pub struct DaemonConfigArgs {
    pub config: Option<String>,
    pub state: Option<String>,
    pub rpc_url: Option<String>,
    pub detect_related: Option<bool>,
    pub clone_start_ttl_minutes: Option<u64>,
    pub rpc_rate_limit_per_second: Option<u32>,
    pub background_fetch_minimum_interval_seconds: Option<u64>,
}

#[derive(Debug)]
pub enum Commands {
    Setup(SetupCommands),
    RepositoryOperations(RepositoryOperationCommands),
    OrganizationalChanges(OrganizationalChangeCommands),
    OrganizationalAnalysis(OrganizationalAnalysisCommands),
    Daemon(DaemonCommands),
}

#[derive(Debug)]
pub enum SetupCommands {
    Setup(SetupArgs),
}

#[derive(Debug)]
pub enum RepositoryOperationCommands {
    Clone(CloneArgs),
    Create(CreateArgs),
    Fetch(FetchArgs),
    Branch(BranchArgs),
    Manage(ManageArgs),
    Fork(ForkArgs),
    Check(CheckArgs),
    /// Deprecated, and hidden from the help.
    Repair(DeprecatedRepairArgs),
    Worktree(WorktreeAddArgs),
    Repos(RepoSetTypeArgs),
}

/// A move is the same hosted repository at a new locator. A successor records
/// that the canonical source continued elsewhere; it neither aliases paths nor
/// merges repository records.
#[derive(Debug)]
pub enum OrganizationalChangeCommands {
    Move(MoveArgs),
    Reconcile,
    Successor(SuccessorSetArgs),
}

#[derive(Debug)]
pub enum OrganizationalAnalysisCommands {
    Aliases(RepoRef),
    Related(RelatedSubcommand),
}

#[derive(Debug)]
pub enum DaemonCommands {
    Ping,
}

#[derive(Debug)]
pub struct SetupArgs {
    pub file: Option<String>,
    pub state: Option<String>,
    pub cache_root: Option<String>,
    pub root: Option<String>,
    pub rpc_url: Option<String>,
    pub client_id: Option<String>,
    pub assume_origin_as_canonical: Option<bool>,
}

#[derive(Debug)]
pub struct CloneArgs {
    pub url: String,
}

#[derive(Debug)]
pub struct CreateArgs {
    pub url: String,
    pub private: bool,
    pub public: bool,
}

#[derive(Debug)]
pub struct FetchArgs {
    pub remote: String,
}

#[derive(Debug)]
pub struct BranchArgs {
    pub branch: Option<String>,
    pub start_point: Option<String>,
}

#[derive(Debug)]
pub struct ManageArgs {
    pub path: String,
    pub assume_origin_as_canonical: bool,
}

#[derive(Debug)]
pub struct ForkArgs {
    pub fork_url: String,
    pub canonical: String,
}

#[derive(Debug, Clone, Copy)]
pub struct CheckArgs {
    pub repair: bool,
    pub dump: bool,
}

#[derive(Debug, Clone, Copy)]
pub struct DeprecatedRepairArgs {
    pub check: bool,
}

#[derive(Debug)]
pub struct MoveArgs {
    pub repo_ref: String,
    pub new_url: String,
}

#[derive(Debug)]
pub struct WorktreeAddArgs {
    pub repo_or_name: String,
    pub name_or_start_point: Option<String>,
    pub start_point: Option<String>,
    pub branch: Option<String>,
    pub detach: bool,
    pub force: bool,
    pub reset: bool,
}

#[derive(Debug)]
pub struct RepoSetTypeArgs {
    pub repo_path: String,
    pub repo_type: String,
    pub canonical: Option<String>,
}

#[derive(Debug)]
pub struct SuccessorSetArgs {
    pub old_ref: String,
    pub new_url: String,
}

#[derive(Debug)]
pub enum RelatedSubcommand {
    List,
    Resolve(RelatedResolveArgs),
}

#[derive(Debug)]
pub struct RelatedResolveArgs {
    pub id: i64,
    pub kind: String,
}

#[derive(Debug)]
pub struct RepoRef {
    pub repo_ref: String,
}

pub open spec fn setup_group() -> GroupView {
    (
        "Setup"@,
        seq![
            ("setup"@, "Persist common repo-manager settings to a config file"@),
        ],
    )
}

impl HelpGroup for SetupCommands {
    fn help_group() -> (r: HelpCommandGroup)
        ensures
            r@ == setup_group(),
    {
        let mut commands: Vec<HelpCommand> = Vec::new();
        commands.push(
            HelpCommand { name: "setup", about: "Persist common repo-manager settings to a config file" },
        );
        proof {
            assert(command_views(commands@) =~= setup_group().1);
        }
        HelpCommandGroup { heading: "Setup", commands }
    }
}

pub open spec fn repository_operations_group() -> GroupView {
    (
        "Repository operations"@,
        seq![
            ("clone"@, "Clone a repository into the managed clone root"@),
            ("create"@, "Create a remote repository and clone it into the managed clone root"@),
            ("fetch"@, "Fetch a managed repository or namespace-backed fork view"@),
            ("branch"@, "List or create branches for a managed repository or fork view"@),
            ("manage"@, "Register an existing checkout under the managed clone root"@),
            ("fork"@, "Create or register a fork view for a canonical repository or fork parent"@),
            ("check"@, "Find missing tracked checkouts, unmanaged clone-root repos, and unmaterialized fork/mirror worktrees"@),
            ("worktree"@, "Manage development worktrees under the managed dev-worktree root"@),
            ("repos"@, "Inspect or change managed repository relationship metadata"@),
        ],
    )
}

impl HelpGroup for RepositoryOperationCommands {
    fn help_group() -> (r: HelpCommandGroup)
        ensures
            r@ == repository_operations_group(),
    {
        let mut commands: Vec<HelpCommand> = Vec::new();
        commands.push(
            HelpCommand { name: "clone", about: "Clone a repository into the managed clone root" },
        );
        commands.push(
            HelpCommand { name: "create", about: "Create a remote repository and clone it into the managed clone root" },
        );
        commands.push(
            HelpCommand { name: "fetch", about: "Fetch a managed repository or namespace-backed fork view" },
        );
        commands.push(
            HelpCommand { name: "branch", about: "List or create branches for a managed repository or fork view" },
        );
        commands.push(
            HelpCommand { name: "manage", about: "Register an existing checkout under the managed clone root" },
        );
        commands.push(
            HelpCommand { name: "fork", about: "Create or register a fork view for a canonical repository or fork parent" },
        );
        commands.push(
            HelpCommand { name: "check", about: "Find missing tracked checkouts, unmanaged clone-root repos, and unmaterialized fork/mirror worktrees" },
        );
        commands.push(
            HelpCommand { name: "worktree", about: "Manage development worktrees under the managed dev-worktree root" },
        );
        commands.push(
            HelpCommand { name: "repos", about: "Inspect or change managed repository relationship metadata" },
        );
        proof {
            assert(command_views(commands@) =~= repository_operations_group().1);
        }
        HelpCommandGroup { heading: "Repository operations", commands }
    }
}

pub open spec fn organizational_changes_group() -> GroupView {
    (
        "Organizational Changes"@,
        seq![
            ("move"@, "Same repo, new locator (e.g. renamed/transferred GitHub repo)"@),
            ("reconcile"@, "Apply URL/path changes for managed repos (e.g. forge redirect or origin drift)"@),
            ("successor"@, "Canonicalization change (e.g. old source archived/source-closed/deleted)"@),
        ],
    )
}

impl HelpGroup for OrganizationalChangeCommands {
    fn help_group() -> (r: HelpCommandGroup)
        ensures
            r@ == organizational_changes_group(),
    {
        let mut commands: Vec<HelpCommand> = Vec::new();
        commands.push(
            HelpCommand { name: "move", about: "Same repo, new locator (e.g. renamed/transferred GitHub repo)" },
        );
        commands.push(
            HelpCommand { name: "reconcile", about: "Apply URL/path changes for managed repos (e.g. forge redirect or origin drift)" },
        );
        commands.push(
            HelpCommand { name: "successor", about: "Canonicalization change (e.g. old source archived/source-closed/deleted)" },
        );
        proof {
            assert(command_views(commands@) =~= organizational_changes_group().1);
        }
        HelpCommandGroup { heading: "Organizational Changes", commands }
    }
}

pub open spec fn organizational_analysis_group() -> GroupView {
    (
        "Organizational Analysis"@,
        seq![
            ("aliases"@, "Show old paths that symlink to the current moved repo path"@),
            ("related"@, "Review repositories with shared Git history"@),
        ],
    )
}

impl HelpGroup for OrganizationalAnalysisCommands {
    fn help_group() -> (r: HelpCommandGroup)
        ensures
            r@ == organizational_analysis_group(),
    {
        let mut commands: Vec<HelpCommand> = Vec::new();
        commands.push(
            HelpCommand { name: "aliases", about: "Show old paths that symlink to the current moved repo path" },
        );
        commands.push(HelpCommand { name: "related", about: "Review repositories with shared Git history" });
        proof {
            assert(command_views(commands@) =~= organizational_analysis_group().1);
        }
        HelpCommandGroup { heading: "Organizational Analysis", commands }
    }
}

pub open spec fn daemon_group() -> GroupView {
    (
        "Daemon"@,
        seq![
            ("daemon"@, "Interact with the repo-manager daemon"@),
        ],
    )
}

impl HelpGroup for DaemonCommands {
    fn help_group() -> (r: HelpCommandGroup)
        ensures
            r@ == daemon_group(),
    {
        let mut commands: Vec<HelpCommand> = Vec::new();
        commands.push(HelpCommand { name: "daemon", about: "Interact with the repo-manager daemon" });
        proof {
            assert(command_views(commands@) =~= daemon_group().1);
        }
        HelpCommandGroup { heading: "Daemon", commands }
    }
}

/// The groups of the help, in the order in which they are shown.
pub open spec fn all_groups() -> Seq<GroupView> {
    seq![
        setup_group(),
        repository_operations_group(),
        organizational_changes_group(),
        organizational_analysis_group(),
        daemon_group(),
    ]
}

impl HelpTemplate for Commands {
    fn help_template() -> (r: String)
        ensures
            r@ == help_text(all_groups()),
    {
        let mut groups: Vec<HelpCommandGroup> = Vec::new();
        groups.push(SetupCommands::help_group());
        groups.push(RepositoryOperationCommands::help_group());
        groups.push(OrganizationalChangeCommands::help_group());
        groups.push(OrganizationalAnalysisCommands::help_group());
        groups.push(DaemonCommands::help_group());
        proof {
            assert(group_views(groups@) =~= all_groups());
        }
        render_help_template(groups)
    }
}

/// What `check` is asked to do.
#[derive(Debug, Clone, Copy, PartialEq, Eq, Structural)]
pub enum CheckAction {
    /// Print the inventory.
    Dump,
    /// Let the user pick repairs in an editor.
    RepairInteractive,
    /// Report, and repair unless `check` is set.
    Report { check: bool },
}

/// What the flags of `check` ask for, where they go together.
pub open spec fn check_choice(dump: bool, repair: bool, json: bool) -> CheckAction {
    if dump {
        CheckAction::Dump
    } else if repair && !json {
        CheckAction::RepairInteractive
    } else {
        CheckAction::Report { check: !repair }
    }
}

pub fn check_action(args: &CheckArgs, json: bool) -> (r: Result<CheckAction, Error>)
    ensures
        r is Err <==> args.dump && args.repair,
        r matches Err(e) ==> e@
            == "repo check --dump is read-only and cannot be combined with --repair"@,
        r matches Ok(action) ==> action == check_choice(args.dump, args.repair, json),
{
    if args.dump {
        if args.repair {
            Err(Error::fixed("repo check --dump is read-only and cannot be combined with --repair"))
        } else {
            Ok(CheckAction::Dump)
        }
    } else if args.repair && !json {
        Ok(CheckAction::RepairInteractive)
    } else {
        Ok(CheckAction::Report { check: !args.repair })
    }
}

} // verus!
