//! Local Git repository placement: locators, managed paths, forks, worktrees,
//! old-path aliases and the rules of the daemon that watches over them.
pub mod choice_laws;
pub mod cli;
pub mod client_id;
pub mod clock;
pub mod clone;
pub mod config;
pub mod config_laws;
pub mod context;
pub mod context_laws;
pub mod daemon;
pub mod daemon_laws;
pub mod detect;
pub mod dump;
pub mod dump_laws;
pub mod error;
pub mod fetch;
pub mod fetch_laws;
pub mod finding_laws;
pub mod forge;
pub mod forge_laws;
pub mod git;
pub mod git_laws;
pub mod help;
pub mod history;
pub mod history_laws;
pub mod inventory;
pub mod json;
pub mod locator;
pub mod locator_laws;
pub mod manage;
pub mod manage_laws;
pub mod materialize;
pub mod move_laws;
pub mod moves;
pub mod naming;
pub mod naming_laws;
pub mod output;
pub mod parent_laws;
pub mod parents;
pub mod path_laws;
pub mod paths;
pub mod placement;
pub mod reconcile;
pub mod refusal_laws;
pub mod registry;
pub mod registry_laws;
pub mod registry_lists;
pub mod registry_relations;
pub mod registry_rows;
pub mod relation_check;
pub mod relation_laws;
pub mod relations;
pub mod repair;
pub mod repair_apply;
pub mod repair_laws;
pub mod repair_plan;
pub mod repair_report;
pub mod repair_text;
pub mod report_laws;
pub mod row_laws;
pub mod rpc;
pub mod scan;
pub mod share;
pub mod share_laws;
pub mod steps;
pub mod text;
pub mod text_laws;
pub mod view_laws;
pub mod views;
pub mod worktree_laws;
pub mod worktrees;
