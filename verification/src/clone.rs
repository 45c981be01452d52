//! Cloning a repository into its place, and what the daemon is told of it.
use crate::config::Config;
use crate::error::{outcome, Error};
use crate::git::{clone_command, ghq_get_args, git_clone_args};
use crate::locator::{locator_path, parsed_locator, parsed_url, placed, Locator, LocatorView};
use crate::rpc::{
    CloneCancelledEvent, CloneFinishedEvent, CloneStartedEvent, EventBase, EventView,
    ManageRequestedEvent, RpcEvent,
};
use crate::text::{opt_view, trim_text, views};
use vstd::prelude::*;

verus! {

/// A clone on its way.
#[derive(Debug)]
pub struct CloneLifecycle {
    pub client_id: String,
    pub url: String,
    pub locator: Locator,
    pub path: String,
    pub scan_root: String,
}

impl View for CloneLifecycle {
    type V = EventBase;

    open spec fn view(&self) -> EventBase {
        EventBase {
            client_id: self.client_id@,
            url: self.url@,
            locator: self.locator@,
            path: self.path@,
            scan_root: self.scan_root@,
        }
    }
}

/// What is told of a repository with the given locator, by the client that runs
/// with these settings.
pub open spec fn told(client_id: Seq<char>, clone_root: Seq<char>, url: Seq<char>, locator: LocatorView)
    -> EventBase {
    EventBase { client_id, url, locator, path: placed(clone_root, locator), scan_root: clone_root }
}

/// A clone starts for any URL that is a locator, and goes to the locator's place.
pub fn begin_clone(config: &Config, url: &str) -> (r: Result<CloneLifecycle, Error>)
    ensures
        outcome(r) == match parsed_locator(url@, parsed_url(trim_text(url@))) {
            Ok(locator) => Ok::<EventBase, Seq<char>>(
                told(config@.client_id, config@.clone_root, url@, locator),
            ),
            Err(message) => Err(message),
        },
{
    let locator = match Locator::parse(url) {
        Ok(locator) => locator,
        Err(error) => {
            return Err(error);
        },
    };
    let path = locator_path(config.clone_root.as_str(), &locator);
    Ok(
        CloneLifecycle {
            client_id: config.client_id.clone(),
            url: url.to_owned(),
            locator,
            path,
            scan_root: config.clone_root.clone(),
        },
    )
}

impl CloneLifecycle {
    pub fn started(&self) -> (r: RpcEvent)
        ensures
            r@ == EventView::Started(self@),
    {
        RpcEvent::Started(
            CloneStartedEvent {
                client_id: self.client_id.clone(),
                url: self.url.clone(),
                locator: self.locator.clone(),
                path: self.path.clone(),
                scan_root: self.scan_root.clone(),
            },
        )
    }

    pub fn finished(&self, success: bool) -> (r: RpcEvent)
        ensures
            r@ == EventView::Finished(self@, success),
    {
        RpcEvent::Finished(
            CloneFinishedEvent {
                client_id: self.client_id.clone(),
                url: self.url.clone(),
                locator: self.locator.clone(),
                path: self.path.clone(),
                success,
                scan_root: self.scan_root.clone(),
            },
        )
    }

    /// A clone that a signal ends.
    pub fn cancelled(&self) -> (r: RpcEvent)
        ensures
            r@ == EventView::Cancelled(self@, "client received termination signal"@),
    {
        RpcEvent::Cancelled(
            CloneCancelledEvent {
                client_id: self.client_id.clone(),
                url: self.url.clone(),
                locator: self.locator.clone(),
                path: self.path.clone(),
                reason: "client received termination signal".to_owned(),
                scan_root: self.scan_root.clone(),
            },
        )
    }
}

/// Asks the daemon to look at the history of a checkout that is managed from now
/// on.
pub fn manage_requested(config: &Config, locator: &Locator, path: &str, canonical_url: &str) -> (r:
    RpcEvent)
    ensures
        r@ == EventView::ManageRequested(
            EventBase {
                client_id: config@.client_id,
                url: canonical_url@,
                locator: locator@,
                path: path@,
                scan_root: config@.clone_root,
            },
        ),
{
    RpcEvent::ManageRequested(
        ManageRequestedEvent {
            client_id: config.client_id.clone(),
            url: canonical_url.to_owned(),
            locator: locator.clone(),
            path: path.to_owned(),
            scan_root: config.clone_root.clone(),
        },
    )
}

/// What clones.
#[derive(Debug, Clone, Copy, PartialEq, Eq, Structural)]
pub enum CloneTool {
    Ghq,
    Git,
}

/// What comes next in cloning.
#[derive(Debug, Clone, Copy, PartialEq, Eq, Structural)]
pub enum CloneNext {
    Run(CloneTool),
    Cloned,
    Failed,
}

/// What clones first.
pub open spec fn clone_tool(clone_as_bare: bool, has_ghq: bool) -> CloneTool {
    if !clone_as_bare && has_ghq {
        CloneTool::Ghq
    } else {
        CloneTool::Git
    }
}

/// `ghq` clones where it is installed and a checkout is wanted; Git does
/// otherwise.
pub fn first_clone_tool(clone_as_bare: bool, has_ghq: bool) -> (r: CloneTool)
    ensures
        r == clone_tool(clone_as_bare, has_ghq),
{
    if !clone_as_bare && has_ghq {
        CloneTool::Ghq
    } else {
        CloneTool::Git
    }
}

pub open spec fn clone_next(tool: CloneTool, success: bool) -> CloneNext {
    if success {
        CloneNext::Cloned
    } else if tool == CloneTool::Ghq {
        CloneNext::Run(CloneTool::Git)
    } else {
        CloneNext::Failed
    }
}

/// Where `ghq` fails, Git is tried; where Git fails, the clone has failed.
pub fn after_clone_tool(tool: CloneTool, success: bool) -> (r: CloneNext)
    ensures
        r == clone_next(tool, success),
{
    if success {
        CloneNext::Cloned
    } else {
        match tool {
            CloneTool::Ghq => CloneNext::Run(CloneTool::Git),
            CloneTool::Git => CloneNext::Failed,
        }
    }
}

/// Cloning ends after two tools at most, and has failed only when Git has.
pub proof fn cloning_ends(tool: CloneTool, first: bool, second: bool)
    ensures
        match clone_next(tool, first) {
            CloneNext::Run(next) => next == CloneTool::Git && !(clone_next(next, second) is Run),
            CloneNext::Failed => tool == CloneTool::Git && !first,
            CloneNext::Cloned => first,
        },
{
}

/// A program to run.
#[derive(Debug)]
pub struct CloneCall {
    pub program: &'static str,
    pub args: Vec<String>,
    /// The root that `ghq` is told to clone under.
    pub ghq_root: Option<String>,
}

/// What a program is run with.
#[verifier::ext_equal]
pub struct CloneCallView {
    pub program: Seq<char>,
    pub args: Seq<Seq<char>>,
    pub ghq_root: Option<Seq<char>>,
}

impl View for CloneCall {
    type V = CloneCallView;

    open spec fn view(&self) -> CloneCallView {
        CloneCallView {
            program: self.program@,
            args: views(self.args@),
            ghq_root: opt_view(self.ghq_root),
        }
    }
}

/// How the tool clones.
pub open spec fn clone_run(
    tool: CloneTool,
    clone_root: Seq<char>,
    clone_as_bare: bool,
    clone: EventBase,
) -> CloneCallView {
    match tool {
        CloneTool::Ghq => CloneCallView {
            program: "ghq"@,
            args: seq!["get"@, clone.url],
            ghq_root: Some(clone_root),
        },
        CloneTool::Git => CloneCallView {
            program: "git"@,
            args: clone_command(clone.url, clone.path, clone_as_bare),
            ghq_root: None,
        },
    }
}

pub fn clone_call(tool: CloneTool, config: &Config, clone: &CloneLifecycle) -> (r: CloneCall)
    ensures
        r@ == clone_run(tool, config@.clone_root, config.clone_as_bare, clone@),
{
    match tool {
        CloneTool::Ghq => CloneCall {
            program: "ghq",
            args: ghq_get_args(clone.url.as_str()),
            ghq_root: Some(config.clone_root.clone()),
        },
        CloneTool::Git => CloneCall {
            program: "git",
            args: git_clone_args(clone.url.as_str(), clone.path.as_str(), config.clone_as_bare),
            ghq_root: None,
        },
    }
}

} // verus!
