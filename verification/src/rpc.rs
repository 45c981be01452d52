//! The events that clients send to the daemon, and the messages in which they
//! travel.
use crate::error::Error;
use crate::locator::{new_locator, parse_url_text, parsed_url, url_view, Locator, LocatorView, UrlParts, UrlView};
use crate::text::{decimal, decimal_text};
use vstd::prelude::*;

verus! {

/// The version of the messages that this library writes and reads.
pub const RPC_PROTOCOL_VERSION: u32 = 1;

#[derive(Debug)]
pub struct CloneStartedEvent {
    pub client_id: String,
    pub url: String,
    pub locator: Locator,
    pub path: String,
    pub scan_root: String,
}

#[derive(Debug)]
pub struct CloneFinishedEvent {
    pub client_id: String,
    pub url: String,
    pub locator: Locator,
    pub path: String,
    pub success: bool,
    pub scan_root: String,
}

#[derive(Debug)]
pub struct CloneCancelledEvent {
    pub client_id: String,
    pub url: String,
    pub locator: Locator,
    pub path: String,
    pub reason: String,
    pub scan_root: String,
}

#[derive(Debug)]
pub struct ManageRequestedEvent {
    pub client_id: String,
    pub url: String,
    pub locator: Locator,
    pub path: String,
    pub scan_root: String,
}

/// What happened to a repository at a client.
#[derive(Debug)]
pub enum RpcEvent {
    Started(CloneStartedEvent),
    Finished(CloneFinishedEvent),
    Cancelled(CloneCancelledEvent),
    ManageRequested(ManageRequestedEvent),
}

/// What every event tells.
pub struct EventBase {
    pub client_id: Seq<char>,
    pub url: Seq<char>,
    pub locator: LocatorView,
    pub path: Seq<char>,
    pub scan_root: Seq<char>,
}

pub enum EventView {
    Started(EventBase),
    Finished(EventBase, bool),
    Cancelled(EventBase, Seq<char>),
    ManageRequested(EventBase),
}

impl View for RpcEvent {
    type V = EventView;

    open spec fn view(&self) -> EventView {
        match self {
            RpcEvent::Started(e) => EventView::Started(
                EventBase {
                    client_id: e.client_id@,
                    url: e.url@,
                    locator: e.locator@,
                    path: e.path@,
                    scan_root: e.scan_root@,
                },
            ),
            RpcEvent::Finished(e) => EventView::Finished(
                EventBase {
                    client_id: e.client_id@,
                    url: e.url@,
                    locator: e.locator@,
                    path: e.path@,
                    scan_root: e.scan_root@,
                },
                e.success,
            ),
            RpcEvent::Cancelled(e) => EventView::Cancelled(
                EventBase {
                    client_id: e.client_id@,
                    url: e.url@,
                    locator: e.locator@,
                    path: e.path@,
                    scan_root: e.scan_root@,
                },
                e.reason@,
            ),
            RpcEvent::ManageRequested(e) => EventView::ManageRequested(
                EventBase {
                    client_id: e.client_id@,
                    url: e.url@,
                    locator: e.locator@,
                    path: e.path@,
                    scan_root: e.scan_root@,
                },
            ),
        }
    }
}

impl EventView {
    pub open spec fn base(self) -> EventBase {
        match self {
            EventView::Started(b) => b,
            EventView::Finished(b, _) => b,
            EventView::Cancelled(b, _) => b,
            EventView::ManageRequested(b) => b,
        }
    }

    /// An event that survives being sent: nothing that it has to tell is empty,
    /// and its locator is one that parsing gives.
    pub open spec fn sendable(self) -> bool {
        let b = self.base();
        &&& b.client_id.len() > 0
        &&& b.url.len() > 0
        &&& b.path.len() > 0
        &&& b.scan_root.len() > 0
        &&& new_locator(b.locator.authority, b.locator.remote_path) == Ok::<LocatorView, Seq<char>>(
            b.locator,
        )
        &&& self matches EventView::Cancelled(_, reason) ==> reason.len() > 0
    }
}

/// What a message says of a repository: the fields of an event, each of which
/// may be missing.
#[derive(Debug)]
pub struct EventFields {
    pub client_id: String,
    pub url: String,
    /// Authority and remote path.
    pub locator: Option<(String, String)>,
    pub path: String,
    pub scan_root: String,
}

pub struct FieldsView {
    pub client_id: Seq<char>,
    pub url: Seq<char>,
    pub locator: Option<(Seq<char>, Seq<char>)>,
    pub path: Seq<char>,
    pub scan_root: Seq<char>,
}

impl View for EventFields {
    type V = FieldsView;

    open spec fn view(&self) -> FieldsView {
        FieldsView {
            client_id: self.client_id@,
            url: self.url@,
            locator: match self.locator {
                Some((a, p)) => Some((a@, p@)),
                None => None,
            },
            path: self.path@,
            scan_root: self.scan_root@,
        }
    }
}

#[derive(Debug)]
pub enum EventPayload {
    Started(EventFields),
    Finished(EventFields, bool),
    Cancelled(EventFields, String),
    ManageRequested(EventFields),
}

pub enum PayloadView {
    Started(FieldsView),
    Finished(FieldsView, bool),
    Cancelled(FieldsView, Seq<char>),
    ManageRequested(FieldsView),
}

impl View for EventPayload {
    type V = PayloadView;

    open spec fn view(&self) -> PayloadView {
        match self {
            EventPayload::Started(f) => PayloadView::Started(f@),
            EventPayload::Finished(f, success) => PayloadView::Finished(f@, *success),
            EventPayload::Cancelled(f, reason) => PayloadView::Cancelled(f@, reason@),
            EventPayload::ManageRequested(f) => PayloadView::ManageRequested(f@),
        }
    }
}

/// One message.
#[derive(Debug)]
pub struct CloneEventMessage {
    pub protocol_version: u32,
    pub event: Option<EventPayload>,
}

pub open spec fn payload_view(p: Option<EventPayload>) -> Option<PayloadView> {
    match p {
        Some(x) => Some(x@),
        None => None,
    }
}

pub open spec fn fields_of(b: EventBase) -> FieldsView {
    FieldsView {
        client_id: b.client_id,
        url: b.url,
        locator: Some((b.locator.authority, b.locator.remote_path)),
        path: b.path,
        scan_root: b.scan_root,
    }
}

/// The payload that carries the event.
pub open spec fn payload_of(event: EventView) -> PayloadView {
    match event {
        EventView::Started(b) => PayloadView::Started(fields_of(b)),
        EventView::Finished(b, success) => PayloadView::Finished(fields_of(b), success),
        EventView::Cancelled(b, reason) => PayloadView::Cancelled(fields_of(b), reason),
        EventView::ManageRequested(b) => PayloadView::ManageRequested(fields_of(b)),
    }
}

pub open spec fn missing_field(name: Seq<char>) -> Seq<char> {
    "RPC clone event is missing required field `"@ + name + "`"@
}

/// The base of the event that the fields tell, where `behind` is what has to be
/// read between the path and the scan root: nothing, or a reason.
pub open spec fn base_of(f: FieldsView, reason: Option<Seq<char>>) -> Result<EventBase, Seq<char>> {
    if f.client_id.len() == 0 {
        Err(missing_field("client_id"@))
    } else if f.url.len() == 0 {
        Err(missing_field("url"@))
    } else {
        match f.locator {
            None => Err("RPC clone event is missing locator"@),
            Some((authority, remote_path)) => match new_locator(authority, remote_path) {
                Err(text) => Err(text),
                Ok(locator) => if f.path.len() == 0 {
                    Err(missing_field("path"@))
                } else if reason matches Some(text) && text.len() == 0 {
                    Err(missing_field("reason"@))
                } else if f.scan_root.len() == 0 {
                    Err(missing_field("scan_root"@))
                } else {
                    Ok(
                        EventBase {
                            client_id: f.client_id,
                            url: f.url,
                            locator,
                            path: f.path,
                            scan_root: f.scan_root,
                        },
                    )
                },
            },
        }
    }
}

/// The event that a message carries.
pub open spec fn event_of(version: u32, payload: Option<PayloadView>) -> Result<
    EventView,
    Seq<char>,
> {
    if version != RPC_PROTOCOL_VERSION {
        Err(version_refusal(version))
    } else {
        match payload {
            None => Err("RPC clone event is missing event payload"@),
            Some(PayloadView::Started(f)) => match base_of(f, None) {
                Ok(b) => Ok(EventView::Started(b)),
                Err(text) => Err(text),
            },
            Some(PayloadView::Finished(f, success)) => match base_of(f, None) {
                Ok(b) => Ok(EventView::Finished(b, success)),
                Err(text) => Err(text),
            },
            Some(PayloadView::Cancelled(f, reason)) => match base_of(f, Some(reason)) {
                Ok(b) => Ok(EventView::Cancelled(b, reason)),
                Err(text) => Err(text),
            },
            Some(PayloadView::ManageRequested(f)) => match base_of(f, None) {
                Ok(b) => Ok(EventView::ManageRequested(b)),
                Err(text) => Err(text),
            },
        }
    }
}

pub open spec fn version_refusal(version: u32) -> Seq<char> {
    "RPC protocol version mismatch: daemon supports v1, client sent v"@ + decimal(version as nat)
}

/// An event that can be sent is the one that is received.
pub proof fn received_as_sent(event: EventView)
    requires
        event.sendable(),
    ensures
        event_of(RPC_PROTOCOL_VERSION, Some(payload_of(event))) == Ok::<EventView, Seq<char>>(event),
{
}

/// A message of another version is refused, whatever it carries.
pub proof fn other_versions_are_refused(version: u32, payload: Option<PayloadView>)
    requires
        version != RPC_PROTOCOL_VERSION,
    ensures
        event_of(version, payload) == Err::<EventView, Seq<char>>(version_refusal(version)),
{
}

fn fields(client_id: &str, url: &str, locator: &Locator, path: &str, scan_root: &str) -> (r:
    EventFields)
    ensures
        r@ == fields_of(
            EventBase {
                client_id: client_id@,
                url: url@,
                locator: locator@,
                path: path@,
                scan_root: scan_root@,
            },
        ),
{
    EventFields {
        client_id: client_id.to_owned(),
        url: url.to_owned(),
        locator: Some((locator.authority.clone(), locator.remote_path.clone())),
        path: path.to_owned(),
        scan_root: scan_root.to_owned(),
    }
}

fn required(field: &str, value: &str) -> (r: Result<(), Error>)
    ensures
        r is Err <==> value@.len() == 0,
        r matches Err(e) ==> e@ == missing_field(field@),
{
    if value.is_empty() {
        let mut text = "RPC clone event is missing required field `".to_owned();
        text.append(field);
        text.append("`");
        Err(Error::new(text))
    } else {
        Ok(())
    }
}

/// The locator that the fields tell, once all that is required is there.
fn read_fields(f: &EventFields, reason: Option<&String>) -> (r: Result<Locator, Error>)
    ensures
        match base_of(
            f@,
            match reason {
                Some(text) => Some(text@),
                None => None,
            },
        ) {
            Ok(b) => r matches Ok(locator) && locator@ == b.locator,
            Err(text) => r matches Err(e) && e@ == text,
        },
{
    if let Err(error) = required("client_id", &f.client_id) {
        return Err(error);
    }
    if let Err(error) = required("url", &f.url) {
        return Err(error);
    }
    let locator = match &f.locator {
        None => return Err(Error::fixed("RPC clone event is missing locator")),
        Some((authority, remote_path)) => match Locator::new(authority, remote_path) {
            Ok(locator) => locator,
            Err(error) => return Err(error),
        },
    };
    if let Err(error) = required("path", &f.path) {
        return Err(error);
    }
    if let Some(text) = reason {
        if let Err(error) = required("reason", text) {
            return Err(error);
        }
    }
    if let Err(error) = required("scan_root", &f.scan_root) {
        return Err(error);
    }
    Ok(locator)
}

pub fn validate_rpc_protocol_version(client_version: u32) -> (r: Result<(), Error>)
    ensures
        r is Ok <==> client_version == RPC_PROTOCOL_VERSION,
        r matches Err(e) ==> e@ == version_refusal(client_version),
{
    if client_version != RPC_PROTOCOL_VERSION {
        Err(
            Error::about(
                "RPC protocol version mismatch: daemon supports v1, client sent v",
                &decimal_text(client_version as u128),
            ),
        )
    } else {
        Ok(())
    }
}

pub open spec fn event_result(r: Result<RpcEvent, Error>) -> Result<EventView, Seq<char>> {
    match r {
        Ok(x) => Ok(x@),
        Err(e) => Err(e@),
    }
}

impl RpcEvent {
    /// The message that carries the event.
    pub fn to_proto(&self) -> (r: CloneEventMessage)
        ensures
            r.protocol_version == RPC_PROTOCOL_VERSION,
            payload_view(r.event) == Some(payload_of(self@)),
    {
        let event = match self {
            RpcEvent::Started(e) => EventPayload::Started(
                fields(&e.client_id, &e.url, &e.locator, &e.path, &e.scan_root),
            ),
            RpcEvent::Finished(e) => EventPayload::Finished(
                fields(&e.client_id, &e.url, &e.locator, &e.path, &e.scan_root),
                e.success,
            ),
            RpcEvent::Cancelled(e) => EventPayload::Cancelled(
                fields(&e.client_id, &e.url, &e.locator, &e.path, &e.scan_root),
                e.reason.clone(),
            ),
            RpcEvent::ManageRequested(e) => EventPayload::ManageRequested(
                fields(&e.client_id, &e.url, &e.locator, &e.path, &e.scan_root),
            ),
        };
        CloneEventMessage { protocol_version: RPC_PROTOCOL_VERSION, event: Some(event) }
    }

    /// The event that a message carries.
    pub fn from_proto(message: CloneEventMessage) -> (r: Result<RpcEvent, Error>)
        ensures
            event_result(r) == event_of(message.protocol_version, payload_view(message.event)),
    {
        if let Err(error) = validate_rpc_protocol_version(message.protocol_version) {
            return Err(error);
        }
        match message.event {
            None => Err(Error::fixed("RPC clone event is missing event payload")),
            Some(EventPayload::Started(f)) => match read_fields(&f, None) {
                Ok(locator) => Ok(
                    RpcEvent::Started(
                        CloneStartedEvent {
                            client_id: f.client_id,
                            url: f.url,
                            locator,
                            path: f.path,
                            scan_root: f.scan_root,
                        },
                    ),
                ),
                Err(error) => Err(error),
            },
            Some(EventPayload::Finished(f, success)) => match read_fields(&f, None) {
                Ok(locator) => Ok(
                    RpcEvent::Finished(
                        CloneFinishedEvent {
                            client_id: f.client_id,
                            url: f.url,
                            locator,
                            path: f.path,
                            success,
                            scan_root: f.scan_root,
                        },
                    ),
                ),
                Err(error) => Err(error),
            },
            Some(EventPayload::Cancelled(f, reason)) => match read_fields(&f, Some(&reason)) {
                Ok(locator) => Ok(
                    RpcEvent::Cancelled(
                        CloneCancelledEvent {
                            client_id: f.client_id,
                            url: f.url,
                            locator,
                            path: f.path,
                            reason,
                            scan_root: f.scan_root,
                        },
                    ),
                ),
                Err(error) => Err(error),
            },
            Some(EventPayload::ManageRequested(f)) => match read_fields(&f, None) {
                Ok(locator) => Ok(
                    RpcEvent::ManageRequested(
                        ManageRequestedEvent {
                            client_id: f.client_id,
                            url: f.url,
                            locator,
                            path: f.path,
                            scan_root: f.scan_root,
                        },
                    ),
                ),
                Err(error) => Err(error),
            },
        }
    }

    pub fn client_id(&self) -> (r: &str)
        ensures
            r@ == self@.base().client_id,
    {
        match self {
            RpcEvent::Started(e) => e.client_id.as_str(),
            RpcEvent::Finished(e) => e.client_id.as_str(),
            RpcEvent::Cancelled(e) => e.client_id.as_str(),
            RpcEvent::ManageRequested(e) => e.client_id.as_str(),
        }
    }

    pub fn event_name(&self) -> (r: &'static str)
        ensures
            r@ == self@.name(),
    {
        match self {
            RpcEvent::Started(_) => "clone_started",
            RpcEvent::Finished(_) => "clone_finished",
            RpcEvent::Cancelled(_) => "clone_cancelled",
            RpcEvent::ManageRequested(_) => "manage_requested",
        }
    }
}

impl EventView {
    pub open spec fn name(self) -> Seq<char> {
        match self {
            EventView::Started(_) => "clone_started"@,
            EventView::Finished(_, _) => "clone_finished"@,
            EventView::Cancelled(_, _) => "clone_cancelled"@,
            EventView::ManageRequested(_) => "manage_requested"@,
        }
    }
}

/// The socket path of an endpoint, from the parts of its URL.
pub open spec fn socket_of(input: Seq<char>, url: Option<UrlView>) -> Result<Seq<char>, Seq<char>> {
    match url {
        None => Err("invalid RPC endpoint URL: "@ + input),
        Some((scheme, _, _, path)) => if scheme == "unix"@ {
            if path.len() == 0 {
                Err("unix RPC endpoint requires a socket path"@)
            } else {
                Ok(path)
            }
        } else {
            Err("unsupported RPC endpoint scheme: "@ + scheme + "; expected unix"@)
        },
    }
}

pub open spec fn text_outcome(r: Result<String, Error>) -> Result<Seq<char>, Seq<char>> {
    match r {
        Ok(x) => Ok(x@),
        Err(e) => Err(e@),
    }
}

/// The socket path of the endpoint `input`, whose parts are `url`.
pub fn rpc_socket(input: &str, url: Option<UrlParts>) -> (r: Result<String, Error>)
    ensures
        text_outcome(r) == socket_of(input@, url_view(url)),
{
    match url {
        None => Err(Error::about("invalid RPC endpoint URL: ", input)),
        Some(url) => if url.scheme.as_str().eq("unix") {
            if url.path.as_str().is_empty() {
                Err(Error::fixed("unix RPC endpoint requires a socket path"))
            } else {
                Ok(url.path)
            }
        } else {
            let mut text = "unsupported RPC endpoint scheme: ".to_owned();
            text.append(&url.scheme);
            text.append("; expected unix");
            Err(Error::new(text))
        },
    }
}

pub fn parse_rpc_endpoint(input: &str) -> (r: Result<String, Error>)
    ensures
        text_outcome(r) == socket_of(input@, parsed_url(input@)),
{
    rpc_socket(input, parse_url_text(input))
}

} // verus!
