//! The IPC protocol: framed requests from local apps and the responses
//! and server-pushed events they receive.
//!
//! A request is `{ id, body }`; the id is an opaque 64-bit integer chosen
//! by the client and echoed unchanged in every response that answers the
//! request.  Bodies are closed tagged unions.

use vstd::prelude::*;

use crate::json::{JsonValue, JsonView};

verus! {

/// One framed client request.
#[derive(Debug)]
pub struct Request {
    pub id: u64,
    pub body: RequestBody,
}

/// The body of a client request.
#[derive(Debug)]
pub enum RequestBody {
    CreateAppInstance { label: String },
    AppInstanceUuid { label: String },
    LocalPeerId,
    Peers,
    Announce { peer: String, app_uuid: String, data: JsonValue },
    SendMessage { peer: String, app_uuid: String, from_app_uuid: String, message: Vec<u8> },
    InboxMessages { app_uuid: String },
    DeleteInboxMessage { app_uuid: String, message_id: u64 },
    AppAnnouncements,
    SubscribePeerEvents,
    SubscribeAnnounceEvents,
    SubscribeInboxEvents { app_uuid: String },
    DialAddress { address: String },
    GetLastPort { app_uuid: String },
    SetLastPort { app_uuid: String, port: u16 },
}

/// One framed server response or pushed event.
#[derive(Debug)]
pub struct Response {
    pub request_id: u64,
    pub body: ResponseBody,
}

/// The body of a response or pushed event.
#[derive(Debug)]
pub enum ResponseBody {
    Success,
    Error { message: String },
    PeerDiscovered { peer_id: String },
    PeerExpired { peer_id: String },
    CreateAppInstance { uuid: String },
    AppInstanceUuid { uuid: Option<String> },
    LocalPeerId { peer_id: String },
    Peers { peers: Vec<String> },
    Message(Message),
    InboxMessages { messages: Vec<Message> },
    AppAnnouncements { announcements: Vec<AppAnnouncement> },
    AppAnnouncement { peer: String, app_uuid: String, data: JsonValue },
    GetLastPort { port: Option<u16> },
}

/// One stored inbox message as delivered to a client.
#[derive(Debug)]
pub struct Message {
    pub id: u64,
    pub peer: String,
    pub uuid: String,
    pub message: Vec<u8>,
}

/// One stored announcement as delivered to a client.
#[derive(Debug)]
pub struct AppAnnouncement {
    pub peer: String,
    pub app_uuid: String,
    pub data: JsonValue,
}

/// The mathematical model of a `Request`.
pub struct RequestView {
    pub id: u64,
    pub body: RequestBodyView,
}

/// The mathematical model of a `RequestBody`.
pub enum RequestBodyView {
    CreateAppInstance { label: Seq<char> },
    AppInstanceUuid { label: Seq<char> },
    LocalPeerId,
    Peers,
    Announce { peer: Seq<char>, app_uuid: Seq<char>, data: JsonView },
    SendMessage { peer: Seq<char>, app_uuid: Seq<char>, from_app_uuid: Seq<char>, message: Seq<u8> },
    InboxMessages { app_uuid: Seq<char> },
    DeleteInboxMessage { app_uuid: Seq<char>, message_id: u64 },
    AppAnnouncements,
    SubscribePeerEvents,
    SubscribeAnnounceEvents,
    SubscribeInboxEvents { app_uuid: Seq<char> },
    DialAddress { address: Seq<char> },
    GetLastPort { app_uuid: Seq<char> },
    SetLastPort { app_uuid: Seq<char>, port: u16 },
}

/// The mathematical model of a `Response`.
pub struct ResponseView {
    pub request_id: u64,
    pub body: ResponseBodyView,
}

/// The mathematical model of a `ResponseBody`.
pub enum ResponseBodyView {
    Success,
    Error { message: Seq<char> },
    PeerDiscovered { peer_id: Seq<char> },
    PeerExpired { peer_id: Seq<char> },
    CreateAppInstance { uuid: Seq<char> },
    AppInstanceUuid { uuid: Option<Seq<char>> },
    LocalPeerId { peer_id: Seq<char> },
    Peers { peers: Seq<Seq<char>> },
    Message(MessageView),
    InboxMessages { messages: Seq<MessageView> },
    AppAnnouncements { announcements: Seq<AppAnnouncementView> },
    AppAnnouncement { peer: Seq<char>, app_uuid: Seq<char>, data: JsonView },
    GetLastPort { port: Option<u16> },
}

/// The mathematical model of a `Message`.
pub struct MessageView {
    pub id: u64,
    pub peer: Seq<char>,
    pub uuid: Seq<char>,
    pub message: Seq<u8>,
}

/// The mathematical model of an `AppAnnouncement`.
pub struct AppAnnouncementView {
    pub peer: Seq<char>,
    pub app_uuid: Seq<char>,
    pub data: JsonView,
}

impl View for Message {
    type V = MessageView;

    open spec fn view(&self) -> MessageView {
        MessageView { id: self.id, peer: self.peer@, uuid: self.uuid@, message: self.message@ }
    }
}

impl View for AppAnnouncement {
    type V = AppAnnouncementView;

    open spec fn view(&self) -> AppAnnouncementView {
        AppAnnouncementView { peer: self.peer@, app_uuid: self.app_uuid@, data: self.data@ }
    }
}

/// The models of a vector of strings, in order.
pub open spec fn string_views(v: Seq<String>) -> Seq<Seq<char>> {
    Seq::new(v.len(), |i: int| v[i]@)
}

/// The models of a vector of messages, in order.
pub open spec fn message_views(v: Seq<Message>) -> Seq<MessageView> {
    Seq::new(v.len(), |i: int| v[i]@)
}

/// The models of a vector of announcements, in order.
pub open spec fn announcement_views(v: Seq<AppAnnouncement>) -> Seq<AppAnnouncementView> {
    Seq::new(v.len(), |i: int| v[i]@)
}

/// The model of an optional string.
pub open spec fn option_string_view(v: Option<String>) -> Option<Seq<char>> {
    match v {
        Option::Some(s) => Option::Some(s@),
        Option::None => Option::None,
    }
}

impl View for RequestBody {
    type V = RequestBodyView;

    open spec fn view(&self) -> RequestBodyView {
        match self {
            RequestBody::CreateAppInstance { label } => RequestBodyView::CreateAppInstance {
                label: label@,
            },
            RequestBody::AppInstanceUuid { label } => RequestBodyView::AppInstanceUuid {
                label: label@,
            },
            RequestBody::LocalPeerId => RequestBodyView::LocalPeerId,
            RequestBody::Peers => RequestBodyView::Peers,
            RequestBody::Announce { peer, app_uuid, data } => RequestBodyView::Announce {
                peer: peer@,
                app_uuid: app_uuid@,
                data: data@,
            },
            RequestBody::SendMessage { peer, app_uuid, from_app_uuid, message } => {
                RequestBodyView::SendMessage {
                    peer: peer@,
                    app_uuid: app_uuid@,
                    from_app_uuid: from_app_uuid@,
                    message: message@,
                }
            },
            RequestBody::InboxMessages { app_uuid } => RequestBodyView::InboxMessages {
                app_uuid: app_uuid@,
            },
            RequestBody::DeleteInboxMessage { app_uuid, message_id } => {
                RequestBodyView::DeleteInboxMessage {
                    app_uuid: app_uuid@,
                    message_id: *message_id,
                }
            },
            RequestBody::AppAnnouncements => RequestBodyView::AppAnnouncements,
            RequestBody::SubscribePeerEvents => RequestBodyView::SubscribePeerEvents,
            RequestBody::SubscribeAnnounceEvents => RequestBodyView::SubscribeAnnounceEvents,
            RequestBody::SubscribeInboxEvents { app_uuid } => {
                RequestBodyView::SubscribeInboxEvents { app_uuid: app_uuid@ }
            },
            RequestBody::DialAddress { address } => RequestBodyView::DialAddress {
                address: address@,
            },
            RequestBody::GetLastPort { app_uuid } => RequestBodyView::GetLastPort {
                app_uuid: app_uuid@,
            },
            RequestBody::SetLastPort { app_uuid, port } => RequestBodyView::SetLastPort {
                app_uuid: app_uuid@,
                port: *port,
            },
        }
    }
}

impl View for Request {
    type V = RequestView;

    open spec fn view(&self) -> RequestView {
        RequestView { id: self.id, body: self.body@ }
    }
}

impl View for ResponseBody {
    type V = ResponseBodyView;

    open spec fn view(&self) -> ResponseBodyView {
        match self {
            ResponseBody::Success => ResponseBodyView::Success,
            ResponseBody::Error { message } => ResponseBodyView::Error { message: message@ },
            ResponseBody::PeerDiscovered { peer_id } => ResponseBodyView::PeerDiscovered {
                peer_id: peer_id@,
            },
            ResponseBody::PeerExpired { peer_id } => ResponseBodyView::PeerExpired {
                peer_id: peer_id@,
            },
            ResponseBody::CreateAppInstance { uuid } => ResponseBodyView::CreateAppInstance {
                uuid: uuid@,
            },
            ResponseBody::AppInstanceUuid { uuid } => ResponseBodyView::AppInstanceUuid {
                uuid: option_string_view(*uuid),
            },
            ResponseBody::LocalPeerId { peer_id } => ResponseBodyView::LocalPeerId {
                peer_id: peer_id@,
            },
            ResponseBody::Peers { peers } => ResponseBodyView::Peers {
                peers: string_views(peers@),
            },
            ResponseBody::Message(m) => ResponseBodyView::Message(m@),
            ResponseBody::InboxMessages { messages } => ResponseBodyView::InboxMessages {
                messages: message_views(messages@),
            },
            ResponseBody::AppAnnouncements { announcements } => {
                ResponseBodyView::AppAnnouncements {
                    announcements: announcement_views(announcements@),
                }
            },
            ResponseBody::AppAnnouncement { peer, app_uuid, data } => {
                ResponseBodyView::AppAnnouncement {
                    peer: peer@,
                    app_uuid: app_uuid@,
                    data: data@,
                }
            },
            ResponseBody::GetLastPort { port } => ResponseBodyView::GetLastPort { port: *port },
        }
    }
}

impl View for Response {
    type V = ResponseView;

    open spec fn view(&self) -> ResponseView {
        ResponseView { request_id: self.request_id, body: self.body@ }
    }
}

/// Pairs a response body with the id of the request it answers.
///
/// Every response emitted for a request carries that request's id,
/// unchanged: this is the pairing step.
pub fn make_response(request_id: u64, body: ResponseBody) -> (r: Response)
    ensures
        r@.request_id == request_id,
        r@.body == body@,
{
    Response { request_id, body }
}

} // verus!
