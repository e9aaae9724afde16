//! Overlay payload types: the request/response units exchanged with
//! other hosts over the peer-to-peer overlay.

use vstd::prelude::*;

use crate::json::{JsonValue, JsonView};

verus! {

/// One outbound or inbound overlay request.
#[derive(Debug)]
pub enum Request {
    /// The sender pushes its current announcement for one app.
    Announce { app_uuid: String, data: JsonValue },
    /// The sender delivers one message.
    Message { from_app_uuid: String, to_app_uuid: String, message: Vec<u8> },
}

/// The only overlay response.
#[derive(Debug)]
pub enum Response {
    Acknowledge,
}

/// The mathematical model of an overlay request.
pub enum RequestView {
    Announce { app_uuid: Seq<char>, data: JsonView },
    Message { from_app_uuid: Seq<char>, to_app_uuid: Seq<char>, message: Seq<u8> },
}

impl View for Request {
    type V = RequestView;

    open spec fn view(&self) -> RequestView {
        match self {
            Request::Announce { app_uuid, data } => RequestView::Announce {
                app_uuid: app_uuid@,
                data: data@,
            },
            Request::Message { from_app_uuid, to_app_uuid, message } => RequestView::Message {
                from_app_uuid: from_app_uuid@,
                to_app_uuid: to_app_uuid@,
                message: message@,
            },
        }
    }
}

} // verus!
