//! What the service answers, before it becomes HTTP.
use crate::types::manifest::{ManifestResponse, ManifestResponseView};
use crate::types::sync::{SyncResponse, SyncResponseView};
use vstd::prelude::*;

verus! {

/// A header of a reply.
#[derive(Debug)]
pub struct ReplyHeader {
    pub name: &'static str,
    pub value: Vec<u8>,
}

/// What [`ReplyHeader`] holds.
pub struct ReplyHeaderView {
    pub name: Seq<char>,
    pub value: Seq<u8>,
}

impl View for ReplyHeader {
    type V = ReplyHeaderView;

    open spec fn view(&self) -> ReplyHeaderView {
        ReplyHeaderView { name: self.name@, value: self.value@ }
    }
}

/// How many users there are and how many wrote in the last day, week and month.
#[derive(Debug, Clone, Copy, PartialEq, Eq, Structural)]
pub struct UserCounts {
    pub total: u64,
    pub week: u64,
    pub month: u64,
    pub day: u64,
}

/// The body of a reply.
#[derive(Debug)]
pub enum ReplyBody {
    Empty,
    Bytes(Vec<u8>),
    /// An object with one field, `error`.
    Error(String),
    /// An object with one field, `status`.
    Status(&'static str),
    /// An object with one field, `service`.
    Service(&'static str),
    /// An object with the fields `status` and `service`.
    Pong { status: &'static str, service: &'static str },
    /// The address that a client is sent on to.
    Location(String),
    /// An object with one field, `written`.
    Written(i64),
    /// An object with the fields `version`, `checksum` and `updated_at`.
    Saved { version: i64, checksum: String, updated_at: i64 },
    /// An object with one field, `secret`.
    Secret(String),
    Manifest(ManifestResponse),
    Sync(SyncResponse),
    Metrics { counts: UserCounts, uptime_seconds: u64, timestamp_ms: i64 },
}

/// What [`ReplyBody`] holds.
pub enum ReplyBodyView {
    Empty,
    Bytes(Seq<u8>),
    Error(Seq<char>),
    Status(Seq<char>),
    Service(Seq<char>),
    Pong { status: Seq<char>, service: Seq<char> },
    Location(Seq<char>),
    Written(i64),
    Saved { version: i64, checksum: Seq<char>, updated_at: i64 },
    Secret(Seq<char>),
    Manifest(ManifestResponseView),
    Sync(SyncResponseView),
    Metrics { counts: UserCounts, uptime_seconds: u64, timestamp_ms: i64 },
}

impl View for ReplyBody {
    type V = ReplyBodyView;

    open spec fn view(&self) -> ReplyBodyView {
        match *self {
            ReplyBody::Empty => ReplyBodyView::Empty,
            ReplyBody::Bytes(b) => ReplyBodyView::Bytes(b@),
            ReplyBody::Error(s) => ReplyBodyView::Error(s@),
            ReplyBody::Status(s) => ReplyBodyView::Status(s@),
            ReplyBody::Service(s) => ReplyBodyView::Service(s@),
            ReplyBody::Pong { status, service } => ReplyBodyView::Pong {
                status: status@,
                service: service@,
            },
            ReplyBody::Location(s) => ReplyBodyView::Location(s@),
            ReplyBody::Written(t) => ReplyBodyView::Written(t),
            ReplyBody::Saved { version, checksum, updated_at } => ReplyBodyView::Saved {
                version,
                checksum: checksum@,
                updated_at,
            },
            ReplyBody::Secret(s) => ReplyBodyView::Secret(s@),
            ReplyBody::Manifest(m) => ReplyBodyView::Manifest(m@),
            ReplyBody::Sync(s) => ReplyBodyView::Sync(s@),
            ReplyBody::Metrics { counts, uptime_seconds, timestamp_ms } => ReplyBodyView::Metrics {
                counts,
                uptime_seconds,
                timestamp_ms,
            },
        }
    }
}

/// A reply: status, headers and body.
#[derive(Debug)]
pub struct Reply {
    pub status: u16,
    pub headers: Vec<ReplyHeader>,
    pub body: ReplyBody,
}

/// What [`Reply`] holds.
pub struct ReplyView {
    pub status: u16,
    pub headers: Seq<ReplyHeaderView>,
    pub body: ReplyBodyView,
}

impl View for Reply {
    type V = ReplyView;

    open spec fn view(&self) -> ReplyView {
        ReplyView {
            status: self.status,
            headers: self.headers@.map_values(|h: ReplyHeader| h@),
            body: self.body@,
        }
    }
}

/// A reply with a body and no headers of its own.
pub open spec fn plain_reply(status: u16, body: ReplyBodyView) -> ReplyView {
    ReplyView { status, headers: seq![], body }
}

/// A reply that names an error.
pub open spec fn error_view(status: u16, message: Seq<char>) -> ReplyView {
    plain_reply(status, ReplyBodyView::Error(message))
}

/// A reply with a status alone.
pub open spec fn status_view(status: u16) -> ReplyView {
    plain_reply(status, ReplyBodyView::Empty)
}

/// The body that names an error.
pub fn error_response(message: &str) -> (r: ReplyBody)
    ensures
        r@ == ReplyBodyView::Error(message@),
{
    ReplyBody::Error(message.to_owned())
}

/// A reply with a body and no headers of its own.
pub fn plain(status: u16, body: ReplyBody) -> (r: Reply)
    ensures
        r@ == plain_reply(status, body@),
{
    let headers: Vec<ReplyHeader> = Vec::new();
    assert(headers@.map_values(|h: ReplyHeader| h@) =~= seq![]);
    Reply { status, headers, body }
}

/// A reply that names an error.
pub fn err(status: u16, message: &str) -> (r: Reply)
    ensures
        r@ == error_view(status, message@),
{
    plain(status, error_response(message))
}

/// A reply with a status alone.
pub fn status_only(status: u16) -> (r: Reply)
    ensures
        r@ == status_view(status),
{
    plain(status, ReplyBody::Empty)
}

} // verus!
