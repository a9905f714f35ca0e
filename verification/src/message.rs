//! Message envelopes and their reply discipline.
//!
//! An envelope pairs routing metadata (source and destination node
//! identifiers) with a body. A body carries an optional message sequence
//! number (`msg_id`), an optional `in_reply_to` correlation field, and a
//! payload. The only legal transformation of an envelope is `reply`, which
//! swaps source and destination and correlates the answer to the request.

use vstd::prelude::*;

verus! {

/// Routing metadata of an envelope: where it came from and where it goes.
pub struct Meta {
    pub src: String,
    pub dest: String,
}

impl Meta {
    /// Routing metadata for an answer: source and destination swapped.
    pub fn reply(&self) -> (r: Meta)
        ensures
            r.src == self.dest,
            r.dest == self.src,
    {
        Meta { src: self.dest.clone(), dest: self.src.clone() }
    }

    /// Same swap, as a free-standing constructor.
    pub fn flip(meta: &Meta) -> (r: Meta)
        ensures
            r.src == meta.dest,
            r.dest == meta.src,
    {
        meta.reply()
    }
}

/// The fields every body shares: the sender-assigned sequence number and the
/// sequence number of the message being answered. Both are optional.
pub struct CommonBody {
    pub msg_id: Option<u16>,
    pub in_reply_to: Option<u16>,
}

/// A body: the shared fields plus one payload.
pub struct Body<T> {
    pub common: CommonBody,
    pub custom: T,
}

impl<T> Body<T> {
    /// A body with no sequence number and no correlation, holding `custom`.
    pub fn new(custom: T) -> (r: Body<T>)
        ensures
            r.common.msg_id is None,
            r.common.in_reply_to is None,
            r.custom == custom,
    {
        Body { common: CommonBody { msg_id: None, in_reply_to: None }, custom }
    }
}

/// One envelope: routing metadata and a body.
pub struct Message<T> {
    pub meta: Meta,
    pub body: Body<T>,
}

impl<I> Message<I> {
    /// The answer to this envelope, carrying `custom_body`: source and
    /// destination are swapped, `in_reply_to` is the request's `msg_id`
    /// (absent when the request carried none), and no fresh `msg_id` is
    /// assigned.
    pub fn reply<O>(&self, custom_body: O) -> (r: Message<O>)
        ensures
            r.meta.src == self.meta.dest,
            r.meta.dest == self.meta.src,
            r.body.common.msg_id is None,
            r.body.common.in_reply_to == self.body.common.msg_id,
            r.body.custom == custom_body,
    {
        let meta = self.meta.reply();
        let body = Body {
            common: CommonBody { msg_id: None, in_reply_to: self.body.common.msg_id },
            custom: custom_body,
        };
        Message { meta, body }
    }

    /// The answer to this envelope carrying an error payload.
    pub fn error(&self, error: Error) -> (r: Message<Error>)
        ensures
            r.meta.src == self.meta.dest,
            r.meta.dest == self.meta.src,
            r.body.common.msg_id is None,
            r.body.common.in_reply_to == self.body.common.msg_id,
            r.body.custom == error,
    {
        self.reply(error)
    }
}

/// The payload of the handshake request: this node's identifier and the full
/// roster of node identifiers in the cluster.
pub struct Init {
    pub node_id: String,
    pub node_ids: Vec<String>,
}

/// The payload of the handshake answer.
pub enum InitOk {
    InitOk,
}

impl Message<Init> {
    /// An envelope carrying a handshake request.
    pub fn init(common_body: CommonBody, meta: Meta, init: Init) -> (r: Message<Init>)
        ensures
            r.meta == meta,
            r.body.common == common_body,
            r.body.custom == init,
    {
        Message { meta, body: Body { common: common_body, custom: init } }
    }
}

impl Message<InitOk> {
    /// An envelope carrying a handshake answer.
    pub fn init_ok(common_body: CommonBody, meta: Meta) -> (r: Message<InitOk>)
        ensures
            r.meta == meta,
            r.body.common == common_body,
            r.body.custom == InitOk::InitOk,
    {
        Message { meta, body: Body { common: common_body, custom: InitOk::InitOk } }
    }
}

/// An error payload: a code out of the fixed catalogue.
#[derive(Clone, Copy, PartialEq, Eq, Structural)]
pub struct Error {
    pub code: ErrorCode,
}

/// The fixed catalogue of error codes. `code` gives each one's number on the
/// wire.
#[derive(Clone, Copy, PartialEq, Eq, Structural)]
pub enum ErrorCode {
    Timeout,
    NodeNotFound,
    NotSupported,
    TemporarilyUnavailable,
    MalformedRequest,
    Crash,
    Abort,
    KeyDoesNotExist,
    KeyAlreadyExists,
    PreconditionFailed,
    TxnConflict,
}

/// The number each error code is written as on the wire.
pub open spec fn spec_error_code(c: ErrorCode) -> u8 {
    match c {
        ErrorCode::Timeout => 0,
        ErrorCode::NodeNotFound => 1,
        ErrorCode::NotSupported => 10,
        ErrorCode::TemporarilyUnavailable => 11,
        ErrorCode::MalformedRequest => 12,
        ErrorCode::Crash => 13,
        ErrorCode::Abort => 14,
        ErrorCode::KeyDoesNotExist => 20,
        ErrorCode::KeyAlreadyExists => 21,
        ErrorCode::PreconditionFailed => 22,
        ErrorCode::TxnConflict => 30,
    }
}

impl ErrorCode {
    /// The numeric form of this code.
    pub fn code(&self) -> (n: u8)
        ensures
            n == spec_error_code(*self),
    {
        match self {
            ErrorCode::Timeout => 0,
            ErrorCode::NodeNotFound => 1,
            ErrorCode::NotSupported => 10,
            ErrorCode::TemporarilyUnavailable => 11,
            ErrorCode::MalformedRequest => 12,
            ErrorCode::Crash => 13,
            ErrorCode::Abort => 14,
            ErrorCode::KeyDoesNotExist => 20,
            ErrorCode::KeyAlreadyExists => 21,
            ErrorCode::PreconditionFailed => 22,
            ErrorCode::TxnConflict => 30,
        }
    }

    /// The error payload built from this code.
    pub fn into(self) -> (r: Error)
        ensures
            r.code == self,
    {
        Error { code: self }
    }
}

} // verus!
