//! The node runtime's decisions: the init handshake and the dispatch of every
//! later event.
//!
//! The runtime is a state machine with two states. It starts awaiting the
//! init handshake; the first envelope must carry an init payload, else the
//! run is a protocol violation and fatal. After the handshake it runs until
//! the inbound stream closes, feeding every envelope — and every retry tick —
//! to the gossip engine in arrival order. The surrounding process owns the
//! streams and the timer; it hands each event to [`Server::step`] and writes
//! out the envelopes that come back.

use vstd::prelude::*;

use crate::broadcast::{
    event_step, handle_out, is_reply_to, tick_out, Broadcast, BroadcastNode, Outbound,
};
use crate::message::{Body, Error, ErrorCode, Init, InitOk, Message};
use crate::model::step_init;

verus! {

/// The payloads an inbound envelope can carry.
pub enum Inbound {
    /// The handshake request.
    Init(Init),
    /// Any application request.
    Request(Broadcast),
}

/// One event the runtime consumes: an inbound envelope, or a retry tick
/// posted into the same queue.
pub enum Event {
    Message(Message<Inbound>),
    Tick,
}

/// A condition the runtime cannot recover from; the process exits non-zero.
#[derive(Debug)]
pub enum Fatal {
    /// The first envelope did not carry an init payload.
    ProtocolViolation,
}

/// The runtime's two states. A closed inbound stream ends a run by ending
/// the event loop, not by a transition.
#[derive(Clone, Copy)]
pub enum ServerState {
    AwaitingInit,
    Running,
}

/// The node runtime: the dispatch state machine and the one engine it owns.
pub struct Server {
    pub state: ServerState,
    pub node: BroadcastNode,
}

/// What one runtime step does: which events are fatal, how the engine moves,
/// and which envelopes go out.
pub open spec fn step_ok(
    pre: Server,
    event: Event,
    post: Server,
    r: Result<Vec<Message<Outbound>>, Fatal>,
) -> bool {
    match event {
        Event::Tick => match pre.state {
            // A tick before the handshake has nothing to resend.
            ServerState::AwaitingInit => {
                &&& post == pre
                &&& r matches Ok(out) && out@.len() == 0
            },
            ServerState::Running => {
                &&& post == pre
                &&& r matches Ok(out) && tick_out(pre.node@, out@)
            },
        },
        Event::Message(m) => match m.body.custom {
            Inbound::Init(init) => match pre.state {
                ServerState::AwaitingInit => {
                    &&& post.state is Running
                    &&& post.node@ == step_init(pre.node@, init.node_id@)
                    &&& r matches Ok(out) && out@.len() == 1
                        && is_reply_to(out@[0], m, Outbound::InitOk(InitOk::InitOk))
                },
                // A second handshake is an application error, not fatal.
                ServerState::Running => {
                    &&& post == pre
                    &&& r matches Ok(out) && out@.len() == 1
                        && is_reply_to(
                            out@[0],
                            m,
                            Outbound::Error(Error { code: ErrorCode::NotSupported }),
                        )
                },
            },
            Inbound::Request(b) => match pre.state {
                ServerState::AwaitingInit => {
                    &&& post == pre
                    &&& r matches Err(f) && f is ProtocolViolation
                },
                ServerState::Running => {
                    &&& post.state is Running
                    &&& post.node@ == event_step(pre.node@, b, m.meta.src@)
                    &&& r matches Ok(out) && handle_out(
                        pre.node@,
                        Message { meta: m.meta, body: Body { common: m.body.common, custom: b } },
                        out@,
                    )
                },
            },
        },
    }
}

impl Server {
    /// What always holds of a runtime: its engine is well formed, and once
    /// running the engine knows its identifier.
    pub open spec fn wf(&self) -> bool {
        &&& self.node.wf()
        &&& self.state is Running ==> self.node.initialized()
    }

    /// A runtime awaiting the handshake, with a fresh engine.
    pub fn new() -> (r: Server)
        ensures
            r.wf(),
            r.state is AwaitingInit,
            r.node@ == crate::model::EngineModel::empty(),
    {
        Server { state: ServerState::AwaitingInit, node: BroadcastNode::new() }
    }

    /// Consume one event: perform the transition and hand back the envelopes
    /// to write out, or the fatal condition that ends the run.
    pub fn step(&mut self, event: Event) -> (r: Result<Vec<Message<Outbound>>, Fatal>)
        requires
            old(self).wf(),
        ensures
            final(self).wf(),
            step_ok(*old(self), event, *final(self), r),
    {
        match event {
            Event::Tick => match self.state {
                ServerState::AwaitingInit => Ok(Vec::new()),
                ServerState::Running => Ok(self.node.on_tick()),
            },
            Event::Message(m) => {
                let Message { meta, body } = m;
                let Body { common, custom } = body;
                match custom {
                    Inbound::Init(init) => match self.state {
                        ServerState::AwaitingInit => {
                            let request = Message::init(common, meta, init);
                            let reply = self.node.handle_init(&request);
                            self.state = ServerState::Running;
                            let mut out: Vec<Message<Outbound>> = Vec::new();
                            out.push(reply);
                            Ok(out)
                        },
                        ServerState::Running => {
                            let request = Message::init(common, meta, init);
                            let reply = request.reply(Outbound::Error(Error {
                                code: ErrorCode::NotSupported,
                            }));
                            let mut out: Vec<Message<Outbound>> = Vec::new();
                            out.push(reply);
                            Ok(out)
                        },
                    },
                    Inbound::Request(b) => match self.state {
                        ServerState::AwaitingInit => Err(Fatal::ProtocolViolation),
                        ServerState::Running => {
                            let request = Message { meta, body: Body { common, custom: b } };
                            Ok(self.node.handle(&request))
                        },
                    },
                }
            },
        }
    }
}

} // verus!
