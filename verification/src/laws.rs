//! The protocol's laws, proved once and for all over the engine's model.
//!
//! Each law is stated over the transitions of [`crate::model`]; the handlers
//! of [`crate::broadcast`] are proved to follow those transitions exactly, so
//! these laws carry over to every run of the executable engine.

use vstd::prelude::*;

use crate::model::{
    step_broadcast, step_gossip, step_gossip_ok, step_init, step_topology, EngineModel,
};

verus! {

/// Learning a value, by a local broadcast or by a gossip, adds exactly that
/// value to the value set — whether or not it was already known.
pub proof fn lemma_learn_values(s: EngineModel, v: i32, recips: Set<Seq<char>>, from: Seq<char>)
    ensures
        step_broadcast(s, v).values == s.values.insert(v),
        step_gossip(s, v, recips, from).values == s.values.insert(v),
{
    if s.values.contains(v) {
        assert(s.values.insert(v) =~= s.values);
    }
}

/// Broadcasting a value twice — locally or via duplicate gossip, in any
/// combination and with any hints — leaves exactly the state that one
/// delivery leaves: the second delivery changes nothing at all, so a read's
/// value set is invariant to duplicate deliveries.
pub proof fn lemma_duplicate_delivery(
    s: EngineModel,
    v: i32,
    recips1: Set<Seq<char>>,
    from1: Seq<char>,
    recips2: Set<Seq<char>>,
    from2: Seq<char>,
)
    ensures
        step_broadcast(step_broadcast(s, v), v) == step_broadcast(s, v),
        step_gossip(step_broadcast(s, v), v, recips2, from2) == step_broadcast(s, v),
        step_gossip(step_gossip(s, v, recips1, from1), v, recips2, from2)
            == step_gossip(s, v, recips1, from1),
        step_broadcast(step_gossip(s, v, recips1, from1), v) == step_gossip(s, v, recips1, from1),
{
    assert(step_broadcast(s, v).values.contains(v));
    assert(step_gossip(s, v, recips1, from1).values.contains(v));
}

/// An acknowledgment of `v` by `from` removes at most `from`, and only from
/// the pending set of `v`: every other value's pending set is untouched, no
/// entry appears or disappears, and the value set and neighbor list stay as
/// they were. Acknowledgments of unknown values change nothing.
pub proof fn lemma_ack_exact(s: EngineModel, from: Seq<char>, v: i32)
    ensures
        step_gossip_ok(s, from, v).values == s.values,
        step_gossip_ok(s, from, v).neighbors == s.neighbors,
        step_gossip_ok(s, from, v).node_id == s.node_id,
        step_gossip_ok(s, from, v).pending.dom() == s.pending.dom(),
        forall|w: i32| w != v && s.pending.dom().contains(w)
            ==> step_gossip_ok(s, from, v).pending[w] == s.pending[w],
        s.pending.dom().contains(v)
            ==> step_gossip_ok(s, from, v).pending[v] == s.pending[v].remove(from),
        !s.pending.dom().contains(v) ==> step_gossip_ok(s, from, v) == s,
        forall|w: i32, n: Seq<char>| s.pending.dom().contains(w)
            && #[trigger] step_gossip_ok(s, from, v).pending[w].contains(n)
            ==> s.pending[w].contains(n),
{
    if s.pending.dom().contains(v) {
        assert(step_gossip_ok(s, from, v).pending.dom() =~= s.pending.dom());
    }
}

/// No event but a matching acknowledgment shrinks a pending set: a learning
/// step — local or by gossip — leaves every existing pending entry exactly as
/// it was, and the handshake and a topology change leave the whole table as
/// it was. Together with `lemma_ack_exact`, a neighbor leaves the pending set
/// of a value only when that neighbor's acknowledgment of that value arrives.
pub proof fn lemma_only_ack_clears(
    s: EngineModel,
    v: i32,
    recips: Set<Seq<char>>,
    from: Seq<char>,
)
    requires
        s.inv(),
    ensures
        forall|w: i32| s.pending.dom().contains(w)
            ==> #[trigger] step_broadcast(s, v).pending[w] == s.pending[w],
        forall|w: i32| s.pending.dom().contains(w)
            ==> #[trigger] step_gossip(s, v, recips, from).pending[w] == s.pending[w],
        forall|w: i32| s.pending.dom().contains(w)
            ==> step_broadcast(s, v).pending.dom().contains(w)
                && step_gossip(s, v, recips, from).pending.dom().contains(w),
        forall|t: Seq<(Seq<char>, Seq<Seq<char>>)>|
            (#[trigger] step_topology(s, t)).pending == s.pending,
        forall|id: Seq<char>| (#[trigger] step_init(s, id)).pending == s.pending,
{
    if !s.values.contains(v) {
        assert(!s.pending.dom().contains(v));
    }
}

/// One retry round converges one edge: while `n` is still pending for `v` at
/// some node, a tick resends the gossip to `n`; whatever hint and source that
/// gossip carries, `n` learns `v` on receipt and acknowledges; and the
/// acknowledgment, once handled, removes exactly `n` from the pending set of
/// `v`. Repeated over the ticks, every edge of a connected topology without
/// permanent loss drains its pending sets.
pub proof fn lemma_retry_edge_converges(
    s: EngineModel,
    t: EngineModel,
    n: Seq<char>,
    v: i32,
    recips: Set<Seq<char>>,
    src: Seq<char>,
)
    requires
        s.pending.dom().contains(v),
        s.pending[v].contains(n),
    ensures
        step_gossip(t, v, recips, src).values.contains(v),
        step_gossip_ok(s, n, v).pending[v] == s.pending[v].remove(n),
        !step_gossip_ok(s, n, v).pending[v].contains(n),
{
}

} // verus!
