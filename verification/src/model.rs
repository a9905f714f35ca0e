//! The mathematical model of the gossip broadcast engine.
//!
//! An engine's state is abstracted to an [`EngineModel`]: its identifier, its
//! ordered neighbor list, the set of values it has learned, and the
//! pending-acknowledgment table mapping each value to the set of neighbors
//! that have not yet acknowledged a gossip about it. Each protocol event is a
//! pure transition on this model; the executable engine is proved to follow
//! these transitions exactly.

use vstd::prelude::*;

verus! {

/// The abstract state of one gossip broadcast engine.
#[verifier::ext_equal]
pub ghost struct EngineModel {
    /// This node's identifier, absent until the init handshake.
    pub node_id: Option<Seq<char>>,
    /// The neighbor identifiers installed by the topology message, in order.
    pub neighbors: Seq<Seq<char>>,
    /// Every value this node has learned, as a set.
    pub values: Set<i32>,
    /// For each value, the neighbors that have not yet acknowledged it.
    pub pending: Map<i32, Set<Seq<char>>>,
}

impl EngineModel {
    /// The model of an engine that has seen nothing yet.
    pub open spec fn empty() -> EngineModel {
        EngineModel {
            node_id: None,
            neighbors: Seq::empty(),
            values: Set::empty(),
            pending: Map::empty(),
        }
    }

    /// What always holds of a reachable engine state: every value with a
    /// pending entry has been learned, and every pending set is finite.
    pub open spec fn inv(self) -> bool {
        &&& forall|v: i32| self.pending.dom().contains(v) ==> self.values.contains(v)
        &&& forall|v: i32| self.pending.dom().contains(v) ==> (#[trigger] self.pending[v]).finite()
    }
}

/// The elements of `nodes`, in order of first occurrence, skipping those in
/// `excluded`: the order in which a pending-acknowledgment entry lists its
/// neighbors when it is seeded from the neighbor list.
pub open spec fn seed_order(nodes: Seq<Seq<char>>, excluded: Set<Seq<char>>) -> Seq<Seq<char>>
    decreases nodes.len(),
{
    if nodes.len() == 0 {
        Seq::empty()
    } else {
        let prefix = seed_order(nodes.drop_last(), excluded);
        if !excluded.contains(nodes.last()) && !prefix.contains(nodes.last()) {
            prefix.push(nodes.last())
        } else {
            prefix
        }
    }
}

/// The seeded order lists each admitted element once, and exactly the
/// elements of `nodes` that are not excluded.
pub proof fn lemma_seed_order(nodes: Seq<Seq<char>>, excluded: Set<Seq<char>>)
    ensures
        seed_order(nodes, excluded).no_duplicates(),
        seed_order(nodes, excluded).to_set() =~= nodes.to_set().difference(excluded),
        forall|i: int| 0 <= i < seed_order(nodes, excluded).len()
            ==> nodes.contains(#[trigger] seed_order(nodes, excluded)[i])
                && !excluded.contains(seed_order(nodes, excluded)[i]),
    decreases nodes.len(),
{
    if nodes.len() > 0 {
        lemma_seed_order(nodes.drop_last(), excluded);
        let prefix = seed_order(nodes.drop_last(), excluded);
        let r = seed_order(nodes, excluded);
        assert forall|x: Seq<char>| r.to_set().contains(x)
            implies nodes.to_set().contains(x) && !excluded.contains(x) by {
            if prefix.contains(x) {
                assert(nodes.drop_last().to_set().contains(x));
                let i = choose|i: int| 0 <= i < nodes.drop_last().len()
                    && nodes.drop_last()[i] == x;
                assert(nodes[i] == x);
            }
        }
        assert forall|x: Seq<char>| nodes.to_set().contains(x) && !excluded.contains(x)
            implies r.to_set().contains(x) by {
            let i = choose|i: int| 0 <= i < nodes.len() && nodes[i] == x;
            if i < nodes.len() - 1 {
                assert(nodes.drop_last()[i] == x);
                assert(prefix.to_set().contains(x));
            }
            if prefix.contains(x) {
                let j = choose|j: int| 0 <= j < prefix.len() && prefix[j] == x;
                assert(r[j] == x);
            } else {
                assert(x == nodes.last());
                assert(r == prefix.push(x));
                assert(r[r.len() - 1] == x);
            }
        }
        assert forall|i: int| 0 <= i < r.len()
            implies nodes.contains(#[trigger] r[i]) && !excluded.contains(r[i]) by {
            if i < prefix.len() {
                assert(prefix[i] == r[i]);
                assert(nodes.drop_last().contains(prefix[i]));
                let j = choose|j: int| 0 <= j < nodes.drop_last().len()
                    && nodes.drop_last()[j] == prefix[i];
                assert(nodes[j] == r[i]);
            }
        }
    }
}

/// The neighbor list `topology` assigns to `node`: the list of the first
/// entry keyed by `node`, or the empty list when none is.
pub open spec fn topo_lookup(
    topology: Seq<(Seq<char>, Seq<Seq<char>>)>,
    node: Seq<char>,
) -> Seq<Seq<char>>
    decreases topology.len(),
{
    if topology.len() == 0 {
        Seq::empty()
    } else if topology.first().0 == node {
        topology.first().1
    } else {
        topo_lookup(topology.drop_first(), node)
    }
}

/// Learning `v` by a local broadcast request: when `v` is new, it joins the
/// value set and its pending entry is seeded with all current neighbors;
/// a known value changes nothing.
pub open spec fn step_broadcast(s: EngineModel, v: i32) -> EngineModel {
    if s.values.contains(v) {
        s
    } else {
        EngineModel {
            values: s.values.insert(v),
            pending: s.pending.insert(v, s.neighbors.to_set()),
            ..s
        }
    }
}

/// Learning `v` by a gossip from `from` whose accompanying recipient hint is
/// `recipients`: when `v` is new, it joins the value set and its pending
/// entry is seeded with the neighbors not already covered by the hint or the
/// sender; a known value changes nothing.
pub open spec fn step_gossip(
    s: EngineModel,
    v: i32,
    recipients: Set<Seq<char>>,
    from: Seq<char>,
) -> EngineModel {
    if s.values.contains(v) {
        s
    } else {
        EngineModel {
            values: s.values.insert(v),
            pending: s.pending.insert(
                v,
                s.neighbors.to_set().difference(recipients.insert(from)),
            ),
            ..s
        }
    }
}

/// An acknowledgment of `v` by `from`: `from` leaves the pending set of `v`,
/// and nothing else moves. Unknown values and absent neighbors are absorbed.
pub open spec fn step_gossip_ok(s: EngineModel, from: Seq<char>, v: i32) -> EngineModel {
    if s.pending.dom().contains(v) {
        EngineModel { pending: s.pending.insert(v, s.pending[v].remove(from)), ..s }
    } else {
        s
    }
}

/// Installing a topology: the neighbor list becomes whatever the map assigns
/// to this node, fully replacing the old list.
pub open spec fn step_topology(
    s: EngineModel,
    topology: Seq<(Seq<char>, Seq<Seq<char>>)>,
) -> EngineModel {
    EngineModel {
        neighbors: match s.node_id {
            Some(id) => topo_lookup(topology, id),
            None => Seq::empty(),
        },
        ..s
    }
}

/// The init handshake: the node learns its identifier; nothing else moves.
pub open spec fn step_init(s: EngineModel, id: Seq<char>) -> EngineModel {
    EngineModel { node_id: Some(id), ..s }
}

/// Every transition preserves the state invariant.
pub proof fn lemma_steps_preserve_inv(s: EngineModel)
    requires
        s.inv(),
    ensures
        forall|v: i32| (#[trigger] step_broadcast(s, v)).inv(),
        forall|v: i32, r: Set<Seq<char>>, f: Seq<char>|
            r.finite() ==> (#[trigger] step_gossip(s, v, r, f)).inv(),
        forall|v: i32, f: Seq<char>| (#[trigger] step_gossip_ok(s, f, v)).inv(),
        forall|t: Seq<(Seq<char>, Seq<Seq<char>>)>| (#[trigger] step_topology(s, t)).inv(),
        forall|id: Seq<char>| (#[trigger] step_init(s, id)).inv(),
{
    broadcast use vstd::seq_lib::seq_to_set_is_finite;
    broadcast use vstd::set::group_set_axioms;

    assert(s.neighbors.to_set().finite());
}

} // verus!
