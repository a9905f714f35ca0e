//! The gossip broadcast engine.
//!
//! The engine learns values, floods them to its neighbors, and retries until
//! every neighbor has acknowledged every value. Values are deduplicated by
//! identity, so the protocol is idempotent under arbitrary re-delivery; the
//! recipient hint carried by a gossip bounds redundant fan-out but is never
//! trusted for the engine's own bookkeeping.
//!
//! Every handler is proved to follow the transitions of
//! [`crate::model::EngineModel`] exactly, and to emit exactly the envelopes
//! the protocol asks for.

use vstd::prelude::*;

use crate::message::{Body, Error, Init, InitOk, Message, Meta};
use crate::model::{
    step_broadcast, step_gossip, step_gossip_ok, step_init, step_topology, lemma_seed_order,
    seed_order, topo_lookup, EngineModel,
};

verus! {

/// One entry of a topology message: a node and its assigned neighbor list.
pub struct TopologyEntry {
    pub node: String,
    pub neighbors: Vec<String>,
}

/// The request payloads the engine consumes.
pub enum Broadcast {
    /// A locally injected request to disseminate `message`.
    Broadcast { message: i32 },
    /// A value relayed by a neighbor; `recipients` is the sender's belief of
    /// who already has it.
    Gossip { message: i32, recipients: Vec<String> },
    /// A neighbor's acknowledgment that it received a gossip of `message`.
    GossipOk { node_id: String, message: i32 },
    /// A request for every value this node has learned.
    Read,
    /// The externally assigned topology: each node's neighbor list.
    Topology { topology: Vec<TopologyEntry> },
}

/// The answer payloads the engine produces.
pub enum BroadcastOk {
    BroadcastOk,
    ReadOk { messages: Vec<i32> },
    TopologyOk,
}

/// Everything a node can put on the wire.
pub enum Outbound {
    /// The handshake answer.
    InitOk(InitOk),
    /// A message to a peer: a gossip or an acknowledgment.
    Request(Broadcast),
    /// The answer to an application request.
    Reply(BroadcastOk),
    /// An error answer.
    Error(Error),
}

/// The view of a topology payload: each entry as its node and neighbor views.
pub open spec fn topo_view(t: Seq<TopologyEntry>) -> Seq<(Seq<char>, Seq<Seq<char>>)> {
    t.map_values(|e: TopologyEntry| (e.node@, e.neighbors.deep_view()))
}

/// One pending-acknowledgment entry: the neighbors that have not yet
/// acknowledged `value`.
pub struct Status {
    pub value: i32,
    pub nodes: Vec<String>,
}

/// The set a pending entry stands for.
pub open spec fn status_set(e: Status) -> Set<Seq<char>> {
    e.nodes.deep_view().to_set()
}

/// The pending-acknowledgment table a list of entries stands for.
pub open spec fn status_map(s: Seq<Status>) -> Map<i32, Set<Seq<char>>>
    decreases s.len(),
{
    if s.len() == 0 {
        Map::empty()
    } else {
        status_map(s.drop_last()).insert(s.last().value, status_set(s.last()))
    }
}

/// No two entries of the table claim the same value.
pub open spec fn keys_unique(s: Seq<Status>) -> bool {
    forall|i: int, j: int| 0 <= i < j < s.len() ==> s[i].value != s[j].value
}

/// With unique keys, the table maps exactly the listed values, each to its
/// entry's set.
pub proof fn lemma_status_map(s: Seq<Status>)
    requires
        keys_unique(s),
    ensures
        forall|v: i32| status_map(s).dom().contains(v)
            <==> exists|i: int| 0 <= i < s.len() && (#[trigger] s[i]).value == v,
        forall|i: int| 0 <= i < s.len()
            ==> status_map(s)[(#[trigger] s[i]).value] == status_set(s[i]),
    decreases s.len(),
{
    if s.len() > 0 {
        lemma_status_map(s.drop_last());
        let dl = s.drop_last();
        assert(status_map(s) == status_map(dl).insert(s.last().value, status_set(s.last())));
        assert forall|v: i32| status_map(s).dom().contains(v)
            implies exists|i: int| 0 <= i < s.len() && (#[trigger] s[i]).value == v by {
            if v == s.last().value {
                assert(s[s.len() - 1].value == v);
            } else {
                assert(status_map(dl).dom().contains(v));
                let i = choose|i: int| 0 <= i < dl.len() && (#[trigger] dl[i]).value == v;
                assert(dl[i] == s[i]);
                assert(s[i].value == v);
            }
        }
        assert forall|v: i32|
            exists|i: int| 0 <= i < s.len() && (#[trigger] s[i]).value == v
            implies status_map(s).dom().contains(v) by {
            let i = choose|i: int| 0 <= i < s.len() && (#[trigger] s[i]).value == v;
            if i < s.len() - 1 {
                assert(s.drop_last()[i].value == v);
            }
        }
        assert forall|i: int| 0 <= i < s.len()
            implies status_map(s)[(#[trigger] s[i]).value] == status_set(s[i]) by {
            if i < s.len() - 1 {
                assert(s.drop_last()[i] == s[i]);
                assert(s[i].value != s.last().value);
            }
        }
    }
}

/// Appending an entry adds exactly its pair to the table.
pub proof fn lemma_status_map_push(s: Seq<Status>, e: Status)
    ensures
        status_map(s.push(e)) == status_map(s).insert(e.value, status_set(e)),
{
    assert(s.push(e).drop_last() =~= s);
    assert(s.push(e).last() == e);
}

/// Replacing the entry at `i` by one for the same value rewrites exactly that
/// value's set.
pub proof fn lemma_status_map_update(s: Seq<Status>, i: int, e: Status)
    requires
        keys_unique(s),
        0 <= i < s.len(),
        e.value == s[i].value,
    ensures
        status_map(s.update(i, e)) =~= status_map(s).insert(e.value, status_set(e)),
    decreases s.len(),
{
    let s2 = s.update(i, e);
    if i == s.len() - 1 {
        assert(s2.drop_last() =~= s.drop_last());
        assert(s2.last() == e);
    } else {
        assert(s2.drop_last() =~= s.drop_last().update(i, e));
        assert(s2.last() == s.last());
        lemma_status_map_update(s.drop_last(), i, e);
        assert(s.last().value != e.value);
    }
}

/// The gossip broadcast engine's state: this node's identity, its neighbor
/// list, the values it has learned, and the pending-acknowledgment table.
pub struct BroadcastNode {
    /// This node's identifier, set once by the init handshake.
    pub node_id: Option<String>,
    /// The neighbor list installed by the topology message.
    pub neighbors: Vec<String>,
    /// Every value this node has learned, without duplicates.
    pub messages: Vec<i32>,
    /// One entry per value that some neighbor has not yet acknowledged.
    pub statuses: Vec<Status>,
}

impl View for BroadcastNode {
    type V = EngineModel;

    open spec fn view(&self) -> EngineModel {
        EngineModel {
            node_id: match self.node_id {
                Option::Some(s) => Option::Some(s@),
                Option::None => Option::None,
            },
            neighbors: self.neighbors.deep_view(),
            values: self.messages@.to_set(),
            pending: status_map(self.statuses@),
        }
    }
}

impl BroadcastNode {
    /// The representation invariant: learned values are listed once each, the
    /// pending table has one entry per value, each entry lists a neighbor at
    /// most once, and only learned values have entries.
    pub open spec fn wf(&self) -> bool {
        &&& self.messages@.no_duplicates()
        &&& keys_unique(self.statuses@)
        &&& forall|i: int| 0 <= i < self.statuses@.len()
            ==> (#[trigger] self.statuses@[i]).nodes.deep_view().no_duplicates()
        &&& forall|i: int| 0 <= i < self.statuses@.len()
            ==> self.messages@.contains((#[trigger] self.statuses@[i]).value)
    }

    /// Whether the init handshake has assigned this node its identifier.
    pub open spec fn initialized(&self) -> bool {
        self.node_id is Some
    }

    /// A well-formed engine is in a state the abstract invariant allows.
    pub proof fn lemma_wf_inv(&self)
        requires
            self.wf(),
        ensures
            self@.inv(),
    {
        broadcast use vstd::seq_lib::seq_to_set_is_finite;
        broadcast use vstd::set::group_set_axioms;

        lemma_status_map(self.statuses@);
        assert forall|v: i32| self@.pending.dom().contains(v)
            implies self@.values.contains(v) by {
            let i = choose|i: int| 0 <= i < self.statuses@.len()
                && (#[trigger] self.statuses@[i]).value == v;
            assert(self.messages@.contains(self.statuses@[i].value));
        }
        assert forall|v: i32| self@.pending.dom().contains(v)
            implies (#[trigger] self@.pending[v]).finite() by {
            let i = choose|i: int| 0 <= i < self.statuses@.len()
                && (#[trigger] self.statuses@[i]).value == v;
            assert(self@.pending[v] == status_set(self.statuses@[i]));
        }
    }

    /// An engine that has seen nothing yet.
    pub fn new() -> (r: BroadcastNode)
        ensures
            r.wf(),
            !r.initialized(),
            r@ == EngineModel::empty(),
    {
        let r = BroadcastNode {
            node_id: None,
            neighbors: Vec::new(),
            messages: Vec::new(),
            statuses: Vec::new(),
        };
        proof {
            assert(r@ =~= EngineModel::empty());
        }
        r
    }

    /// This node's identifier.
    pub fn node_id_str(&self) -> (r: &String)
        requires
            self.initialized(),
        ensures
            r@ == self@.node_id->0,
    {
        match &self.node_id {
            Some(s) => s,
            None => vstd::pervasive::unreached(),
        }
    }
}

/// A copy of a string list, element for element.
fn clone_strings(v: &Vec<String>) -> (r: Vec<String>)
    ensures
        r@ == v@,
{
    let mut r: Vec<String> = Vec::new();
    let n = v.len();
    for i in 0..n
        invariant
            n == v@.len(),
            r@ == v@.take(i as int),
    {
        r.push(v[i].clone());
        proof {
            assert(r@ =~= v@.take(i + 1));
        }
    }
    proof {
        assert(v@.take(n as int) =~= v@);
    }
    r
}

/// Whether `values` lists `v`.
fn contains_value(values: &Vec<i32>, v: i32) -> (r: bool)
    ensures
        r == values@.contains(v),
{
    let n = values.len();
    for i in 0..n
        invariant
            n == values@.len(),
            forall|j: int| 0 <= j < i ==> values@[j] != v,
    {
        if values[i] == v {
            return true;
        }
    }
    false
}

/// Whether `items` lists a string spelled like `x`.
fn contains_string(items: &Vec<String>, x: &String) -> (r: bool)
    ensures
        r == items.deep_view().contains(x@),
{
    let n = items.len();
    for i in 0..n
        invariant
            n == items@.len(),
            forall|j: int| 0 <= j < i ==> items.deep_view()[j] != x@,
    {
        if items[i].eq(x) {
            assert(items.deep_view()[i as int] == x@);
            return true;
        }
    }
    false
}

/// `r` answers `m`: source and destination swapped, correlated by the
/// request's `msg_id`, carrying exactly `payload`.
pub open spec fn is_reply_to<T, O>(r: Message<O>, m: Message<T>, payload: O) -> bool {
    &&& r.meta.src@ == m.meta.dest@
    &&& r.meta.dest@ == m.meta.src@
    &&& r.body.common.msg_id is None
    &&& r.body.common.in_reply_to == m.body.common.msg_id
    &&& r.body.custom == payload
}

/// `m` is a gossip of `v` from `src` to `dest`, carrying the recipient hint
/// `recips`.
pub open spec fn is_gossip(
    m: Message<Outbound>,
    src: Seq<char>,
    dest: Seq<char>,
    v: i32,
    recips: Seq<Seq<char>>,
) -> bool {
    &&& m.meta.src@ == src
    &&& m.meta.dest@ == dest
    &&& m.body.common.msg_id is None
    &&& m.body.common.in_reply_to is None
    &&& m.body.custom matches Outbound::Request(Broadcast::Gossip { message, recipients })
    &&& message == v
    &&& recipients.deep_view() == recips
}

/// `a` acknowledges the gossip `g` of `v`, naming this node `id`.
pub open spec fn is_ack(a: Message<Outbound>, g: Message<Broadcast>, id: Seq<char>, v: i32) -> bool {
    &&& a.meta.src@ == g.meta.dest@
    &&& a.meta.dest@ == g.meta.src@
    &&& a.body.common.msg_id is None
    &&& a.body.common.in_reply_to == g.body.common.msg_id
    &&& a.body.custom matches Outbound::Request(Broadcast::GossipOk { node_id, message })
    &&& node_id@ == id
    &&& message == v
}

/// `r` answers the read request `m` with exactly the values in `values`,
/// each listed once, in some order.
pub open spec fn is_read_reply(r: Message<Outbound>, m: Message<Broadcast>, values: Set<i32>) -> bool {
    &&& r.meta.src@ == m.meta.dest@
    &&& r.meta.dest@ == m.meta.src@
    &&& r.body.common.msg_id is None
    &&& r.body.common.in_reply_to == m.body.common.msg_id
    &&& r.body.custom matches Outbound::Reply(BroadcastOk::ReadOk { messages })
    &&& messages@.to_set() == values
    &&& messages@.no_duplicates()
}

/// Removing position `j` from a duplicate-free sequence removes exactly its
/// element from the set of elements.
pub proof fn lemma_remove_to_set<A>(s: Seq<A>, j: int)
    requires
        s.no_duplicates(),
        0 <= j < s.len(),
    ensures
        s.remove(j).no_duplicates(),
        s.remove(j).to_set() =~= s.to_set().remove(s[j]),
{
    let r = s.remove(j);
    assert forall|a: int, b: int| 0 <= a < b < r.len() implies r[a] != r[b] by {
        if b < j {
            assert(r[a] == s[a] && r[b] == s[b]);
        } else if a >= j {
            assert(r[a] == s[a + 1] && r[b] == s[b + 1]);
        } else {
            assert(r[a] == s[a] && r[b] == s[b + 1]);
        }
    }
    assert forall|x: A| r.to_set().contains(x) implies s.to_set().remove(s[j]).contains(x) by {
        let k = choose|k: int| 0 <= k < r.len() && r[k] == x;
        if k < j {
            assert(s[k] == x);
        } else {
            assert(s[k + 1] == x);
        }
    }
    assert forall|x: A| s.to_set().remove(s[j]).contains(x) implies r.to_set().contains(x) by {
        let k = choose|k: int| 0 <= k < s.len() && s[k] == x;
        if k < j {
            assert(r[k] == x);
        } else {
            assert(k != j);
            assert(r[k - 1] == x);
        }
    }
}

/// Remove the string spelled like `x` from `nodes`, when it is listed.
fn remove_string(nodes: &mut Vec<String>, x: &String)
    requires
        old(nodes).deep_view().no_duplicates(),
    ensures
        final(nodes).deep_view().no_duplicates(),
        final(nodes).deep_view().to_set() == old(nodes).deep_view().to_set().remove(x@),
{
    let ghost ds = nodes.deep_view();
    let n = nodes.len();
    for i in 0..n
        invariant
            n == nodes@.len(),
            ds == nodes.deep_view(),
            ds == old(nodes).deep_view(),
            ds.no_duplicates(),
            forall|j: int| 0 <= j < i ==> ds[j] != x@,
    {
        if nodes[i].eq(x) {
            assert(ds[i as int] == x@);
            nodes.remove(i);
            proof {
                assert(nodes.deep_view() =~= ds.remove(i as int));
                lemma_remove_to_set(ds, i as int);
            }
            return;
        }
    }
    proof {
        assert(!ds.to_set().contains(x@));
        assert(nodes.deep_view().to_set() =~= ds.to_set().remove(x@));
    }
}

/// The position of the pending entry for `v`, when there is one.
fn find_status(statuses: &Vec<Status>, v: i32) -> (r: Option<usize>)
    ensures
        match r {
            Some(i) => i < statuses@.len() && statuses@[i as int].value == v,
            None => forall|i: int| 0 <= i < statuses@.len()
                ==> (#[trigger] statuses@[i]).value != v,
        },
{
    let n = statuses.len();
    for i in 0..n
        invariant
            n == statuses@.len(),
            forall|j: int| 0 <= j < i ==> (#[trigger] statuses@[j]).value != v,
    {
        if statuses[i].value == v {
            return Some(i);
        }
    }
    None
}

/// The neighbor list `topology` assigns to `node`, as a fresh list.
fn topo_find(topology: &Vec<TopologyEntry>, node: &String) -> (r: Vec<String>)
    ensures
        r.deep_view() == topo_lookup(topo_view(topology@), node@),
{
    let ghost tv = topo_view(topology@);
    let n = topology.len();
    proof {
        assert(tv.skip(0) =~= tv);
    }
    for i in 0..n
        invariant
            n == topology@.len(),
            tv == topo_view(topology@),
            tv.len() == n,
            topo_lookup(tv, node@) == topo_lookup(tv.skip(i as int), node@),
    {
        proof {
            assert(tv.skip(i as int).first() == tv[i as int]);
            assert(tv.skip(i as int).drop_first() =~= tv.skip(i + 1));
        }
        if topology[i].node.eq(node) {
            let r = clone_strings(&topology[i].neighbors);
            proof {
                assert(tv[i as int].0 == node@);
                assert(r.deep_view() =~= topology@[i as int].neighbors.deep_view());
            }
            return r;
        }
        proof {
            assert(tv[i as int].0 == topology@[i as int].node@);
        }
    }
    proof {
        assert(tv.skip(n as int) =~= Seq::<(Seq<char>, Seq<Seq<char>>)>::empty());
    }
    Vec::new()
}

impl BroadcastNode {
    /// The init handshake: adopt the identifier the cluster assigned to this
    /// node and answer it.
    pub fn handle_init(&mut self, message: &Message<Init>) -> (out: Message<Outbound>)
        requires
            old(self).wf(),
        ensures
            final(self).wf(),
            final(self).initialized(),
            final(self)@ == step_init(old(self)@, message.body.custom.node_id@),
            is_reply_to(out, *message, Outbound::InitOk(InitOk::InitOk)),
    {
        self.node_id = Some(message.body.custom.node_id.clone());
        proof {
            assert(self@ =~= step_init(old(self)@, message.body.custom.node_id@));
        }
        message.reply(Outbound::InitOk(InitOk::InitOk))
    }

    /// The payload answering a read: every value this node has learned.
    pub fn read_ok(&self) -> (r: BroadcastOk)
        ensures
            r matches BroadcastOk::ReadOk { messages } && messages@ == self.messages@,
    {
        BroadcastOk::ReadOk { messages: clone_values(&self.messages) }
    }

    /// A read request: answer with every learned value; nothing moves.
    pub fn on_read(&self, message: &Message<Broadcast>) -> (out: Vec<Message<Outbound>>)
        requires
            self.wf(),
        ensures
            out@.len() == 1,
            is_read_reply(out@[0], *message, self@.values),
    {
        let reply = message.reply(Outbound::Reply(self.read_ok()));
        let mut out: Vec<Message<Outbound>> = Vec::new();
        out.push(reply);
        out
    }

    /// A topology message: install this node's assigned neighbor list,
    /// replacing the old one, and answer.
    pub fn on_topology(&mut self, message: &Message<Broadcast>, topology: &Vec<TopologyEntry>)
        -> (out: Vec<Message<Outbound>>)
        requires
            old(self).wf(),
            old(self).initialized(),
        ensures
            final(self).wf(),
            final(self).initialized(),
            final(self)@ == step_topology(old(self)@, topo_view(topology@)),
            out@.len() == 1,
            is_reply_to(out@[0], *message, Outbound::Reply(BroadcastOk::TopologyOk)),
    {
        let nbrs = topo_find(topology, self.node_id_str());
        self.neighbors = nbrs;
        proof {
            assert(self@ =~= step_topology(old(self)@, topo_view(topology@)));
        }
        let reply = message.reply(Outbound::Reply(BroadcastOk::TopologyOk));
        let mut out: Vec<Message<Outbound>> = Vec::new();
        out.push(reply);
        out
    }

    /// An acknowledgment: `from` leaves the pending set of `v`. Unknown
    /// values and absent neighbors are absorbed without any change.
    pub fn on_gossip_ok(&mut self, from: &String, v: i32)
        requires
            old(self).wf(),
        ensures
            final(self).wf(),
            final(self).initialized() == old(self).initialized(),
            final(self)@ == step_gossip_ok(old(self)@, from@, v),
    {
        proof {
            lemma_status_map(self.statuses@);
        }
        match find_status(&self.statuses, v) {
            Some(i) => {
                let ghost pre = self.statuses@;
                let mut entry = self.statuses.remove(i);
                remove_string(&mut entry.nodes, from);
                let ghost e = entry;
                self.statuses.insert(i, entry);
                proof {
                    assert(self.statuses@ =~= pre.update(i as int, e));
                    lemma_status_map_update(pre, i as int, e);
                    assert(status_set(e) == status_set(pre[i as int]).remove(from@));
                    assert(status_map(pre)[pre[i as int].value] == status_set(pre[i as int]))
                        by {
                        lemma_status_map(pre);
                    }
                    assert(self@ =~= step_gossip_ok(old(self)@, from@, v));
                }
            },
            None => {
                proof {
                    assert(!status_map(self.statuses@).dom().contains(v));
                    assert(self@ =~= step_gossip_ok(old(self)@, from@, v));
                }
            },
        }
    }

    /// A gossip of `msg` from this node to `neighbor`, telling it that the
    /// nodes in `recipients` already have the value.
    pub fn make_gossip_to(&self, recipients: &Vec<String>, neighbor: &String, msg: i32)
        -> (r: Message<Outbound>)
        requires
            self.initialized(),
        ensures
            is_gossip(r, self@.node_id->0, neighbor@, msg, recipients.deep_view()),
    {
        Message {
            meta: Meta { src: self.node_id_str().clone(), dest: neighbor.clone() },
            body: Body::new(Outbound::Request(Broadcast::Gossip {
                message: msg,
                recipients: clone_strings(recipients),
            })),
        }
    }

    /// A resend gossip: the recipient hint is this node's own neighbor list.
    pub fn make_gossip(&self, neighbor: &String, msg: i32) -> (r: Message<Outbound>)
        requires
            self.initialized(),
        ensures
            is_gossip(r, self@.node_id->0, neighbor@, msg, self@.neighbors),
    {
        self.make_gossip_to(&self.neighbors, neighbor, msg)
    }
}

/// The view of an optional sender reference.
pub open spec fn opt_view(o: Option<&String>) -> Option<Seq<char>> {
    match o {
        Option::Some(s) => Option::Some(s@),
        Option::None => Option::None,
    }
}

/// The identifiers a seeding pass must skip: the hinted recipients, and the
/// sender when there is one.
pub open spec fn excl_set(excluded: Seq<Seq<char>>, from: Option<Seq<char>>) -> Set<Seq<char>> {
    match from {
        Option::Some(f) => excluded.to_set().insert(f),
        Option::None => excluded.to_set(),
    }
}

/// The neighbors a fresh pending entry is seeded with: those in `neighbors`,
/// in order of first occurrence, that are not hinted in `excluded` and are
/// not the sender.
fn seed_nodes(neighbors: &Vec<String>, excluded: &Vec<String>, from: Option<&String>)
    -> (r: Vec<String>)
    ensures
        r.deep_view() == seed_order(
            neighbors.deep_view(),
            excl_set(excluded.deep_view(), opt_view(from)),
        ),
{
    let ghost nd = neighbors.deep_view();
    let ghost ex = excl_set(excluded.deep_view(), opt_view(from));
    let mut r: Vec<String> = Vec::new();
    let n = neighbors.len();
    proof {
        assert(r.deep_view() =~= seed_order(nd.take(0), ex));
    }
    for i in 0..n
        invariant
            n == neighbors@.len(),
            nd == neighbors.deep_view(),
            ex == excl_set(excluded.deep_view(), opt_view(from)),
            r.deep_view() == seed_order(nd.take(i as int), ex),
    {
        let nbr = &neighbors[i];
        let mut skip = contains_string(excluded, nbr);
        if !skip {
            if let Some(f) = from {
                if nbr.eq(f) {
                    skip = true;
                }
            }
        }
        proof {
            assert(nd[i as int] == nbr@);
            assert(skip == ex.contains(nd[i as int]));
        }
        if !skip && !contains_string(&r, nbr) {
            r.push(nbr.clone());
        }
        proof {
            assert(nd.take(i + 1).drop_last() =~= nd.take(i as int));
            assert(nd.take(i + 1).last() == nd[i as int]);
            assert(r.deep_view() =~= seed_order(nd.take(i + 1), ex));
        }
    }
    proof {
        assert(nd.take(n as int) =~= nd);
    }
    r
}

/// Append a copy of every string of `other` to `v`, in order.
fn append_strings(v: &mut Vec<String>, other: &Vec<String>)
    ensures
        final(v)@ == old(v)@ + other@,
{
    let ghost base = v@;
    let n = other.len();
    proof {
        assert(v@ =~= base + other@.take(0));
    }
    for i in 0..n
        invariant
            n == other@.len(),
            v@ == base + other@.take(i as int),
    {
        v.push(other[i].clone());
        proof {
            assert(v@ =~= base + other@.take(i + 1));
        }
    }
    proof {
        assert(other@.take(n as int) =~= other@);
    }
}

/// What a local broadcast request emits: when `v` is new, one gossip with an
/// empty recipient hint to each neighbor in list order; always, a
/// `BroadcastOk` answer to the requester, last.
pub open spec fn broadcast_out(
    s: EngineModel,
    m: Message<Broadcast>,
    v: i32,
    out: Seq<Message<Outbound>>,
) -> bool {
    if s.values.contains(v) {
        &&& out.len() == 1
        &&& is_reply_to(out[0], m, Outbound::Reply(BroadcastOk::BroadcastOk))
    } else {
        &&& out.len() == s.neighbors.len() + 1
        &&& forall|i: int| 0 <= i < s.neighbors.len()
            ==> is_gossip(#[trigger] out[i], s.node_id->0, s.neighbors[i], v, Seq::empty())
        &&& is_reply_to(out[s.neighbors.len() as int], m, Outbound::Reply(BroadcastOk::BroadcastOk))
    }
}

/// What a received gossip emits: when `v` is new, one forwarded gossip to
/// each neighbor not already covered by the hint or the sender, carrying the
/// widened hint; always, an acknowledgment to the sender, last.
pub open spec fn gossip_out(
    s: EngineModel,
    m: Message<Broadcast>,
    v: i32,
    recips: Seq<Seq<char>>,
    out: Seq<Message<Outbound>>,
) -> bool {
    let id = s.node_id->0;
    if s.values.contains(v) {
        &&& out.len() == 1
        &&& is_ack(out[0], m, id, v)
    } else {
        let targets = seed_order(s.neighbors, recips.to_set().insert(m.meta.src@));
        let fwd = recips + s.neighbors + seq![m.meta.src@];
        &&& out.len() == targets.len() + 1
        &&& forall|i: int| 0 <= i < targets.len()
            ==> is_gossip(#[trigger] out[i], id, targets[i], v, fwd)
        &&& is_ack(out[targets.len() as int], m, id, v)
    }
}

/// `m` resends some still-pending value of `s` to a neighbor still pending
/// for it, hinting the current neighbor list.
pub open spec fn resend_in(s: EngineModel, m: Message<Outbound>) -> bool {
    exists|v: i32, n: Seq<char>|
        s.pending.dom().contains(v) && #[trigger] s.pending[v].contains(n)
            && is_gossip(m, s.node_id->0, n, v, s.neighbors)
}

/// Some message of `out` resends `v` to `n`, hinting the current neighbor
/// list of `s`.
pub open spec fn resent_to(
    s: EngineModel,
    out: Seq<Message<Outbound>>,
    v: i32,
    n: Seq<char>,
) -> bool {
    exists|k: int| 0 <= k < out.len()
        && is_gossip(#[trigger] out[k], s.node_id->0, n, v, s.neighbors)
}

/// A resend already emitted stays emitted as more are appended.
pub proof fn lemma_resent_to_push(
    s: EngineModel,
    out: Seq<Message<Outbound>>,
    g: Message<Outbound>,
    v: i32,
    n: Seq<char>,
)
    requires
        resent_to(s, out, v, n),
    ensures
        resent_to(s, out.push(g), v, n),
{
    let k = choose|k: int| 0 <= k < out.len()
        && is_gossip(#[trigger] out[k], s.node_id->0, n, v, s.neighbors);
    assert(out.push(g)[k] == out[k]);
}

/// What a retry tick emits: a resend gossip, hinting the current neighbor
/// list, to exactly the neighbors still pending for some value.
pub open spec fn tick_out(s: EngineModel, out: Seq<Message<Outbound>>) -> bool {
    &&& forall|k: int| 0 <= k < out.len() ==> resend_in(s, #[trigger] out[k])
    &&& forall|v: i32, n: Seq<char>|
        s.pending.dom().contains(v) && #[trigger] s.pending[v].contains(n)
            ==> resent_to(s, out, v, n)
}

impl BroadcastNode {
    /// A locally injected request to disseminate `v`: when `v` is new, learn
    /// it, seed its pending entry with all current neighbors, and gossip it
    /// to every neighbor at once; always answer `BroadcastOk`.
    pub fn on_broadcast(&mut self, message: &Message<Broadcast>, v: i32)
        -> (out: Vec<Message<Outbound>>)
        requires
            old(self).wf(),
            old(self).initialized(),
        ensures
            final(self).wf(),
            final(self).initialized(),
            final(self)@ == step_broadcast(old(self)@, v),
            broadcast_out(old(self)@, *message, v, out@),
    {
        let mut out: Vec<Message<Outbound>> = Vec::new();
        if !contains_value(&self.messages, v) {
            self.messages.push(v);
            proof {
                assert(self.messages@.drop_last() =~= old(self).messages@);
                assert(self.messages@ =~= old(self).messages@ + seq![v]);
                Seq::<i32>::lemma_to_set_insert_commutes(old(self).messages@, v);
            }
            let empty: Vec<String> = Vec::new();
            proof {
                assert(empty.deep_view() =~= Seq::<Seq<char>>::empty());
            }
            let n = self.neighbors.len();
            for i in 0..n
                invariant
                    n == self.neighbors@.len(),
                    self.node_id == old(self).node_id,
                    old(self).initialized(),
                    self.neighbors == old(self).neighbors,
                    self.statuses == old(self).statuses,
                    empty.deep_view() == Seq::<Seq<char>>::empty(),
                    out@.len() == i,
                    forall|j: int| 0 <= j < i
                        ==> is_gossip(
                            #[trigger] out@[j],
                            old(self)@.node_id->0,
                            old(self)@.neighbors[j],
                            v,
                            Seq::empty(),
                        ),
            {
                let g = self.make_gossip_to(&empty, &self.neighbors[i], v);
                out.push(g);
            }
            let targets = seed_nodes(&self.neighbors, &empty, None);
            proof {
                assert(excl_set(empty.deep_view(), opt_view(None)) =~= Set::<Seq<char>>::empty());
                lemma_seed_order(self.neighbors.deep_view(), Set::empty());
                assert(targets.deep_view().to_set()
                    =~= self.neighbors.deep_view().to_set().difference(Set::empty()));
                assert(targets.deep_view().to_set() =~= self.neighbors.deep_view().to_set());
            }
            let ghost pre_statuses = self.statuses@;
            self.statuses.push(Status { value: v, nodes: targets });
            proof {
                lemma_status_map_push(pre_statuses, Status { value: v, nodes: targets });
                assert forall|a: int| 0 <= a < self.statuses@.len()
                    implies self.messages@.contains((#[trigger] self.statuses@[a]).value) by {
                    if a < pre_statuses.len() {
                        assert(old(self).messages@.contains(pre_statuses[a].value));
                        let k = choose|k: int| 0 <= k < old(self).messages@.len()
                            && old(self).messages@[k] == pre_statuses[a].value;
                        assert(self.messages@[k] == pre_statuses[a].value);
                    } else {
                        assert(self.messages@.last() == v);
                    }
                }
                assert forall|a: int, b: int| 0 <= a < b < self.statuses@.len()
                    implies self.statuses@[a].value != self.statuses@[b].value by {
                    if b == self.statuses@.len() - 1 {
                        assert(old(self).messages@.contains(pre_statuses[a].value));
                    }
                }
                assert(final(self)@ =~= step_broadcast(old(self)@, v));
            }
        } else {
            proof {
                assert(final(self)@ == step_broadcast(old(self)@, v));
            }
        }
        out.push(message.reply(Outbound::Reply(BroadcastOk::BroadcastOk)));
        out
    }

    /// A gossip of `v` from a neighbor: when `v` is new, learn it, seed its
    /// pending entry with the neighbors not covered by the hint or the
    /// sender, and forward the gossip to exactly those neighbors with the
    /// widened hint; always acknowledge the sender.
    pub fn on_gossip(&mut self, message: &Message<Broadcast>, v: i32, recipients: &Vec<String>)
        -> (out: Vec<Message<Outbound>>)
        requires
            old(self).wf(),
            old(self).initialized(),
        ensures
            final(self).wf(),
            final(self).initialized(),
            final(self)@ == step_gossip(
                old(self)@,
                v,
                recipients.deep_view().to_set(),
                message.meta.src@,
            ),
            gossip_out(old(self)@, *message, v, recipients.deep_view(), out@),
    {
        let mut out: Vec<Message<Outbound>> = Vec::new();
        if !contains_value(&self.messages, v) {
            self.messages.push(v);
            proof {
                assert(self.messages@ =~= old(self).messages@ + seq![v]);
                Seq::<i32>::lemma_to_set_insert_commutes(old(self).messages@, v);
            }
            let targets = seed_nodes(&self.neighbors, recipients, Some(&message.meta.src));
            let ghost excl = recipients.deep_view().to_set().insert(message.meta.src@);
            proof {
                assert(excl_set(recipients.deep_view(), opt_view(Some(&message.meta.src)))
                    == excl);
                lemma_seed_order(self.neighbors.deep_view(), excl);
            }
            let mut fwd = clone_strings(recipients);
            append_strings(&mut fwd, &self.neighbors);
            fwd.push(message.meta.src.clone());
            proof {
                assert(fwd.deep_view() =~= recipients.deep_view()
                    + self.neighbors.deep_view() + seq![message.meta.src@]);
            }
            let tn = targets.len();
            for i in 0..tn
                invariant
                    tn == targets@.len(),
                    self.node_id == old(self).node_id,
                    old(self).initialized(),
                    self.neighbors == old(self).neighbors,
                    self.statuses == old(self).statuses,
                    targets.deep_view() == seed_order(
                        old(self)@.neighbors,
                        recipients.deep_view().to_set().insert(message.meta.src@),
                    ),
                    fwd.deep_view() == recipients.deep_view() + old(self)@.neighbors
                        + seq![message.meta.src@],
                    out@.len() == i,
                    forall|j: int| 0 <= j < i
                        ==> is_gossip(
                            #[trigger] out@[j],
                            old(self)@.node_id->0,
                            targets.deep_view()[j],
                            v,
                            fwd.deep_view(),
                        ),
            {
                let g = self.make_gossip_to(&fwd, &targets[i], v);
                out.push(g);
            }
            let ghost pre_statuses = self.statuses@;
            self.statuses.push(Status { value: v, nodes: targets });
            proof {
                lemma_status_map_push(pre_statuses, Status { value: v, nodes: targets });
                assert forall|a: int| 0 <= a < self.statuses@.len()
                    implies self.messages@.contains((#[trigger] self.statuses@[a]).value) by {
                    if a < pre_statuses.len() {
                        assert(old(self).messages@.contains(pre_statuses[a].value));
                        let k = choose|k: int| 0 <= k < old(self).messages@.len()
                            && old(self).messages@[k] == pre_statuses[a].value;
                        assert(self.messages@[k] == pre_statuses[a].value);
                    } else {
                        assert(self.messages@.last() == v);
                    }
                }
                assert forall|a: int, b: int| 0 <= a < b < self.statuses@.len()
                    implies self.statuses@[a].value != self.statuses@[b].value by {
                    if b == self.statuses@.len() - 1 {
                        assert(old(self).messages@.contains(pre_statuses[a].value));
                    }
                }
                assert(final(self)@ =~= step_gossip(
                    old(self)@,
                    v,
                    recipients.deep_view().to_set(),
                    message.meta.src@,
                ));
            }
        } else {
            proof {
                assert(final(self)@ == step_gossip(
                    old(self)@,
                    v,
                    recipients.deep_view().to_set(),
                    message.meta.src@,
                ));
            }
        }
        let ack = message.reply(Outbound::Request(Broadcast::GossipOk {
            node_id: self.node_id_str().clone(),
            message: v,
        }));
        out.push(ack);
        out
    }

    /// A retry tick: resend a gossip, hinting the current neighbor list, to
    /// every neighbor still pending for some value. Nothing moves; this is
    /// what achieves delivery despite lost gossips or lost acknowledgments.
    pub fn on_tick(&self) -> (out: Vec<Message<Outbound>>)
        requires
            self.wf(),
            self.initialized(),
        ensures
            tick_out(self@, out@),
    {
        proof {
            lemma_status_map(self.statuses@);
        }
        let mut out: Vec<Message<Outbound>> = Vec::new();
        let m = self.statuses.len();
        for a in 0..m
            invariant
                m == self.statuses@.len(),
                self.wf(),
                self.initialized(),
                forall|k: int| 0 <= k < out@.len() ==> resend_in(self@, #[trigger] out@[k]),
                forall|b: int, c: int|
                    #![trigger self.statuses@[b].nodes.deep_view()[c]]
                    0 <= b < a && 0 <= c < self.statuses@[b].nodes.deep_view().len()
                    ==> resent_to(self@, out@, self.statuses@[b].value,
                        self.statuses@[b].nodes.deep_view()[c]),
        {
            let en = self.statuses[a].nodes.len();
            for c in 0..en
                invariant
                    m == self.statuses@.len(),
                    a < m,
                    en == self.statuses@[a as int].nodes@.len(),
                    self.wf(),
                    self.initialized(),
                    forall|k: int| 0 <= k < out@.len() ==> resend_in(self@, #[trigger] out@[k]),
                    forall|b: int, cc: int|
                        #![trigger self.statuses@[b].nodes.deep_view()[cc]]
                        0 <= b < a && 0 <= cc < self.statuses@[b].nodes.deep_view().len()
                        ==> resent_to(self@, out@, self.statuses@[b].value,
                            self.statuses@[b].nodes.deep_view()[cc]),
                    forall|cc: int|
                        #![trigger self.statuses@[a as int].nodes.deep_view()[cc]]
                        0 <= cc < c
                        ==> resent_to(self@, out@, self.statuses@[a as int].value,
                            self.statuses@[a as int].nodes.deep_view()[cc]),
            {
                let ghost pre_out = out@;
                let g = self.make_gossip(&self.statuses[a].nodes[c], self.statuses[a].value);
                out.push(g);
                proof {
                    lemma_status_map(self.statuses@);
                    let vv = self.statuses@[a as int].value;
                    let ds = self.statuses@[a as int].nodes.deep_view();
                    let nn = ds[c as int];
                    assert(self@.pending.dom().contains(vv));
                    assert(self@.pending[vv] == status_set(self.statuses@[a as int]));
                    assert(self@.pending[vv].contains(nn));
                    assert(is_gossip(g, self@.node_id->0, nn, vv, self@.neighbors));
                    assert(resend_in(self@, g));
                    assert(out@ == pre_out.push(g));
                    assert forall|k: int| 0 <= k < out@.len()
                        implies resend_in(self@, #[trigger] out@[k]) by {
                        if k < pre_out.len() {
                            assert(out@[k] == pre_out[k]);
                        } else {
                            assert(out@[k] == g);
                        }
                    }
                    assert forall|b: int, cc: int|
                        #![trigger self.statuses@[b].nodes.deep_view()[cc]]
                        0 <= b < a && 0 <= cc < self.statuses@[b].nodes.deep_view().len()
                        implies resent_to(self@, out@, self.statuses@[b].value,
                            self.statuses@[b].nodes.deep_view()[cc]) by {
                        lemma_resent_to_push(self@, pre_out, g, self.statuses@[b].value,
                            self.statuses@[b].nodes.deep_view()[cc]);
                    }
                    assert forall|cc: int| 0 <= cc < c + 1
                        implies resent_to(self@, out@, vv, #[trigger] ds[cc]) by {
                        if cc < c {
                            lemma_resent_to_push(self@, pre_out, g, vv, ds[cc]);
                        } else {
                            assert(out@[out@.len() - 1] == g);
                        }
                    }
                }
            }
        }
        proof {
            assert forall|v: i32, n: Seq<char>|
                self@.pending.dom().contains(v) && #[trigger] self@.pending[v].contains(n)
                implies resent_to(self@, out@, v, n) by {
                let b = choose|b: int| 0 <= b < self.statuses@.len()
                    && (#[trigger] self.statuses@[b]).value == v;
                assert(self@.pending[v] == status_set(self.statuses@[b]));
                let ds = self.statuses@[b].nodes.deep_view();
                assert(ds.to_set().contains(n));
                let cc = choose|cc: int| 0 <= cc < ds.len() && ds[cc] == n;
                assert(ds[cc] == n);
            }
        }
        out
    }
}

/// The transition one request payload makes on the engine's state, where
/// `src` is the envelope's source.
pub open spec fn event_step(s: EngineModel, b: Broadcast, src: Seq<char>) -> EngineModel {
    match b {
        Broadcast::Broadcast { message } => step_broadcast(s, message),
        Broadcast::Gossip { message, recipients } => step_gossip(
            s,
            message,
            recipients.deep_view().to_set(),
            src,
        ),
        Broadcast::GossipOk { node_id, message } => step_gossip_ok(s, node_id@, message),
        Broadcast::Read => s,
        Broadcast::Topology { topology } => step_topology(s, topo_view(topology@)),
    }
}

/// What the engine emits for one request envelope.
pub open spec fn handle_out(s: EngineModel, m: Message<Broadcast>, out: Seq<Message<Outbound>>)
    -> bool {
    match m.body.custom {
        Broadcast::Broadcast { message } => broadcast_out(s, m, message, out),
        Broadcast::Gossip { message, recipients } => gossip_out(
            s,
            m,
            message,
            recipients.deep_view(),
            out,
        ),
        Broadcast::GossipOk { node_id, message } => out.len() == 0,
        Broadcast::Read => out.len() == 1 && is_read_reply(out[0], m, s.values),
        Broadcast::Topology { topology } => out.len() == 1
            && is_reply_to(out[0], m, Outbound::Reply(BroadcastOk::TopologyOk)),
    }
}

impl BroadcastNode {
    /// Dispatch one request envelope to the operation its payload selects.
    pub fn handle(&mut self, message: &Message<Broadcast>) -> (out: Vec<Message<Outbound>>)
        requires
            old(self).wf(),
            old(self).initialized(),
        ensures
            final(self).wf(),
            final(self).initialized(),
            final(self)@ == event_step(old(self)@, message.body.custom, message.meta.src@),
            handle_out(old(self)@, *message, out@),
    {
        match &message.body.custom {
            Broadcast::Broadcast { message: v } => self.on_broadcast(message, *v),
            Broadcast::Gossip { message: v, recipients } => self.on_gossip(
                message,
                *v,
                recipients,
            ),
            Broadcast::GossipOk { node_id, message: v } => {
                self.on_gossip_ok(node_id, *v);
                Vec::new()
            },
            Broadcast::Read => self.on_read(message),
            Broadcast::Topology { topology } => self.on_topology(message, topology),
        }
    }
}

/// A copy of a value list, element for element.
fn clone_values(v: &Vec<i32>) -> (r: Vec<i32>)
    ensures
        r@ == v@,
{
    let mut r: Vec<i32> = Vec::new();
    let n = v.len();
    for i in 0..n
        invariant
            n == v@.len(),
            r@ == v@.take(i as int),
    {
        r.push(v[i]);
        proof {
            assert(r@ =~= v@.take(i + 1));
        }
    }
    proof {
        assert(v@.take(n as int) =~= v@);
    }
    r
}

} // verus!
