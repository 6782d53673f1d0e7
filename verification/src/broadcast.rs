//! The gossip broadcast engine: deduplicating value state, a replaceable
//! neighbor topology, the flood-and-acknowledge dissemination step, and the
//! retry buffer that repairs lost gossip messages.
//!
//! The node keeps every broadcast value it has ever seen, floods a value it
//! has not seen before to its neighbors (except the sender of the message and
//! its own receiving identity), acknowledges every delivery, answers reads
//! with a snapshot of the values, and replaces its neighbor list whenever a
//! topology assignment arrives.  Every gossip message sent to a neighbor is
//! remembered in a buffer of outstanding entries until the matching
//! acknowledgement arrives; [`BroadcastNode::retry_tick`] re-sends everything
//! still outstanding under fresh message identifiers.
//!
//! Every transition is pinned to a specification-level model:
//! [`broadcast_step`] maps a [`BroadcastModel`] and one inbound message to the
//! next model and the emitted messages, and the executable handlers are proved
//! to follow it exactly.

use vstd::prelude::*;
use std::collections::HashSet;
use crate::message::{models_of, Message, MessageError, MessageModel, Payload, PayloadModel};
use crate::node::StateMachine;

verus! {

broadcast use vstd::std_specs::hash::group_hash_axioms;

/// The application payloads of the broadcast node.
pub enum Data {
    Broadcast { msg_id: usize, message: usize },
    BroadcastOk { msg_id: usize, in_reply_to: usize },
    Read { msg_id: usize },
    ReadOk { msg_id: usize, in_reply_to: usize, messages: Vec<usize> },
    Topology { msg_id: usize, topology: Vec<(String, Vec<String>)> },
    TopologyOk { msg_id: usize, in_reply_to: usize },
}

/// Specification-level model of [`Data`].
pub enum DataModel {
    Broadcast { msg_id: int, message: usize },
    BroadcastOk { msg_id: int, in_reply_to: int },
    Read { msg_id: int },
    ReadOk { msg_id: int, in_reply_to: int, messages: Seq<usize> },
    Topology { msg_id: int, topology: Seq<(Seq<char>, Seq<Seq<char>>)> },
    TopologyOk { msg_id: int, in_reply_to: int },
}

/// The model of a topology assignment: each pair maps a node identifier to
/// the neighbor list assigned to that node.
pub open spec fn topology_models(t: Seq<(String, Vec<String>)>) -> Seq<
    (Seq<char>, Seq<Seq<char>>),
> {
    t.map_values(|p: (String, Vec<String>)| (p.0@, p.1.deep_view()))
}

impl View for Data {
    type V = DataModel;

    open spec fn view(&self) -> DataModel {
        match self {
            Data::Broadcast { msg_id, message } => DataModel::Broadcast {
                msg_id: *msg_id as int,
                message: *message,
            },
            Data::BroadcastOk { msg_id, in_reply_to } => DataModel::BroadcastOk {
                msg_id: *msg_id as int,
                in_reply_to: *in_reply_to as int,
            },
            Data::Read { msg_id } => DataModel::Read { msg_id: *msg_id as int },
            Data::ReadOk { msg_id, in_reply_to, messages } => DataModel::ReadOk {
                msg_id: *msg_id as int,
                in_reply_to: *in_reply_to as int,
                messages: messages@,
            },
            Data::Topology { msg_id, topology } => DataModel::Topology {
                msg_id: *msg_id as int,
                topology: topology_models(topology@),
            },
            Data::TopologyOk { msg_id, in_reply_to } => DataModel::TopologyOk {
                msg_id: *msg_id as int,
                in_reply_to: *in_reply_to as int,
            },
        }
    }
}

/// One gossip message sent to one neighbor and not yet acknowledged.
pub struct GossipEntry {
    /// The neighbor the gossip message was addressed to.
    pub dest: String,
    /// The broadcast value the message carried.
    pub value: usize,
    /// The message identifier the acknowledgement must correlate to.
    pub msg_id: usize,
}

/// Specification-level model of a [`GossipEntry`].
pub struct GossipEntryModel {
    pub dest: Seq<char>,
    pub value: usize,
    pub msg_id: int,
}

impl View for GossipEntry {
    type V = GossipEntryModel;

    open spec fn view(&self) -> GossipEntryModel {
        GossipEntryModel { dest: self.dest@, value: self.value, msg_id: self.msg_id as int }
    }
}

/// The models of a sequence of outstanding entries, element by element.
pub open spec fn entry_models(s: Seq<GossipEntry>) -> Seq<GossipEntryModel> {
    s.map_values(|e: GossipEntry| e@)
}

/// Specification-level model of a [`BroadcastNode`].
pub struct BroadcastModel {
    /// The identifier of the node.
    pub id: Seq<char>,
    /// The last message identifier this node drew.
    pub counter: int,
    /// Every broadcast value seen so far.
    pub seen: Set<usize>,
    /// The seen values in first-arrival order; same contents as `seen`.
    pub log: Seq<usize>,
    /// The neighbors this node floods to.
    pub neighbors: Seq<Seq<char>>,
    /// The outstanding gossip entries, in the order they were recorded.
    pub pending: Seq<GossipEntryModel>,
}

/// Well-formedness of the model: the log holds each seen value exactly once,
/// and outstanding entries carry distinct identifiers no fresher than the
/// counter.
pub open spec fn wf_model(m: BroadcastModel) -> bool {
    &&& 0 <= m.counter
    &&& m.log.no_duplicates()
    &&& m.log.to_set() == m.seen
    &&& forall|i: int, j: int|
        0 <= i < j < m.pending.len() ==> m.pending[i].msg_id != m.pending[j].msg_id
    &&& forall|i: int| 0 <= i < m.pending.len() ==> 1 <= #[trigger] m.pending[i].msg_id <= m.counter
}

/// The neighbors a gossip received from `src` and addressed to `dest` is
/// flooded to: every neighbor except those two, in neighbor-list order.
pub open spec fn flood_targets(nbrs: Seq<Seq<char>>, src: Seq<char>, dest: Seq<char>) -> Seq<
    Seq<char>,
>
    decreases nbrs.len(),
{
    if nbrs.len() == 0 {
        Seq::empty()
    } else {
        let rest = flood_targets(nbrs.drop_last(), src, dest);
        if nbrs.last() != src && nbrs.last() != dest {
            rest.push(nbrs.last())
        } else {
            rest
        }
    }
}

/// The gossip messages flooded to `targets`, drawing identifiers
/// `counter + 1`, `counter + 2`, ... in target order.
pub open spec fn fan_out_messages(
    id: Seq<char>,
    counter: int,
    targets: Seq<Seq<char>>,
    value: usize,
) -> Seq<MessageModel<DataModel>> {
    Seq::new(
        targets.len(),
        |k: int|
            MessageModel {
                src: id,
                dest: targets[k],
                body: PayloadModel::Custom(
                    DataModel::Broadcast { msg_id: counter + k + 1, message: value },
                ),
            },
    )
}

/// The outstanding entries recorded for the same fan-out.
pub open spec fn fan_out_entries(counter: int, targets: Seq<Seq<char>>, value: usize) -> Seq<
    GossipEntryModel,
> {
    Seq::new(
        targets.len(),
        |k: int|
            GossipEntryModel { dest: targets[k], value: value, msg_id: counter + k + 1 },
    )
}

/// The transition on `broadcast{message}` from `src` addressed to `dest`:
/// flood an unseen value to every eligible neighbor and record an outstanding
/// entry per flood, then add the value and acknowledge the delivery
/// unconditionally.
pub open spec fn gossip_model(
    m: BroadcastModel,
    src: Seq<char>,
    dest: Seq<char>,
    corr: int,
    value: usize,
) -> (BroadcastModel, Seq<MessageModel<DataModel>>) {
    let fresh = !m.seen.contains(value);
    let targets = if fresh {
        flood_targets(m.neighbors, src, dest)
    } else {
        Seq::empty()
    };
    let floods = fan_out_messages(m.id, m.counter, targets, value);
    let acked = m.counter + targets.len() + 1;
    let ack = MessageModel {
        src: dest,
        dest: src,
        body: PayloadModel::Custom(DataModel::BroadcastOk { msg_id: acked, in_reply_to: corr }),
    };
    (
        BroadcastModel {
            id: m.id,
            counter: acked,
            seen: m.seen.insert(value),
            log: if fresh {
                m.log.push(value)
            } else {
                m.log
            },
            neighbors: m.neighbors,
            pending: m.pending + fan_out_entries(m.counter, targets, value),
        },
        floods.push(ack),
    )
}

/// The outstanding entries left once the entry acknowledged by `corr` is
/// removed; an unknown `corr` removes nothing.
pub open spec fn remove_acked(pending: Seq<GossipEntryModel>, corr: int) -> Seq<GossipEntryModel>
    decreases pending.len(),
{
    if pending.len() == 0 {
        Seq::empty()
    } else {
        let rest = remove_acked(pending.drop_last(), corr);
        if pending.last().msg_id == corr {
            rest
        } else {
            rest.push(pending.last())
        }
    }
}

/// The transition on `broadcast_ok` correlated to `corr`: drop the matching
/// outstanding entry, emit nothing.
pub open spec fn ack_model(m: BroadcastModel, corr: int) -> BroadcastModel {
    BroadcastModel { pending: remove_acked(m.pending, corr), ..m }
}

/// The transition on `read`: draw one identifier and reply with a snapshot of
/// the seen values.
pub open spec fn read_model(m: BroadcastModel, src: Seq<char>, dest: Seq<char>, corr: int) -> (
    BroadcastModel,
    Seq<MessageModel<DataModel>>,
) {
    (
        BroadcastModel { counter: m.counter + 1, ..m },
        seq![
            MessageModel {
                src: dest,
                dest: src,
                body: PayloadModel::Custom(
                    DataModel::ReadOk {
                        msg_id: m.counter + 1,
                        in_reply_to: corr,
                        messages: m.log,
                    },
                ),
            },
        ],
    )
}

/// The neighbor list a topology assigns to `id`: the first entry for `id`,
/// or the empty list if the node is absent from the assignment.
pub open spec fn topo_lookup(topo: Seq<(Seq<char>, Seq<Seq<char>>)>, id: Seq<char>) -> Seq<
    Seq<char>,
>
    decreases topo.len(),
{
    if topo.len() == 0 {
        Seq::empty()
    } else if topo.first().0 == id {
        topo.first().1
    } else {
        topo_lookup(topo.drop_first(), id)
    }
}

/// The transition on `topology`: replace the neighbor list with the one the
/// assignment gives this node, draw one identifier and acknowledge.
pub open spec fn topology_model(
    m: BroadcastModel,
    src: Seq<char>,
    dest: Seq<char>,
    corr: int,
    topo: Seq<(Seq<char>, Seq<Seq<char>>)>,
) -> (BroadcastModel, Seq<MessageModel<DataModel>>) {
    (
        BroadcastModel { counter: m.counter + 1, neighbors: topo_lookup(topo, m.id), ..m },
        seq![
            MessageModel {
                src: dest,
                dest: src,
                body: PayloadModel::Custom(
                    DataModel::TopologyOk { msg_id: m.counter + 1, in_reply_to: corr },
                ),
            },
        ],
    )
}

/// The transition on one inbound message.  Acknowledgements only clear the
/// retry buffer; lifecycle payloads and replies addressed to this node are
/// absorbed without output.
pub open spec fn broadcast_step(m: BroadcastModel, msg: MessageModel<DataModel>) -> (
    BroadcastModel,
    Seq<MessageModel<DataModel>>,
) {
    match msg.body {
        PayloadModel::Custom(d) => match d {
            DataModel::Broadcast { msg_id, message } => gossip_model(
                m,
                msg.src,
                msg.dest,
                msg_id,
                message,
            ),
            DataModel::BroadcastOk { msg_id: _, in_reply_to } => (
                ack_model(m, in_reply_to),
                Seq::empty(),
            ),
            DataModel::Read { msg_id } => read_model(m, msg.src, msg.dest, msg_id),
            DataModel::Topology { msg_id, topology } => topology_model(
                m,
                msg.src,
                msg.dest,
                msg_id,
                topology,
            ),
            _ => (m, Seq::empty()),
        },
        _ => (m, Seq::empty()),
    }
}

/// The transition on a whole batch, first message first.
pub open spec fn broadcast_steps(m: BroadcastModel, batch: Seq<MessageModel<DataModel>>) -> (
    BroadcastModel,
    Seq<MessageModel<DataModel>>,
)
    decreases batch.len(),
{
    if batch.len() == 0 {
        (m, Seq::empty())
    } else {
        let first = broadcast_step(m, batch.first());
        let rest = broadcast_steps(first.0, batch.drop_first());
        (rest.0, first.1 + rest.1)
    }
}

/// Whether the identifiers drawn while applying the batch stay within `usize`.
pub open spec fn broadcast_steps_fit(m: BroadcastModel, batch: Seq<MessageModel<DataModel>>) -> bool
    decreases batch.len(),
{
    batch.len() == 0 || {
        &&& broadcast_step(m, batch.first()).0.counter <= usize::MAX
        &&& broadcast_steps_fit(broadcast_step(m, batch.first()).0, batch.drop_first())
    }
}

/// The re-send generation on one retry tick: one fresh gossip message per
/// outstanding entry, and the buffer replaced wholesale by the new entries.
pub open spec fn tick_model(m: BroadcastModel) -> (BroadcastModel, Seq<MessageModel<DataModel>>) {
    (
        BroadcastModel {
            counter: m.counter + m.pending.len(),
            pending: Seq::new(
                m.pending.len(),
                |k: int|
                    GossipEntryModel {
                        dest: m.pending[k].dest,
                        value: m.pending[k].value,
                        msg_id: m.counter + k + 1,
                    },
            ),
            ..m
        },
        Seq::new(
            m.pending.len(),
            |k: int|
                MessageModel {
                    src: m.id,
                    dest: m.pending[k].dest,
                    body: PayloadModel::Custom(
                        DataModel::Broadcast {
                            msg_id: m.counter + k + 1,
                            message: m.pending[k].value,
                        },
                    ),
                },
        ),
    )
}

/// The broadcast state machine.
pub struct BroadcastNode {
    /// The identifier this node was assigned at startup.
    id: String,
    /// The last message identifier this node drew.
    msg_id_counter: usize,
    /// Every broadcast value seen so far, for constant-time deduplication.
    seen: HashSet<usize>,
    /// The seen values in first-arrival order, for read snapshots.
    log: Vec<usize>,
    /// The neighbors this node floods to.
    neighbors: Vec<String>,
    /// The gossip messages sent but not yet acknowledged.
    pending: Vec<GossipEntry>,
}

impl View for BroadcastNode {
    type V = BroadcastModel;

    closed spec fn view(&self) -> BroadcastModel {
        BroadcastModel {
            id: self.id@,
            counter: self.msg_id_counter as int,
            seen: self.seen@,
            log: self.log@,
            neighbors: self.neighbors.deep_view(),
            pending: entry_models(self.pending@),
        }
    }
}

impl BroadcastNode {
    /// A fresh node: no values, no neighbors, no outstanding gossip.
    pub fn new(id: &str) -> (r: Self)
        ensures
            r@ == (BroadcastModel {
                id: id@,
                counter: 0,
                seen: Set::empty(),
                log: Seq::empty(),
                neighbors: Seq::empty(),
                pending: Seq::empty(),
            }),
            wf_model(r@),
    {
        let r = BroadcastNode {
            id: String::from_str(id),
            msg_id_counter: 0,
            seen: HashSet::new(),
            log: Vec::new(),
            neighbors: Vec::new(),
            pending: Vec::new(),
        };
        proof {
            assert(r.neighbors.deep_view() =~= Seq::<Seq<char>>::empty());
            assert(entry_models(r.pending@) =~= Seq::<GossipEntryModel>::empty());
            assert(r.log@.to_set() =~= Set::<usize>::empty());
        }
        r
    }
}

/// A prefix of the neighbor list floods to at most as many targets.
pub proof fn lemma_flood_targets_prefix_len(
    nbrs: Seq<Seq<char>>,
    src: Seq<char>,
    dest: Seq<char>,
    i: int,
)
    requires
        0 <= i <= nbrs.len(),
    ensures
        flood_targets(nbrs.take(i), src, dest).len() <= flood_targets(nbrs, src, dest).len(),
    decreases nbrs.len() - i,
{
    if i == nbrs.len() {
        assert(nbrs.take(i) =~= nbrs);
    } else {
        lemma_flood_targets_prefix_len(nbrs, src, dest, i + 1);
        assert(nbrs.take(i + 1).drop_last() =~= nbrs.take(i));
    }
}

impl BroadcastNode {
    /// A copy of a value list, used for read snapshots.
    fn clone_values(v: &Vec<usize>) -> (r: Vec<usize>)
        ensures
            r@ == v@,
    {
        let mut r: Vec<usize> = Vec::new();
        let mut i: usize = 0;
        while i < v.len()
            invariant
                i <= v@.len(),
                r@ == v@.take(i as int),
            decreases v@.len() - i,
        {
            r.push(v[i]);
            proof {
                assert(v@.take(i as int).push(v@[i as int]) =~= v@.take(i as int + 1));
            }
            i = i + 1;
        }
        proof {
            assert(v@.take(v@.len() as int) =~= v@);
        }
        r
    }

    /// A copy of a neighbor list, used when a topology entry is adopted.
    fn clone_ids(v: &Vec<String>) -> (r: Vec<String>)
        ensures
            r.deep_view() == v.deep_view(),
    {
        let mut r: Vec<String> = Vec::new();
        let mut i: usize = 0;
        while i < v.len()
            invariant
                i <= v@.len(),
                r@.len() == i,
                forall|j: int| 0 <= j < i as int ==> r@[j]@ == v@[j]@,
            decreases v@.len() - i,
        {
            let c = v[i].clone();
            r.push(c);
            i = i + 1;
        }
        proof {
            assert(r.deep_view() =~= v.deep_view());
        }
        r
    }

    /// Floods an unseen value to every eligible neighbor, records the
    /// outstanding entries, adds the value, and acknowledges the delivery.
    fn handle_gossip(&mut self, src: &String, dest: &String, corr: usize, value: usize) -> (out:
        Vec<Message<Data>>)
        requires
            gossip_model(old(self)@, src@, dest@, corr as int, value).0.counter <= usize::MAX,
        ensures
            final(self)@ == gossip_model(old(self)@, src@, dest@, corr as int, value).0,
            models_of(out@) == gossip_model(old(self)@, src@, dest@, corr as int, value).1,
    {
        let ghost m0 = self@;
        let ghost spec_result = gossip_model(m0, src@, dest@, corr as int, value);
        let mut out: Vec<Message<Data>> = Vec::new();
        let fresh = !self.seen.contains(&value);
        let ghost targets = if fresh {
            flood_targets(m0.neighbors, src@, dest@)
        } else {
            Seq::<Seq<char>>::empty()
        };
        if fresh {
            let ghost full = flood_targets(m0.neighbors, src@, dest@);
            let mut i: usize = 0;
            proof {
                assert(m0.neighbors.take(0) =~= Seq::<Seq<char>>::empty());
                assert(models_of(out@) =~= Seq::<MessageModel<DataModel>>::empty());
                assert(fan_out_messages(m0.id, m0.counter, flood_targets(m0.neighbors.take(0), src@, dest@), value)
                    =~= Seq::<MessageModel<DataModel>>::empty());
                assert(m0.pending + fan_out_entries(m0.counter, flood_targets(m0.neighbors.take(0), src@, dest@), value)
                    =~= m0.pending);
            }
            while i < self.neighbors.len()
                invariant
                    i <= self.neighbors@.len(),
                    self@.id == m0.id,
                    self@.seen == m0.seen,
                    self@.log == m0.log,
                    self@.neighbors == m0.neighbors,
                    m0.counter + full.len() + 1 <= usize::MAX,
                    full == flood_targets(m0.neighbors, src@, dest@),
                    ({
                        let ts = flood_targets(m0.neighbors.take(i as int), src@, dest@);
                        &&& self@.counter == m0.counter + ts.len()
                        &&& models_of(out@) == fan_out_messages(m0.id, m0.counter, ts, value)
                        &&& self@.pending == m0.pending + fan_out_entries(m0.counter, ts, value)
                    }),
                decreases self.neighbors@.len() - i,
            {
                let ghost ts = flood_targets(m0.neighbors.take(i as int), src@, dest@);
                proof {
                    assert(m0.neighbors.take(i as int + 1).drop_last() =~= m0.neighbors.take(
                        i as int,
                    ));
                    assert(m0.neighbors.take(i as int + 1).last() == m0.neighbors[i as int]);
                    lemma_flood_targets_prefix_len(m0.neighbors, src@, dest@, i as int + 1);
                }
                let n = self.neighbors[i].clone();
                proof {
                    assert(n@ == m0.neighbors[i as int]);
                }
                if !(n == *src) && !(n == *dest) {
                    let ghost ts1 = flood_targets(m0.neighbors.take(i as int + 1), src@, dest@);
                    let ghost fm = MessageModel::<DataModel> {
                        src: m0.id,
                        dest: n@,
                        body: PayloadModel::Custom(
                            DataModel::Broadcast {
                                msg_id: m0.counter + ts.len() + 1,
                                message: value,
                            },
                        ),
                    };
                    let ghost em = GossipEntryModel {
                        dest: n@,
                        value: value,
                        msg_id: m0.counter + ts.len() + 1,
                    };
                    let ghost out_before = models_of(out@);
                    let ghost pending_before = entry_models(self.pending@);
                    proof {
                        assert(ts1 == ts.push(n@));
                        assert(fan_out_messages(m0.id, m0.counter, ts1, value)
                            =~= fan_out_messages(m0.id, m0.counter, ts, value).push(fm));
                        assert(fan_out_entries(m0.counter, ts1, value) =~= fan_out_entries(
                            m0.counter,
                            ts,
                            value,
                        ).push(em));
                    }
                    self.msg_id_counter = self.msg_id_counter + 1;
                    let flood = Message {
                        src: self.id.clone(),
                        dest: n.clone(),
                        body: Payload::Custom(
                            Data::Broadcast { msg_id: self.msg_id_counter, message: value },
                        ),
                    };
                    proof {
                        assert(flood@ == fm);
                    }
                    out.push(flood);
                    let entry = GossipEntry { dest: n, value, msg_id: self.msg_id_counter };
                    proof {
                        assert(entry@ == em);
                    }
                    self.pending.push(entry);
                    proof {
                        assert(models_of(out@) =~= out_before.push(fm));
                        assert(entry_models(self.pending@) =~= pending_before.push(em));
                        assert(m0.pending + fan_out_entries(m0.counter, ts, value).push(em)
                            =~= (m0.pending + fan_out_entries(m0.counter, ts, value)).push(em));
                        assert(models_of(out@) == fan_out_messages(m0.id, m0.counter, ts1, value));
                        assert(entry_models(self.pending@) == m0.pending + fan_out_entries(
                            m0.counter,
                            ts1,
                            value,
                        ));
                    }
                } else {
                    proof {
                        assert(flood_targets(m0.neighbors.take(i as int + 1), src@, dest@) == ts);
                    }
                }
                i = i + 1;
            }
            proof {
                assert(m0.neighbors.take(self.neighbors@.len() as int) =~= m0.neighbors);
            }
        }
        self.msg_id_counter = self.msg_id_counter + 1;
        self.seen.insert(value);
        if fresh {
            self.log.push(value);
        }
        let ack = Message {
            src: dest.clone(),
            dest: src.clone(),
            body: Payload::Custom(
                Data::BroadcastOk { msg_id: self.msg_id_counter, in_reply_to: corr },
            ),
        };
        out.push(ack);
        proof {
            if !fresh {
                assert(fan_out_messages(m0.id, m0.counter, targets, value)
                    =~= Seq::<MessageModel<DataModel>>::empty());
                assert(m0.pending + fan_out_entries(m0.counter, targets, value) =~= m0.pending);
            }
            assert(models_of(out@) =~= spec_result.1);
            assert(self@.pending =~= spec_result.0.pending);
        }
        out
    }

    /// Drops the outstanding entry the acknowledgement correlates to, if any.
    fn handle_ack(&mut self, corr: usize)
        ensures
            final(self)@ == ack_model(old(self)@, corr as int),
    {
        let ghost m0 = self@;
        let mut kept: Vec<GossipEntry> = Vec::new();
        let mut i: usize = 0;
        proof {
            assert(m0.pending.take(0) =~= Seq::<GossipEntryModel>::empty());
            assert(entry_models(kept@) =~= remove_acked(m0.pending.take(0), corr as int));
        }
        while i < self.pending.len()
            invariant
                i <= self.pending@.len(),
                self@ == m0,
                entry_models(kept@) == remove_acked(m0.pending.take(i as int), corr as int),
            decreases self.pending@.len() - i,
        {
            proof {
                assert(m0.pending.take(i as int + 1).drop_last() =~= m0.pending.take(i as int));
                assert(m0.pending.take(i as int + 1).last() == m0.pending[i as int]);
            }
            if self.pending[i].msg_id != corr {
                let e = GossipEntry {
                    dest: self.pending[i].dest.clone(),
                    value: self.pending[i].value,
                    msg_id: self.pending[i].msg_id,
                };
                proof {
                    assert(e@ == m0.pending[i as int]);
                }
                kept.push(e);
                proof {
                    assert(entry_models(kept@) =~= remove_acked(
                        m0.pending.take(i as int),
                        corr as int,
                    ).push(m0.pending[i as int]));
                }
            }
            i = i + 1;
        }
        proof {
            assert(m0.pending.take(self.pending@.len() as int) =~= m0.pending);
        }
        self.pending = kept;
    }

    /// Answers a read with a snapshot of every value seen so far.
    fn handle_read(&mut self, src: &String, dest: &String, corr: usize) -> (out: Vec<
        Message<Data>,
    >)
        requires
            old(self)@.counter + 1 <= usize::MAX,
        ensures
            final(self)@ == read_model(old(self)@, src@, dest@, corr as int).0,
            models_of(out@) == read_model(old(self)@, src@, dest@, corr as int).1,
    {
        let ghost m0 = self@;
        self.msg_id_counter = self.msg_id_counter + 1;
        let snapshot = Self::clone_values(&self.log);
        let resp = Message {
            src: dest.clone(),
            dest: src.clone(),
            body: Payload::Custom(
                Data::ReadOk {
                    msg_id: self.msg_id_counter,
                    in_reply_to: corr,
                    messages: snapshot,
                },
            ),
        };
        let mut out: Vec<Message<Data>> = Vec::new();
        out.push(resp);
        proof {
            assert(models_of(out@) =~= read_model(m0, src@, dest@, corr as int).1);
        }
        out
    }

    /// Replaces the neighbor list with the one the assignment gives this node
    /// and acknowledges the assignment.
    fn handle_topology(
        &mut self,
        src: &String,
        dest: &String,
        corr: usize,
        topology: &Vec<(String, Vec<String>)>,
    ) -> (out: Vec<Message<Data>>)
        requires
            old(self)@.counter + 1 <= usize::MAX,
        ensures
            final(self)@ == topology_model(
                old(self)@,
                src@,
                dest@,
                corr as int,
                topology_models(topology@),
            ).0,
            models_of(out@) == topology_model(
                old(self)@,
                src@,
                dest@,
                corr as int,
                topology_models(topology@),
            ).1,
    {
        let ghost m0 = self@;
        let ghost topo = topology_models(topology@);
        let mut result: Vec<String> = Vec::new();
        let mut matched: bool = false;
        let mut i: usize = 0;
        proof {
            assert(topo.skip(0) =~= topo);
        }
        while i < topology.len()
            invariant
                i <= topology@.len(),
                topo == topology_models(topology@),
                self@ == m0,
                matched ==> result.deep_view() == topo_lookup(topo, m0.id),
                !matched ==> topo_lookup(topo.skip(i as int), m0.id) == topo_lookup(topo, m0.id)
                    && result@.len() == 0,
            decreases topology@.len() - i,
        {
            proof {
                assert(topo.skip(i as int).first() == topo[i as int]);
                assert(topo.skip(i as int).drop_first() =~= topo.skip(i as int + 1));
                assert(topo[i as int].0 == topology@[i as int].0@);
            }
            if !matched {
                if topology[i].0 == self.id {
                    result = Self::clone_ids(&topology[i].1);
                    matched = true;
                    proof {
                        assert(topo[i as int].1 == topology@[i as int].1.deep_view());
                        assert(result.deep_view() == topo_lookup(topo, m0.id));
                    }
                }
            }
            i = i + 1;
        }
        proof {
            if !matched {
                assert(topo.skip(topology@.len() as int) =~= Seq::<
                    (Seq<char>, Seq<Seq<char>>),
                >::empty());
                assert(result.deep_view() =~= topo_lookup(topo, m0.id));
            }
        }
        self.neighbors = result;
        self.msg_id_counter = self.msg_id_counter + 1;
        let resp = Message {
            src: dest.clone(),
            dest: src.clone(),
            body: Payload::Custom(
                Data::TopologyOk { msg_id: self.msg_id_counter, in_reply_to: corr },
            ),
        };
        let mut out: Vec<Message<Data>> = Vec::new();
        out.push(resp);
        proof {
            assert(models_of(out@) =~= topology_model(m0, src@, dest@, corr as int, topo).1);
        }
        out
    }
}

/// Every entry kept by `remove_acked` is an entry of the buffer, and none of
/// them carries the acknowledged identifier.
pub proof fn lemma_remove_acked_entries(pending: Seq<GossipEntryModel>, corr: int)
    ensures
        remove_acked(pending, corr).len() <= pending.len(),
        forall|k: int|
            0 <= k < remove_acked(pending, corr).len() ==> pending.contains(
                #[trigger] remove_acked(pending, corr)[k],
            ) && remove_acked(pending, corr)[k].msg_id != corr,
    decreases pending.len(),
{
    if pending.len() == 0 {
    } else {
        let sub = pending.drop_last();
        lemma_remove_acked_entries(sub, corr);
        let kept = remove_acked(pending, corr);
        assert forall|k: int|
            0 <= k < kept.len() implies pending.contains(#[trigger] kept[k]) && kept[k].msg_id
            != corr by {
            let rest = remove_acked(sub, corr);
            if k < rest.len() {
                assert(sub.contains(rest[k]));
                let j = choose|j: int| 0 <= j < sub.len() && sub[j] == rest[k];
                assert(pending[j] == rest[k]);
            } else {
                assert(kept[k] == pending.last());
                assert(pending[pending.len() - 1] == pending.last());
            }
        }
    }
}

/// `remove_acked` keeps identifiers pairwise distinct.
pub proof fn lemma_remove_acked_distinct(pending: Seq<GossipEntryModel>, corr: int)
    requires
        forall|i: int, j: int|
            0 <= i < j < pending.len() ==> pending[i].msg_id != pending[j].msg_id,
    ensures
        forall|i: int, j: int|
            0 <= i < j < remove_acked(pending, corr).len() ==> remove_acked(pending, corr)[i].msg_id
                != remove_acked(pending, corr)[j].msg_id,
    decreases pending.len(),
{
    if pending.len() == 0 {
    } else {
        let sub = pending.drop_last();
        assert(forall|i: int, j: int|
            0 <= i < j < sub.len() ==> sub[i].msg_id != sub[j].msg_id);
        lemma_remove_acked_distinct(sub, corr);
        lemma_remove_acked_entries(sub, corr);
        let kept = remove_acked(pending, corr);
        let rest = remove_acked(sub, corr);
        if pending.last().msg_id != corr {
            assert forall|i: int, j: int|
                0 <= i < j < kept.len() implies kept[i].msg_id != kept[j].msg_id by {
                if j < rest.len() {
                } else {
                    assert(kept[j] == pending.last());
                    assert(sub.contains(rest[i]));
                    let jj = choose|jj: int| 0 <= jj < sub.len() && sub[jj] == rest[i];
                    assert(pending[jj] == rest[i]);
                    assert(pending[jj].msg_id != pending[pending.len() - 1].msg_id);
                }
            }
        }
    }
}

/// The flood of a `broadcast` delivery preserves well-formedness.
pub proof fn lemma_gossip_preserves_wf(
    m: BroadcastModel,
    src: Seq<char>,
    dest: Seq<char>,
    corr: int,
    value: usize,
)
    requires
        wf_model(m),
    ensures
        wf_model(gossip_model(m, src, dest, corr, value).0),
{
    broadcast use vstd::seq_lib::group_seq_properties;

    let post = gossip_model(m, src, dest, corr, value).0;
    let fresh = !m.seen.contains(value);
    if fresh {
        assert(!m.log.contains(value));
        assert(post.log.no_duplicates());
        assert(post.log.to_set() =~= m.seen.insert(value));
    } else {
        assert(m.log.contains(value));
        assert(post.log.to_set() =~= m.seen.insert(value));
    }
    assert(forall|i: int, j: int|
        0 <= i < j < post.pending.len() ==> post.pending[i].msg_id != post.pending[j].msg_id);
    assert(forall|i: int|
        0 <= i < post.pending.len() ==> 1 <= #[trigger] post.pending[i].msg_id <= post.counter);
}

/// Clearing an acknowledged entry preserves well-formedness.
pub proof fn lemma_ack_preserves_wf(m: BroadcastModel, corr: int)
    requires
        wf_model(m),
    ensures
        wf_model(ack_model(m, corr)),
{
    lemma_remove_acked_entries(m.pending, corr);
    lemma_remove_acked_distinct(m.pending, corr);
    let kept = remove_acked(m.pending, corr);
    assert forall|i: int|
        0 <= i < kept.len() implies 1 <= #[trigger] kept[i].msg_id <= m.counter by {
        assert(m.pending.contains(kept[i]));
        let j = choose|j: int| 0 <= j < m.pending.len() && m.pending[j] == kept[i];
        assert(1 <= m.pending[j].msg_id <= m.counter);
    }
}

/// One step of the engine preserves well-formedness.
pub proof fn lemma_step_preserves_wf(m: BroadcastModel, msg: MessageModel<DataModel>)
    requires
        wf_model(m),
    ensures
        wf_model(broadcast_step(m, msg).0),
{
    match msg.body {
        PayloadModel::Custom(d) => match d {
            DataModel::Broadcast { msg_id, message } => {
                lemma_gossip_preserves_wf(m, msg.src, msg.dest, msg_id, message);
            },
            DataModel::BroadcastOk { msg_id: _, in_reply_to } => {
                lemma_ack_preserves_wf(m, in_reply_to);
            },
            _ => {},
        },
        _ => {},
    }
}

/// A retry tick preserves well-formedness.
pub proof fn lemma_tick_preserves_wf(m: BroadcastModel)
    requires
        wf_model(m),
    ensures
        wf_model(tick_model(m).0),
{
}

impl BroadcastNode {
    /// Applies one inbound message to the engine and returns the emitted
    /// messages, exactly as [`broadcast_step`] describes.
    pub fn step(&mut self, message: &Message<Data>) -> (out: Vec<Message<Data>>)
        requires
            wf_model(old(self)@),
            broadcast_step(old(self)@, message@).0.counter <= usize::MAX,
        ensures
            wf_model(final(self)@),
            final(self)@ == broadcast_step(old(self)@, message@).0,
            models_of(out@) == broadcast_step(old(self)@, message@).1,
    {
        let ghost m0 = self@;
        let out = match &message.body {
            Payload::Custom(d) => match d {
                Data::Broadcast { msg_id, message: value } => self.handle_gossip(
                    &message.src,
                    &message.dest,
                    *msg_id,
                    *value,
                ),
                Data::BroadcastOk { msg_id: _, in_reply_to } => {
                    self.handle_ack(*in_reply_to);
                    Vec::new()
                },
                Data::Read { msg_id } => self.handle_read(&message.src, &message.dest, *msg_id),
                Data::Topology { msg_id, topology } => self.handle_topology(
                    &message.src,
                    &message.dest,
                    *msg_id,
                    topology,
                ),
                _ => Vec::new(),
            },
            _ => Vec::new(),
        };
        proof {
            lemma_step_preserves_wf(m0, message@);
            assert(models_of(out@) =~= broadcast_step(m0, message@).1);
        }
        out
    }

    /// Re-sends every outstanding gossip message under a fresh identifier and
    /// replaces the buffer with the new generation, exactly as [`tick_model`]
    /// describes.
    pub fn retry_tick(&mut self) -> (out: Vec<Message<Data>>)
        requires
            wf_model(old(self)@),
            old(self)@.counter + old(self)@.pending.len() <= usize::MAX,
        ensures
            wf_model(final(self)@),
            final(self)@ == tick_model(old(self)@).0,
            models_of(out@) == tick_model(old(self)@).1,
    {
        let ghost m0 = self@;
        let mut regenerated: Vec<GossipEntry> = Vec::new();
        let mut out: Vec<Message<Data>> = Vec::new();
        let mut i: usize = 0;
        proof {
            assert(entry_models(regenerated@) =~= tick_model(m0).0.pending.take(0));
            assert(models_of(out@) =~= tick_model(m0).1.take(0));
        }
        while i < self.pending.len()
            invariant
                i <= self.pending@.len(),
                self@.id == m0.id,
                self@.seen == m0.seen,
                self@.log == m0.log,
                self@.neighbors == m0.neighbors,
                self@.pending == m0.pending,
                m0.counter + m0.pending.len() <= usize::MAX,
                self@.counter == m0.counter + i,
                entry_models(regenerated@) == tick_model(m0).0.pending.take(i as int),
                models_of(out@) == tick_model(m0).1.take(i as int),
            decreases self.pending@.len() - i,
        {
            let dst = self.pending[i].dest.clone();
            let v = self.pending[i].value;
            proof {
                assert(m0.pending[i as int] == self.pending@[i as int]@);
            }
            self.msg_id_counter = self.msg_id_counter + 1;
            let msg = Message {
                src: self.id.clone(),
                dest: dst.clone(),
                body: Payload::Custom(
                    Data::Broadcast { msg_id: self.msg_id_counter, message: v },
                ),
            };
            let ghost mm = msg@;
            let ghost out_before = models_of(out@);
            let ghost reg_before = entry_models(regenerated@);
            proof {
                assert(mm == tick_model(m0).1[i as int]);
            }
            out.push(msg);
            let e = GossipEntry { dest: dst, value: v, msg_id: self.msg_id_counter };
            let ghost em = e@;
            proof {
                assert(em == tick_model(m0).0.pending[i as int]);
            }
            regenerated.push(e);
            proof {
                assert(models_of(out@) =~= out_before.push(mm));
                assert(entry_models(regenerated@) =~= reg_before.push(em));
                assert(entry_models(regenerated@) =~= tick_model(m0).0.pending.take(i as int + 1));
                assert(models_of(out@) =~= tick_model(m0).1.take(i as int + 1));
            }
            i = i + 1;
        }
        self.pending = regenerated;
        proof {
            assert(tick_model(m0).0.pending.take(m0.pending.len() as int) =~= tick_model(
                m0,
            ).0.pending);
            assert(tick_model(m0).1.take(m0.pending.len() as int) =~= tick_model(m0).1);
            lemma_tick_preserves_wf(m0);
        }
        out
    }

    /// How many message identifiers this node has drawn so far.
    pub fn ids_drawn(&self) -> (r: usize)
        ensures
            r as int == self@.counter,
    {
        self.msg_id_counter
    }

    /// The identifier this node was assigned at startup.
    pub fn id_str(&self) -> (r: &str)
        ensures
            r@ == self@.id,
    {
        self.id.as_str()
    }

    /// A copy of the current neighbor list.
    pub fn neighbor_ids(&self) -> (r: Vec<String>)
        ensures
            r.deep_view() == self@.neighbors,
    {
        Self::clone_ids(&self.neighbors)
    }

    /// A snapshot of every value seen so far, in first-arrival order.
    pub fn values(&self) -> (r: Vec<usize>)
        ensures
            r@ == self@.log,
    {
        Self::clone_values(&self.log)
    }

    /// A copy of the outstanding gossip entries, in recording order.
    pub fn outstanding(&self) -> (r: Vec<GossipEntry>)
        ensures
            entry_models(r@) == self@.pending,
    {
        let mut r: Vec<GossipEntry> = Vec::new();
        let mut i: usize = 0;
        proof {
            assert(entry_models(r@) =~= self@.pending.take(0));
        }
        while i < self.pending.len()
            invariant
                i <= self.pending@.len(),
                self@.pending == entry_models(self.pending@),
                entry_models(r@) == self@.pending.take(i as int),
            decreases self.pending@.len() - i,
        {
            let e = GossipEntry {
                dest: self.pending[i].dest.clone(),
                value: self.pending[i].value,
                msg_id: self.pending[i].msg_id,
            };
            let ghost em = e@;
            let ghost before = entry_models(r@);
            proof {
                assert(em == self@.pending[i as int]);
            }
            r.push(e);
            proof {
                assert(entry_models(r@) =~= before.push(em));
                assert(entry_models(r@) =~= self@.pending.take(i as int + 1));
            }
            i = i + 1;
        }
        proof {
            assert(self@.pending.take(self.pending@.len() as int) =~= self@.pending);
        }
        r
    }
}

/// Appending one message to a batch runs the batch, then that message.
pub proof fn lemma_broadcast_steps_snoc(
    m: BroadcastModel,
    batch: Seq<MessageModel<DataModel>>,
    x: MessageModel<DataModel>,
)
    ensures
        broadcast_steps(m, batch.push(x)).0 == broadcast_step(broadcast_steps(m, batch).0, x).0,
        broadcast_steps(m, batch.push(x)).1 == broadcast_steps(m, batch).1 + broadcast_step(
            broadcast_steps(m, batch).0,
            x,
        ).1,
    decreases batch.len(),
{
    let whole = batch.push(x);
    if batch.len() == 0 {
        assert(batch =~= Seq::<MessageModel<DataModel>>::empty());
        assert(broadcast_steps(m, batch) == (m, Seq::<MessageModel<DataModel>>::empty()));
        assert(whole.first() == x);
        assert(whole.drop_first() =~= Seq::<MessageModel<DataModel>>::empty());
        let first = broadcast_step(m, x);
        assert(broadcast_steps(first.0, whole.drop_first()) == (
            first.0,
            Seq::<MessageModel<DataModel>>::empty(),
        ));
        assert(broadcast_steps(m, whole).1 =~= first.1);
        assert(broadcast_steps(m, batch).1 + first.1 =~= first.1);
    } else {
        assert(whole.first() == batch.first());
        assert(whole.drop_first() =~= batch.drop_first().push(x));
        let mid = broadcast_step(m, batch.first());
        lemma_broadcast_steps_snoc(mid.0, batch.drop_first(), x);
        assert(mid.1 + (broadcast_steps(mid.0, batch.drop_first()).1 + broadcast_step(
            broadcast_steps(mid.0, batch.drop_first()).0,
            x,
        ).1) =~= (mid.1 + broadcast_steps(mid.0, batch.drop_first()).1) + broadcast_step(
            broadcast_steps(m, batch).0,
            x,
        ).1);
    }
}

impl StateMachine<Data> for BroadcastNode {
    open spec fn wf(m: BroadcastModel) -> bool {
        wf_model(m)
    }

    open spec fn batch_model(m: BroadcastModel, batch: Seq<MessageModel<DataModel>>) -> (
        BroadcastModel,
        Seq<MessageModel<DataModel>>,
    ) {
        broadcast_steps(m, batch)
    }

    open spec fn batch_fits(m: BroadcastModel, batch: Seq<MessageModel<DataModel>>) -> bool {
        broadcast_steps_fit(m, batch)
    }

    fn apply(&mut self, messages: Vec<Message<Data>>) -> (r: Result<
        Vec<Message<Data>>,
        MessageError,
    >) {
        let ghost batch = models_of(messages@);
        let ghost start = self@;
        let mut responses: Vec<Message<Data>> = Vec::new();
        let mut i: usize = 0;
        proof {
            assert(batch.skip(0) =~= batch);
            assert(batch.take(0) =~= Seq::<MessageModel<DataModel>>::empty());
            assert(broadcast_steps(start, batch.take(0)) == (
                start,
                Seq::<MessageModel<DataModel>>::empty(),
            ));
            assert(models_of(responses@) =~= Seq::<MessageModel<DataModel>>::empty());
        }
        while i < messages.len()
            invariant
                i <= messages@.len(),
                batch == models_of(messages@),
                wf_model(self@),
                self@ == broadcast_steps(start, batch.take(i as int)).0,
                models_of(responses@) == broadcast_steps(start, batch.take(i as int)).1,
                broadcast_steps_fit(self@, batch.skip(i as int)),
            decreases messages@.len() - i,
        {
            let ghost pre = self@;
            let ghost done = batch.take(i as int);
            proof {
                assert(batch.skip(i as int).first() == batch[i as int]);
                assert(batch.skip(i as int).drop_first() =~= batch.skip(i as int + 1));
                assert(messages@[i as int]@ == batch[i as int]);
            }
            let mut emitted = self.step(&messages[i]);
            let ghost emitted_models = models_of(emitted@);
            let ghost before = models_of(responses@);
            responses.append(&mut emitted);
            proof {
                assert(models_of(responses@) =~= before + emitted_models);
                lemma_broadcast_steps_snoc(start, done, batch[i as int]);
                assert(done.push(batch[i as int]) =~= batch.take(i as int + 1));
            }
            i = i + 1;
        }
        proof {
            assert(batch.take(messages@.len() as int) =~= batch);
        }
        Ok(responses)
    }
}

/// Whether a message carries a gossip payload.
pub open spec fn is_gossip(msg: MessageModel<DataModel>) -> bool {
    msg.body matches PayloadModel::Custom(DataModel::Broadcast { .. })
}

/// Whether a message carries a gossip acknowledgement.
pub open spec fn is_gossip_ack(msg: MessageModel<DataModel>) -> bool {
    msg.body matches PayloadModel::Custom(DataModel::BroadcastOk { .. })
}

/// How many messages of `s` carry a gossip payload.
pub open spec fn gossip_count(s: Seq<MessageModel<DataModel>>) -> int
    decreases s.len(),
{
    if s.len() == 0 {
        0
    } else {
        gossip_count(s.drop_last()) + if is_gossip(s.last()) {
            1int
        } else {
            0int
        }
    }
}

/// How many messages of `s` carry a gossip acknowledgement.
pub open spec fn ack_count(s: Seq<MessageModel<DataModel>>) -> int
    decreases s.len(),
{
    if s.len() == 0 {
        0
    } else {
        ack_count(s.drop_last()) + if is_gossip_ack(s.last()) {
            1int
        } else {
            0int
        }
    }
}

/// Both counts distribute over concatenation.
pub proof fn lemma_counts_add(a: Seq<MessageModel<DataModel>>, b: Seq<MessageModel<DataModel>>)
    ensures
        gossip_count(a + b) == gossip_count(a) + gossip_count(b),
        ack_count(a + b) == ack_count(a) + ack_count(b),
    decreases b.len(),
{
    if b.len() == 0 {
        assert(a + b =~= a);
    } else {
        lemma_counts_add(a, b.drop_last());
        assert((a + b).drop_last() =~= a + b.drop_last());
        assert((a + b).last() == b.last());
    }
}

/// A fan-out consists of gossip messages only.
pub proof fn lemma_fan_out_counts(
    id: Seq<char>,
    counter: int,
    targets: Seq<Seq<char>>,
    value: usize,
)
    ensures
        gossip_count(fan_out_messages(id, counter, targets, value)) == targets.len(),
        ack_count(fan_out_messages(id, counter, targets, value)) == 0,
    decreases targets.len(),
{
    let floods = fan_out_messages(id, counter, targets, value);
    if targets.len() == 0 {
        assert(floods =~= Seq::<MessageModel<DataModel>>::empty());
    } else {
        assert(floods.drop_last() =~= fan_out_messages(id, counter, targets.drop_last(), value));
        lemma_fan_out_counts(id, counter, targets.drop_last(), value);
        assert(is_gossip(floods.last()));
    }
}

/// `n` deliveries of the same `broadcast{message = value}` from `src`
/// addressed to `dest`.
pub open spec fn repeated_gossip(
    src: Seq<char>,
    dest: Seq<char>,
    corr: int,
    value: usize,
    n: int,
) -> Seq<MessageModel<DataModel>> {
    Seq::new(
        n as nat,
        |k: int|
            MessageModel {
                src: src,
                dest: dest,
                body: PayloadModel::Custom(DataModel::Broadcast { msg_id: corr, message: value }),
            },
    )
}

/// Dedup idempotence: delivering the same `broadcast{message = value}` N
/// times adds the value to the value set exactly once, answers every
/// delivery with exactly one acknowledgement, and floods to neighbors only
/// on the first delivery — a value already seen floods nothing at all.
pub proof fn lemma_dedup_idempotent(
    m: BroadcastModel,
    src: Seq<char>,
    dest: Seq<char>,
    corr: int,
    value: usize,
    n: int,
)
    requires
        1 <= n,
    ensures
        ({
            let r = broadcast_steps(m, repeated_gossip(src, dest, corr, value, n));
            &&& r.0.seen == m.seen.insert(value)
            &&& r.0.log == (if m.seen.contains(value) {
                m.log
            } else {
                m.log.push(value)
            })
            &&& ack_count(r.1) == n
            &&& gossip_count(r.1) == (if m.seen.contains(value) {
                0int
            } else {
                flood_targets(m.neighbors, src, dest).len() as int
            })
        }),
    decreases n,
{
    let gmsg = MessageModel {
        src: src,
        dest: dest,
        body: PayloadModel::Custom(DataModel::Broadcast { msg_id: corr, message: value }),
    };
    let deliveries = repeated_gossip(src, dest, corr, value, n);
    let fresh = !m.seen.contains(value);
    let targets = if fresh {
        flood_targets(m.neighbors, src, dest)
    } else {
        Seq::<Seq<char>>::empty()
    };
    let floods = fan_out_messages(m.id, m.counter, targets, value);
    let once = gossip_model(m, src, dest, corr, value);
    lemma_fan_out_counts(m.id, m.counter, targets, value);
    assert(once.1.drop_last() =~= floods);
    assert(is_gossip_ack(once.1.last()) && !is_gossip(once.1.last()));
    if n == 1 {
        assert(deliveries =~= Seq::<MessageModel<DataModel>>::empty().push(gmsg));
        lemma_broadcast_steps_snoc(m, Seq::empty(), gmsg);
        assert(broadcast_steps(m, Seq::empty()) == (m, Seq::<MessageModel<DataModel>>::empty()));
        assert(broadcast_steps(m, deliveries).1 =~= once.1);
        if !fresh {
            assert(m.seen.insert(value) =~= m.seen.insert(value));
        }
    } else {
        let prev = repeated_gossip(src, dest, corr, value, n - 1);
        lemma_dedup_idempotent(m, src, dest, corr, value, n - 1);
        assert(deliveries =~= prev.push(gmsg));
        lemma_broadcast_steps_snoc(m, prev, gmsg);
        let mid = broadcast_steps(m, prev);
        assert(mid.0.seen.contains(value));
        let last = broadcast_step(mid.0, gmsg);
        assert(last.1.drop_last() =~= fan_out_messages(
            mid.0.id,
            mid.0.counter,
            Seq::<Seq<char>>::empty(),
            value,
        ));
        lemma_fan_out_counts(mid.0.id, mid.0.counter, Seq::<Seq<char>>::empty(), value);
        assert(is_gossip_ack(last.1.last()) && !is_gossip(last.1.last()));
        lemma_counts_add(mid.1, last.1);
        assert(mid.0.seen.insert(value) =~= mid.0.seen);
    }
}

/// Every flood target is a neighbor and is neither the sender nor the
/// identity the message was addressed to.
pub proof fn lemma_flood_targets_sound(nbrs: Seq<Seq<char>>, src: Seq<char>, dest: Seq<char>)
    ensures
        forall|k: int|
            0 <= k < flood_targets(nbrs, src, dest).len() ==> {
                &&& #[trigger] flood_targets(nbrs, src, dest)[k] != src
                &&& flood_targets(nbrs, src, dest)[k] != dest
                &&& nbrs.contains(flood_targets(nbrs, src, dest)[k])
            },
    decreases nbrs.len(),
{
    if nbrs.len() == 0 {
    } else {
        let sub = nbrs.drop_last();
        lemma_flood_targets_sound(sub, src, dest);
        let ts = flood_targets(nbrs, src, dest);
        assert forall|k: int|
            0 <= k < ts.len() implies #[trigger] ts[k] != src && ts[k] != dest && nbrs.contains(
            ts[k],
        ) by {
            let rest = flood_targets(sub, src, dest);
            if k < rest.len() {
                assert(sub.contains(rest[k]));
                let j = choose|j: int| 0 <= j < sub.len() && sub[j] == rest[k];
                assert(nbrs[j] == rest[k]);
            } else {
                assert(ts[k] == nbrs.last());
                assert(nbrs[nbrs.len() - 1] == nbrs.last());
            }
        }
    }
}

/// No-bounce: on a `broadcast` delivery, every emitted gossip message goes
/// out under this node's own name to one of its neighbors, and never to the
/// message's sender nor to the identity the message was addressed to; the
/// outstanding entries recorded for the floods obey the same exclusion.
pub proof fn lemma_no_bounce(
    m: BroadcastModel,
    src: Seq<char>,
    dest: Seq<char>,
    corr: int,
    value: usize,
)
    ensures
        ({
            let post = gossip_model(m, src, dest, corr, value).0;
            let out = gossip_model(m, src, dest, corr, value).1;
            &&& forall|k: int|
                0 <= k < out.len() && is_gossip(#[trigger] out[k]) ==> {
                    &&& out[k].dest != src
                    &&& out[k].dest != dest
                    &&& out[k].src == m.id
                    &&& m.neighbors.contains(out[k].dest)
                }
            &&& forall|k: int|
                m.pending.len() <= k < post.pending.len() ==> {
                    &&& #[trigger] post.pending[k].dest != src
                    &&& post.pending[k].dest != dest
                    &&& m.neighbors.contains(post.pending[k].dest)
                }
        }),
{
    lemma_flood_targets_sound(m.neighbors, src, dest);
    let out = gossip_model(m, src, dest, corr, value).1;
    assert(!is_gossip(out.last()));
}

/// The set of values the `broadcast` deliveries of a batch carry.
pub open spec fn gossip_values(batch: Seq<MessageModel<DataModel>>) -> Set<usize>
    decreases batch.len(),
{
    if batch.len() == 0 {
        Set::empty()
    } else {
        let rest = gossip_values(batch.drop_first());
        match batch.first().body {
            PayloadModel::Custom(DataModel::Broadcast { msg_id, message }) => rest.insert(message),
            _ => rest,
        }
    }
}

/// Every step preserves well-formedness across a whole batch.
pub proof fn lemma_steps_preserve_wf(m: BroadcastModel, batch: Seq<MessageModel<DataModel>>)
    requires
        wf_model(m),
    ensures
        wf_model(broadcast_steps(m, batch).0),
    decreases batch.len(),
{
    if batch.len() == 0 {
    } else {
        lemma_step_preserves_wf(m, batch.first());
        lemma_steps_preserve_wf(broadcast_step(m, batch.first()).0, batch.drop_first());
    }
}

/// Deliveries accumulate exactly the values they carry, whatever their
/// order; acknowledgements touch no value state.
pub proof fn lemma_deliveries_accumulate(m: BroadcastModel, batch: Seq<MessageModel<DataModel>>)
    requires
        forall|k: int| 0 <= k < batch.len() ==> is_gossip(#[trigger] batch[k]) || is_gossip_ack(batch[k]),
    ensures
        broadcast_steps(m, batch).0.seen == m.seen + gossip_values(batch),
    decreases batch.len(),
{
    if batch.len() == 0 {
        assert(m.seen + gossip_values(batch) =~= m.seen);
    } else {
        let first = batch.first();
        let mid = broadcast_step(m, first).0;
        assert(forall|k: int|
            0 <= k < batch.drop_first().len() ==> is_gossip(#[trigger] batch.drop_first()[k])
                || is_gossip_ack(batch.drop_first()[k]));
        lemma_deliveries_accumulate(mid, batch.drop_first());
        match first.body {
            PayloadModel::Custom(DataModel::Broadcast { msg_id, message }) => {
                assert(mid.seen =~= m.seen.insert(message));
                assert(m.seen.insert(message) + gossip_values(batch.drop_first()) =~= m.seen + (
                gossip_values(batch.drop_first()).insert(message)));
            },
            _ => {
                assert(mid.seen == m.seen);
            },
        }
    }
}

/// Read completeness: after a batch of deliveries, in any order, a read
/// replies with a snapshot holding exactly the values seen before plus every
/// value the batch carried.
pub proof fn lemma_read_complete(
    m: BroadcastModel,
    batch: Seq<MessageModel<DataModel>>,
    src: Seq<char>,
    dest: Seq<char>,
    corr: int,
)
    requires
        wf_model(m),
        forall|k: int| 0 <= k < batch.len() ==> is_gossip(#[trigger] batch[k]) || is_gossip_ack(batch[k]),
    ensures
        ({
            let after = broadcast_steps(m, batch).0;
            let reply = read_model(after, src, dest, corr).1;
            &&& reply.len() == 1
            &&& reply[0] == (MessageModel::<DataModel> {
                src: dest,
                dest: src,
                body: PayloadModel::Custom(
                    DataModel::ReadOk {
                        msg_id: after.counter + 1,
                        in_reply_to: corr,
                        messages: after.log,
                    },
                ),
            })
            &&& after.log.to_set() == m.seen + gossip_values(batch)
        }),
{
    lemma_steps_preserve_wf(m, batch);
    lemma_deliveries_accumulate(m, batch);
}

/// Topology replacement: assigning topology `a` and then topology `b` leaves
/// the neighbor list equal to `b`'s entry for this node, not a merge of the
/// two assignments.
pub proof fn lemma_topology_replaces(
    m: BroadcastModel,
    src: Seq<char>,
    dest: Seq<char>,
    corr_a: int,
    corr_b: int,
    a: Seq<(Seq<char>, Seq<Seq<char>>)>,
    b: Seq<(Seq<char>, Seq<Seq<char>>)>,
)
    ensures
        ({
            let mid = topology_model(m, src, dest, corr_a, a).0;
            let last = topology_model(mid, src, dest, corr_b, b).0;
            last.neighbors == topo_lookup(b, m.id)
        }),
{
}

/// With pairwise distinct identifiers, an acknowledgement removes exactly
/// the matching entry, and an unknown identifier removes nothing.
pub proof fn lemma_remove_acked_len(pending: Seq<GossipEntryModel>, corr: int)
    requires
        forall|i: int, j: int|
            0 <= i < j < pending.len() ==> pending[i].msg_id != pending[j].msg_id,
    ensures
        (exists|j: int| 0 <= j < pending.len() && #[trigger] pending[j].msg_id == corr)
            ==> remove_acked(pending, corr).len() == pending.len() - 1,
        !(exists|j: int| 0 <= j < pending.len() && #[trigger] pending[j].msg_id == corr)
            ==> remove_acked(pending, corr) == pending,
    decreases pending.len(),
{
    if pending.len() == 0 {
    } else {
        let sub = pending.drop_last();
        assert(forall|i: int, j: int|
            0 <= i < j < sub.len() ==> sub[i].msg_id != sub[j].msg_id);
        lemma_remove_acked_len(sub, corr);
        if pending.last().msg_id == corr {
            assert(pending[pending.len() - 1].msg_id == corr);
            assert(!(exists|j: int| 0 <= j < sub.len() && #[trigger] sub[j].msg_id == corr)) by {
                if exists|j: int| 0 <= j < sub.len() && #[trigger] sub[j].msg_id == corr {
                    let j = choose|j: int| 0 <= j < sub.len() && #[trigger] sub[j].msg_id == corr;
                    assert(pending[j].msg_id == pending[pending.len() - 1].msg_id);
                }
            }
            assert(remove_acked(pending, corr) == sub);
        } else {
            if exists|j: int| 0 <= j < pending.len() && #[trigger] pending[j].msg_id == corr {
                let j = choose|j: int| 0 <= j < pending.len() && #[trigger] pending[j].msg_id
                    == corr;
                assert(sub[j].msg_id == corr);
            } else {
                assert(!(exists|j: int| 0 <= j < sub.len() && #[trigger] sub[j].msg_id == corr));
                assert(remove_acked(sub, corr).push(pending.last()) =~= pending);
            }
        }
    }
}

/// Retry convergence: a retry tick re-sends every outstanding value to the
/// same neighbor under a strictly fresher identifier and keeps one entry per
/// send, and the acknowledgement of a re-sent identifier then removes exactly
/// that entry.
pub proof fn lemma_retry_convergence(m: BroadcastModel, k: int)
    requires
        wf_model(m),
        0 <= k < m.pending.len(),
    ensures
        ({
            let after = tick_model(m).0;
            let resent = tick_model(m).1;
            &&& resent.len() == m.pending.len()
            &&& after.pending.len() == m.pending.len()
            &&& resent[k] == (MessageModel::<DataModel> {
                src: m.id,
                dest: m.pending[k].dest,
                body: PayloadModel::Custom(
                    DataModel::Broadcast { msg_id: m.counter + k + 1, message: m.pending[k].value },
                ),
            })
            &&& after.pending[k] == (GossipEntryModel {
                dest: m.pending[k].dest,
                value: m.pending[k].value,
                msg_id: m.counter + k + 1,
            })
            &&& m.pending[k].msg_id <= m.counter < after.pending[k].msg_id
            &&& ack_model(after, after.pending[k].msg_id).pending.len() == m.pending.len() - 1
        }),
{
    lemma_tick_preserves_wf(m);
    let after = tick_model(m).0;
    lemma_remove_acked_len(after.pending, after.pending[k].msg_id);
    assert(exists|j: int|
        0 <= j < after.pending.len() && #[trigger] after.pending[j].msg_id == after.pending[k].msg_id);
}

} // verus!
