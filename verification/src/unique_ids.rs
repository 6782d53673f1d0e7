//! The unique-ID node: answers every `generate` request with an identifier
//! that no node in the cluster ever hands out twice.
//!
//! The identifier is the node's own name, a `/`, and the node's message
//! counter in decimal.  Node names are unique per cluster and the counter is
//! strictly increasing, so no two replies — on this node or any other — carry
//! the same identifier.

use vstd::prelude::*;
use crate::message::{models_of, Message, MessageError, MessageModel, Payload, PayloadModel};
use crate::node::StateMachine;

verus! {

/// The application payloads of the unique-ID node.
pub enum Data {
    Generate { msg_id: usize },
    GenerateOk { msg_id: usize, in_reply_to: usize, id: String },
}

/// Specification-level model of [`Data`].
pub enum DataModel {
    Generate { msg_id: int },
    GenerateOk { msg_id: int, in_reply_to: int, id: Seq<char> },
}

impl View for Data {
    type V = DataModel;

    open spec fn view(&self) -> DataModel {
        match self {
            Data::Generate { msg_id } => DataModel::Generate { msg_id: *msg_id as int },
            Data::GenerateOk { msg_id, in_reply_to, id } => DataModel::GenerateOk {
                msg_id: *msg_id as int,
                in_reply_to: *in_reply_to as int,
                id: id@,
            },
        }
    }
}

/// The decimal digit character for `d`, which must be below ten.
pub open spec fn digit_char(d: int) -> char {
    if d == 0 {
        '0'
    } else if d == 1 {
        '1'
    } else if d == 2 {
        '2'
    } else if d == 3 {
        '3'
    } else if d == 4 {
        '4'
    } else if d == 5 {
        '5'
    } else if d == 6 {
        '6'
    } else if d == 7 {
        '7'
    } else if d == 8 {
        '8'
    } else {
        '9'
    }
}

/// The decimal rendering of a non-negative integer, most significant digit
/// first and without leading zeroes (a lone `0` for zero).
pub open spec fn decimal_of(n: int) -> Seq<char>
    recommends
        0 <= n,
    decreases n,
{
    if n < 10 {
        seq![digit_char(n)]
    } else {
        decimal_of(n / 10).push(digit_char(n % 10))
    }
}

/// Relies on the `Display` implementation of `usize`, which std documents to
/// format the value in base ten with no sign, padding or separators.
#[verifier::external_body]
fn decimal_string(n: usize) -> (r: String)
    ensures
        r@ == decimal_of(n as int),
{
    format!("{}", n)
}

/// The identifier handed out for the `seq`-th request of node `id`.
pub open spec fn unique_id(id: Seq<char>, n: int) -> Seq<char> {
    id + seq!['/'] + decimal_of(n)
}

/// Specification-level model of a [`UniqueIdsNode`].
pub struct UniqueIdsModel {
    /// The identifier of the node.
    pub id: Seq<char>,
    /// The last message identifier this node drew.
    pub counter: int,
}

/// The unique-ID state machine: the node name and the counter.
pub struct UniqueIdsNode {
    id: String,
    msg_id_counter: usize,
}

impl View for UniqueIdsNode {
    type V = UniqueIdsModel;

    closed spec fn view(&self) -> UniqueIdsModel {
        UniqueIdsModel { id: self.id@, counter: self.msg_id_counter as int }
    }
}

/// The transition on one inbound message: a `generate` request draws a fresh
/// message identifier and is answered with the identifier it determines;
/// everything else is absorbed.
pub open spec fn ids_step(m: UniqueIdsModel, msg: MessageModel<DataModel>) -> (UniqueIdsModel, Seq<
    MessageModel<DataModel>,
>) {
    match msg.body {
        PayloadModel::Custom(DataModel::Generate { msg_id }) => (
            UniqueIdsModel { id: m.id, counter: m.counter + 1 },
            seq![
                MessageModel {
                    src: msg.dest,
                    dest: msg.src,
                    body: PayloadModel::Custom(
                        DataModel::GenerateOk {
                            msg_id: m.counter + 1,
                            in_reply_to: msg_id,
                            id: unique_id(m.id, m.counter + 1),
                        },
                    ),
                },
            ],
        ),
        _ => (m, Seq::empty()),
    }
}

/// The transition on a whole batch, first message first.
pub open spec fn ids_steps(m: UniqueIdsModel, batch: Seq<MessageModel<DataModel>>) -> (
    UniqueIdsModel,
    Seq<MessageModel<DataModel>>,
)
    decreases batch.len(),
{
    if batch.len() == 0 {
        (m, Seq::empty())
    } else {
        let first = ids_step(m, batch.first());
        let rest = ids_steps(first.0, batch.drop_first());
        (rest.0, first.1 + rest.1)
    }
}

/// Whether the identifiers drawn while applying the batch stay within `usize`.
pub open spec fn ids_steps_fit(m: UniqueIdsModel, batch: Seq<MessageModel<DataModel>>) -> bool
    decreases batch.len(),
{
    batch.len() == 0 || {
        &&& ids_step(m, batch.first()).0.counter <= usize::MAX
        &&& ids_steps_fit(ids_step(m, batch.first()).0, batch.drop_first())
    }
}

/// Appending one message to a batch runs the batch, then that message.
pub proof fn lemma_ids_steps_snoc(
    m: UniqueIdsModel,
    batch: Seq<MessageModel<DataModel>>,
    x: MessageModel<DataModel>,
)
    ensures
        ids_steps(m, batch.push(x)).0 == ids_step(ids_steps(m, batch).0, x).0,
        ids_steps(m, batch.push(x)).1 == ids_steps(m, batch).1 + ids_step(
            ids_steps(m, batch).0,
            x,
        ).1,
    decreases batch.len(),
{
    let whole = batch.push(x);
    if batch.len() == 0 {
        assert(batch =~= Seq::<MessageModel<DataModel>>::empty());
        assert(ids_steps(m, batch) == (m, Seq::<MessageModel<DataModel>>::empty()));
        assert(whole.first() == x);
        assert(whole.drop_first() =~= Seq::<MessageModel<DataModel>>::empty());
        let first = ids_step(m, x);
        assert(ids_steps(first.0, whole.drop_first()) == (
            first.0,
            Seq::<MessageModel<DataModel>>::empty(),
        ));
        assert(ids_steps(m, whole).1 =~= first.1);
        assert(ids_steps(m, batch).1 + first.1 =~= first.1);
    } else {
        assert(whole.first() == batch.first());
        assert(whole.drop_first() =~= batch.drop_first().push(x));
        let mid = ids_step(m, batch.first());
        lemma_ids_steps_snoc(mid.0, batch.drop_first(), x);
        assert(mid.1 + (ids_steps(mid.0, batch.drop_first()).1 + ids_step(
            ids_steps(mid.0, batch.drop_first()).0,
            x,
        ).1) =~= (mid.1 + ids_steps(mid.0, batch.drop_first()).1) + ids_step(
            ids_steps(m, batch).0,
            x,
        ).1);
    }
}

impl UniqueIdsNode {
    /// A fresh unique-ID node whose counter has drawn no identifier yet.
    pub fn new(id: &str) -> (r: Self)
        ensures
            r@ == (UniqueIdsModel { id: id@, counter: 0 }),
    {
        UniqueIdsNode { id: String::from_str(id), msg_id_counter: 0 }
    }

    /// How many message identifiers this node has drawn so far.
    pub fn ids_drawn(&self) -> (r: usize)
        ensures
            r as int == self@.counter,
    {
        self.msg_id_counter
    }
}

impl StateMachine<Data> for UniqueIdsNode {
    open spec fn wf(m: UniqueIdsModel) -> bool {
        0 <= m.counter
    }

    open spec fn batch_model(m: UniqueIdsModel, batch: Seq<MessageModel<DataModel>>) -> (
        UniqueIdsModel,
        Seq<MessageModel<DataModel>>,
    ) {
        ids_steps(m, batch)
    }

    open spec fn batch_fits(m: UniqueIdsModel, batch: Seq<MessageModel<DataModel>>) -> bool {
        ids_steps_fit(m, batch)
    }

    fn apply(&mut self, messages: Vec<Message<Data>>) -> (r: Result<
        Vec<Message<Data>>,
        MessageError,
    >) {
        let ghost batch = models_of(messages@);
        let ghost start = self@;
        let mut responses: Vec<Message<Data>> = Vec::new();
        let mut i: usize = 0;
        proof {
            assert(batch.skip(0) =~= batch);
            assert(batch.take(0) =~= Seq::<MessageModel<DataModel>>::empty());
            assert(ids_steps(start, batch.take(0)) == (
                start,
                Seq::<MessageModel<DataModel>>::empty(),
            ));
            assert(models_of(responses@) =~= Seq::<MessageModel<DataModel>>::empty());
        }
        while i < messages.len()
            invariant
                i <= messages@.len(),
                batch == models_of(messages@),
                self@.id == start.id,
                self@ == ids_steps(start, batch.take(i as int)).0,
                models_of(responses@) == ids_steps(start, batch.take(i as int)).1,
                ids_steps_fit(self@, batch.skip(i as int)),
            decreases messages@.len() - i,
        {
            let ghost pre = self@;
            let ghost done = batch.take(i as int);
            proof {
                assert(batch.skip(i as int).first() == batch[i as int]);
                assert(batch.skip(i as int).drop_first() =~= batch.skip(i as int + 1));
                assert(messages@[i as int]@ == batch[i as int]);
            }
            let m = &messages[i];
            match &m.body {
                Payload::Custom(Data::Generate { msg_id }) => {
                    self.msg_id_counter = self.msg_id_counter + 1;
                    let num = decimal_string(self.msg_id_counter);
                    let mut uid = self.id.clone();
                    uid.append("/");
                    uid.append(num.as_str());
                    proof {
                        reveal_strlit("/");
                        assert(("/")@ =~= seq!['/']);
                        assert(uid@ == unique_id(pre.id, pre.counter + 1));
                    }
                    let resp = Message {
                        src: m.dest.clone(),
                        dest: m.src.clone(),
                        body: Payload::Custom(
                            Data::GenerateOk {
                                msg_id: self.msg_id_counter,
                                in_reply_to: *msg_id,
                                id: uid,
                            },
                        ),
                    };
                    let ghost before = models_of(responses@);
                    let ghost mm = resp@;
                    responses.push(resp);
                    proof {
                        assert(models_of(responses@) =~= before.push(mm));
                        assert(models_of(responses@) =~= ids_steps(start, done).1 + ids_step(
                            pre,
                            batch[i as int],
                        ).1);
                    }
                },
                _ => {
                    proof {
                        assert(models_of(responses@) =~= ids_steps(start, done).1 + ids_step(
                            pre,
                            batch[i as int],
                        ).1);
                    }
                },
            }
            proof {
                lemma_ids_steps_snoc(start, done, batch[i as int]);
                assert(done.push(batch[i as int]) =~= batch.take(i as int + 1));
            }
            i = i + 1;
        }
        proof {
            assert(batch.take(messages@.len() as int) =~= batch);
        }
        Ok(responses)
    }
}

} // verus!
