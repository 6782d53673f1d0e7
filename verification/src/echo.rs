//! The echo node: a stateless request/response machine that answers every
//! `echo` request with an `echo_ok` carrying the same text back.

use vstd::prelude::*;
use crate::message::{models_of, Message, MessageError, MessageModel, Payload, PayloadModel};
use crate::node::StateMachine;

verus! {

/// The application payloads of the echo node.
pub enum Data {
    Echo { msg_id: usize, echo: String },
    EchoOk { msg_id: usize, in_reply_to: usize, echo: String },
}

/// Specification-level model of [`Data`].
pub enum DataModel {
    Echo { msg_id: int, echo: Seq<char> },
    EchoOk { msg_id: int, in_reply_to: int, echo: Seq<char> },
}

impl View for Data {
    type V = DataModel;

    open spec fn view(&self) -> DataModel {
        match self {
            Data::Echo { msg_id, echo } => DataModel::Echo {
                msg_id: *msg_id as int,
                echo: echo@,
            },
            Data::EchoOk { msg_id, in_reply_to, echo } => DataModel::EchoOk {
                msg_id: *msg_id as int,
                in_reply_to: *in_reply_to as int,
                echo: echo@,
            },
        }
    }
}

/// Specification-level model of an [`EchoNode`]: only the message counter.
pub struct EchoModel {
    /// The last message identifier this node drew.
    pub counter: int,
}

/// The echo state machine: nothing but the message identifier counter.
pub struct EchoNode {
    msg_id_counter: usize,
}

impl View for EchoNode {
    type V = EchoModel;

    closed spec fn view(&self) -> EchoModel {
        EchoModel { counter: self.msg_id_counter as int }
    }
}

/// The transition on one inbound message: an `echo` request draws a fresh
/// message identifier and is answered in kind; everything else is absorbed.
pub open spec fn echo_step(m: EchoModel, msg: MessageModel<DataModel>) -> (EchoModel, Seq<
    MessageModel<DataModel>,
>) {
    match msg.body {
        PayloadModel::Custom(DataModel::Echo { msg_id, echo }) => (
            EchoModel { counter: m.counter + 1 },
            seq![
                MessageModel {
                    src: msg.dest,
                    dest: msg.src,
                    body: PayloadModel::Custom(
                        DataModel::EchoOk { msg_id: m.counter + 1, in_reply_to: msg_id, echo },
                    ),
                },
            ],
        ),
        _ => (m, Seq::empty()),
    }
}

/// The transition on a whole batch, first message first.
pub open spec fn echo_steps(m: EchoModel, batch: Seq<MessageModel<DataModel>>) -> (EchoModel, Seq<
    MessageModel<DataModel>,
>)
    decreases batch.len(),
{
    if batch.len() == 0 {
        (m, Seq::empty())
    } else {
        let first = echo_step(m, batch.first());
        let rest = echo_steps(first.0, batch.drop_first());
        (rest.0, first.1 + rest.1)
    }
}

/// Whether the identifiers drawn while applying the batch stay within `usize`.
pub open spec fn echo_steps_fit(m: EchoModel, batch: Seq<MessageModel<DataModel>>) -> bool
    decreases batch.len(),
{
    batch.len() == 0 || {
        &&& echo_step(m, batch.first()).0.counter <= usize::MAX
        &&& echo_steps_fit(echo_step(m, batch.first()).0, batch.drop_first())
    }
}

/// Appending one message to a batch runs the batch, then that message.
pub proof fn lemma_echo_steps_snoc(
    m: EchoModel,
    batch: Seq<MessageModel<DataModel>>,
    x: MessageModel<DataModel>,
)
    ensures
        echo_steps(m, batch.push(x)).0 == echo_step(echo_steps(m, batch).0, x).0,
        echo_steps(m, batch.push(x)).1 == echo_steps(m, batch).1 + echo_step(
            echo_steps(m, batch).0,
            x,
        ).1,
    decreases batch.len(),
{
    let whole = batch.push(x);
    if batch.len() == 0 {
        assert(batch =~= Seq::<MessageModel<DataModel>>::empty());
        assert(echo_steps(m, batch) == (m, Seq::<MessageModel<DataModel>>::empty()));
        assert(whole.first() == x);
        assert(whole.drop_first() =~= Seq::<MessageModel<DataModel>>::empty());
        let first = echo_step(m, x);
        assert(echo_steps(first.0, whole.drop_first()) == (
            first.0,
            Seq::<MessageModel<DataModel>>::empty(),
        ));
        assert(echo_steps(m, whole).1 =~= first.1);
        assert(echo_steps(m, batch).1 + first.1 =~= first.1);
    } else {
        assert(whole.first() == batch.first());
        assert(whole.drop_first() =~= batch.drop_first().push(x));
        let mid = echo_step(m, batch.first());
        lemma_echo_steps_snoc(mid.0, batch.drop_first(), x);
        assert(mid.1 + (echo_steps(mid.0, batch.drop_first()).1 + echo_step(
            echo_steps(mid.0, batch.drop_first()).0,
            x,
        ).1) =~= (mid.1 + echo_steps(mid.0, batch.drop_first()).1) + echo_step(
            echo_steps(m, batch).0,
            x,
        ).1);
    }
}

impl EchoNode {
    /// A fresh echo node whose counter has drawn no identifier yet.
    pub fn new() -> (r: Self)
        ensures
            r@ == (EchoModel { counter: 0 }),
    {
        let msg_id_counter: usize = 0;
        EchoNode { msg_id_counter }
    }

    /// How many message identifiers this node has drawn so far.
    pub fn ids_drawn(&self) -> (r: usize)
        ensures
            r as int == self@.counter,
    {
        self.msg_id_counter
    }
}

impl StateMachine<Data> for EchoNode {
    open spec fn wf(m: EchoModel) -> bool {
        0 <= m.counter
    }

    open spec fn batch_model(m: EchoModel, batch: Seq<MessageModel<DataModel>>) -> (EchoModel, Seq<
        MessageModel<DataModel>,
    >) {
        echo_steps(m, batch)
    }

    open spec fn batch_fits(m: EchoModel, batch: Seq<MessageModel<DataModel>>) -> bool {
        echo_steps_fit(m, batch)
    }

    fn apply(&mut self, messages: Vec<Message<Data>>) -> (r: Result<
        Vec<Message<Data>>,
        MessageError,
    >) {
        let ghost batch = models_of(messages@);
        let ghost start = self@;
        let mut responses: Vec<Message<Data>> = Vec::new();
        let mut i: usize = 0;
        proof {
            assert(batch.skip(0) =~= batch);
            assert(batch.take(0) =~= Seq::<MessageModel<DataModel>>::empty());
            assert(echo_steps(start, batch.take(0)) == (
                start,
                Seq::<MessageModel<DataModel>>::empty(),
            ));
            assert(models_of(responses@) =~= Seq::<MessageModel<DataModel>>::empty());
        }
        while i < messages.len()
            invariant
                i <= messages@.len(),
                batch == models_of(messages@),
                self@ == echo_steps(start, batch.take(i as int)).0,
                models_of(responses@) == echo_steps(start, batch.take(i as int)).1,
                echo_steps_fit(self@, batch.skip(i as int)),
            decreases messages@.len() - i,
        {
            let ghost pre = self@;
            let ghost done = batch.take(i as int);
            assert(batch.skip(i as int).first() == batch[i as int]);
            assert(batch.skip(i as int).drop_first() =~= batch.skip(i as int + 1));
            let m = &messages[i];
            assert(m@ == batch[i as int]);
            match &m.body {
                Payload::Custom(Data::Echo { msg_id, echo }) => {
                    self.msg_id_counter = self.msg_id_counter + 1;
                    let resp = Message {
                        src: m.dest.clone(),
                        dest: m.src.clone(),
                        body: Payload::Custom(
                            Data::EchoOk {
                                msg_id: self.msg_id_counter,
                                in_reply_to: *msg_id,
                                echo: echo.clone(),
                            },
                        ),
                    };
                    responses.push(resp);
                    proof {
                        assert(models_of(responses@) =~= echo_steps(start, done).1 + echo_step(
                            pre,
                            batch[i as int],
                        ).1);
                    }
                },
                _ => {
                    proof {
                        assert(models_of(responses@) =~= echo_steps(start, done).1 + echo_step(
                            pre,
                            batch[i as int],
                        ).1);
                    }
                },
            }
            proof {
                lemma_echo_steps_snoc(start, done, batch[i as int]);
                assert(done.push(batch[i as int]) =~= batch.take(i as int + 1));
            }
            i = i + 1;
        }
        proof {
            assert(batch.take(messages@.len() as int) =~= batch);
        }
        Ok(responses)
    }
}

} // verus!
