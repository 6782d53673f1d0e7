//! The generic node shell: a node identity, the cluster peer list, and a
//! pluggable state machine that gives the node its behaviour.
//!
//! A [`Node`] is built once from the lifecycle `Init` message, which assigns
//! the node its identifier and the peer list.  After that, every batch of
//! inbound messages is handed to [`Node::recv_messages`], which forwards it to
//! the application's [`StateMachine`] and returns the replies the machine
//! emits.

use vstd::prelude::*;
use crate::message::{models_of, Message, MessageError, MessageModel, Payload, PayloadModel};

verus! {

/// How messages affect a node's application state.
///
/// An implementation supplies a mathematical model of its state (its [`View`])
/// together with three specification functions: the well-formedness invariant
/// of the model, the transition the model takes on a whole batch of inbound
/// messages, and the arithmetic bound under which that transition stays within
/// machine integers.  The executable [`StateMachine::apply`] is then pinned to
/// the model transition: the state after the call and the emitted replies are
/// exactly those of `batch_model`.
pub trait StateMachine<T: View>: Sized + View {
    /// Well-formedness of a model state.
    spec fn wf(m: Self::V) -> bool;

    /// The model transition on a batch: the state after the batch and the
    /// sequence of emitted messages, in emission order.
    spec fn batch_model(m: Self::V, batch: Seq<MessageModel<T::V>>) -> (Self::V, Seq<
        MessageModel<T::V>,
    >);

    /// Whether every message identifier drawn while applying the batch stays
    /// within `usize`.
    spec fn batch_fits(m: Self::V, batch: Seq<MessageModel<T::V>>) -> bool;

    /// Applies one batch of inbound messages to the state and returns the
    /// emitted replies.
    fn apply(&mut self, messages: Vec<Message<T>>) -> (r: Result<Vec<Message<T>>, MessageError>)
        requires
            Self::wf(old(self)@),
            Self::batch_fits(old(self)@, models_of(messages@)),
        ensures
            Self::wf(final(self)@),
            r is Ok,
            final(self)@ == Self::batch_model(old(self)@, models_of(messages@)).0,
            models_of(r->Ok_0@) == Self::batch_model(old(self)@, models_of(messages@)).1,
    ;
}

/// Specification-level model of a [`Node`].
pub struct NodeModel<M> {
    /// The identifier of the node.
    pub id: Seq<char>,
    /// The identifiers of all nodes in the cluster, including this one.
    pub peers: Seq<Seq<char>>,
    /// The model of the application state machine.
    pub machine: M,
}

/// A cluster node: an identity, the peer list, and the application state.
pub struct Node<T, S> {
    /// The ID of the node.
    id: String,
    /// The nodes in the cluster including itself.
    peers: Vec<String>,
    /// The business state of the application.
    state_machine: S,
    /// The application's payload type only occurs inside messages.
    payload: core::marker::PhantomData<T>,
}

impl<T: View, S: StateMachine<T>> View for Node<T, S> {
    type V = NodeModel<S::V>;

    closed spec fn view(&self) -> NodeModel<S::V> {
        NodeModel { id: self.id@, peers: self.peers.deep_view(), machine: self.state_machine@ }
    }
}

impl<T: View, S: StateMachine<T>> Node<T, S> {
    /// Initializes the node from an `Init` message, returning the node and
    /// the `InitOk` response; any other message is rejected.
    pub fn init(message: Message<T>, state_machine: S) -> (r: Result<
        (Self, Message<T>),
        MessageError,
    >)
        ensures
            match message@.body {
                PayloadModel::Init { msg_id, node_id, node_ids } => {
                    &&& r is Ok
                    &&& (r->Ok_0).0@ == (NodeModel {
                        id: node_id,
                        peers: node_ids,
                        machine: state_machine@,
                    })
                    &&& (r->Ok_0).1@ == (MessageModel::<T::V> {
                        src: message@.dest,
                        dest: message@.src,
                        body: PayloadModel::InitOk { in_reply_to: msg_id },
                    })
                },
                _ => r is Err && r->Err_0 == MessageError::Invalid,
            },
    {
        if let Payload::Init { msg_id, node_id, node_ids } = message.body {
            let node = Node {
                id: node_id,
                peers: node_ids,
                state_machine,
                payload: core::marker::PhantomData,
            };
            let resp = Message {
                src: message.dest,
                dest: message.src,
                body: Payload::InitOk { in_reply_to: msg_id },
            };
            Ok((node, resp))
        } else {
            Err(MessageError::Invalid)
        }
    }

    /// Applies a batch of inbound messages to the application state machine
    /// and returns the emitted replies; the node's identity and peer list are
    /// untouched.
    pub fn recv_messages(&mut self, messages: Vec<Message<T>>) -> (r: Result<
        Vec<Message<T>>,
        MessageError,
    >)
        requires
            S::wf(old(self)@.machine),
            S::batch_fits(old(self)@.machine, models_of(messages@)),
        ensures
            final(self)@.id == old(self)@.id,
            final(self)@.peers == old(self)@.peers,
            S::wf(final(self)@.machine),
            r is Ok,
            final(self)@.machine == S::batch_model(old(self)@.machine, models_of(messages@)).0,
            models_of(r->Ok_0@) == S::batch_model(old(self)@.machine, models_of(messages@)).1,
    {
        self.state_machine.apply(messages)
    }

    /// Hands the application state machine back, consuming the node shell;
    /// used by drivers that must reach machine-specific operations such as
    /// the broadcast retry tick.
    pub fn into_machine(self) -> (r: S)
        ensures
            r@ == self@.machine,
    {
        self.state_machine
    }
}

} // verus!
