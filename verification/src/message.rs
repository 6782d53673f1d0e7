//! The RPC messages exchanged between a node, its peers and the clients, and
//! their specification-level models.
//!
//! A [`Message`] carries a source node identifier, a destination node
//! identifier and a [`Payload`].  The payload is either one of the lifecycle
//! bodies every node understands (`Init`, `InitOk`, `Error`) or an
//! application-specific body of type `T`.  Contracts throughout the crate
//! speak of [`MessageModel`], the mathematical image of a message: node
//! identifiers become character sequences, integer fields become `int`, and
//! the custom body becomes its own model type `T::V`.

use vstd::prelude::*;

verus! {

/// Specification-level model of a [`Message`].
pub struct MessageModel<B> {
    /// The identifier of the node the message comes from.
    pub src: Seq<char>,
    /// The identifier of the node this message is to.
    pub dest: Seq<char>,
    /// The model of the payload.
    pub body: PayloadModel<B>,
}

/// Specification-level model of a [`Payload`].
pub enum PayloadModel<B> {
    Init { msg_id: int, node_id: Seq<char>, node_ids: Seq<Seq<char>> },
    InitOk { in_reply_to: int },
    Error { in_reply_to: int, code: int, text: Option<Seq<char>> },
    Custom(B),
}

/// The RPC messages exchanged between the cluster's nodes and clients.
pub struct Message<T> {
    /// The node the message comes from.
    pub src: String,
    /// The node this message is to.
    pub dest: String,
    /// The payload of the message.
    pub body: Payload<T>,
}

/// The body of a [`Message`]: a lifecycle body or an application body `T`.
pub enum Payload<T> {
    Init {
        /// The unique integer ID from the sender.
        msg_id: usize,
        /// The ID of the node that receives this message.
        node_id: String,
        /// All nodes in the cluster including the node receiving the message.
        node_ids: Vec<String>,
    },
    InitOk {
        /// The msg_id of the request.
        in_reply_to: usize,
    },
    Error {
        /// The msg_id of the request.
        in_reply_to: usize,
        /// The error code.
        code: usize,
        /// The optional text explaining the error.
        text: Option<String>,
    },
    Custom(T),
}

impl<T: View> View for Payload<T> {
    type V = PayloadModel<T::V>;

    open spec fn view(&self) -> PayloadModel<T::V> {
        match self {
            Payload::Init { msg_id, node_id, node_ids } => PayloadModel::Init {
                msg_id: *msg_id as int,
                node_id: node_id@,
                node_ids: node_ids.deep_view(),
            },
            Payload::InitOk { in_reply_to } => PayloadModel::InitOk {
                in_reply_to: *in_reply_to as int,
            },
            Payload::Error { in_reply_to, code, text } => PayloadModel::Error {
                in_reply_to: *in_reply_to as int,
                code: *code as int,
                text: match text {
                    Option::Some(t) => Option::Some(t@),
                    Option::None => Option::None,
                },
            },
            Payload::Custom(data) => PayloadModel::Custom(data@),
        }
    }
}

impl<T: View> View for Message<T> {
    type V = MessageModel<T::V>;

    open spec fn view(&self) -> MessageModel<T::V> {
        MessageModel { src: self.src@, dest: self.dest@, body: self.body@ }
    }
}

/// The models of a sequence of messages, element by element.
pub open spec fn models_of<T: View>(s: Seq<Message<T>>) -> Seq<MessageModel<T::V>> {
    s.map_values(|m: Message<T>| m@)
}

/// The error a node reports for a request it cannot act on.
#[derive(Debug, Clone, Copy, PartialEq, Eq, Structural)]
pub enum MessageError {
    /// The message's payload does not fit the request the node expected.
    Invalid,
}

impl MessageError {
    /// A human-readable description of the error.
    pub fn describe(&self) -> (r: String)
        ensures
            r@ == "invalid message"@,
    {
        String::from_str("invalid message")
    }
}

} // verus!
