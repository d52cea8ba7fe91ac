//! The handler of the requests that the nodes of a DAG send one another:
//! which requests are taken, and who answers them.

use crate::network::rpc_error::RpcError;
use std::sync::Arc;
use vstd::prelude::*;
use vstd::string::*;

verus! {

/// The parts of the handler: the state of the epoch, the channel on which
/// requests come in, and the three receivers that answer them.
pub struct NetworkHandler<E, R, N, D, F> {
    epoch_state: Arc<E>,
    dag_rpc_rx: R,
    node_receiver: N,
    dag_driver: D,
    fetch_receiver: F,
}

/// The kinds of message that a request can carry.
#[derive(Clone, Copy, Debug, PartialEq, Eq, Structural)]
pub enum DagMessageKind {
    NodeMsg,
    CertifiedNodeMsg,
    FetchRequest,
    /// Any message that is no request.
    Other,
}

/// The receiver that answers a request.
#[derive(Clone, Copy, Debug, PartialEq, Eq, Structural)]
pub enum RpcReceiver {
    NodeReceiver,
    DagDriver,
    FetchReceiver,
}

/// What is done with a request.
#[derive(Clone, Copy, Debug, PartialEq, Eq, Structural)]
pub enum RpcDecision {
    /// The request is dropped without an answer: it could not be read as a message.
    DropUnreadable,
    /// The request is dropped without an answer: its message names no author.
    DropUnexpected,
    /// The request is dropped without an answer: the author that its
    /// message names is not the node that sent it.
    DropAuthorMismatch,
    /// The message is verified and handed to the receiver, and the requester
    /// gets the answer of the receiver, or the error.
    Dispatch(RpcReceiver),
    /// The requester is told that the message is unknown.
    AnswerUnknown,
}

/// What follows the verification of a message.
#[derive(Clone, Copy, Debug, PartialEq, Eq, Structural)]
pub enum RpcStep {
    /// The message is handed to the receiver.
    Process(RpcReceiver),
    /// No receiver sees the message; the requester is told of the failure.
    RespondError,
}

/// The response to a request could not be sent.
#[derive(Clone, Copy, Debug, PartialEq, Eq, Structural)]
pub struct UnableToRespond;

impl UnableToRespond {
    /// The text of the error.
    pub fn message(&self) -> (text: &'static str)
        ensures
            text@ == "unable to respond to rpc"@,
    {
        "unable to respond to rpc"
    }
}

impl RpcDecision {
    /// Whether the requester gets a response: one response, be it the
    /// answer or an error, for a request that is dispatched or whose message
    /// is unknown, and none for a request that is dropped.
    pub fn responds(&self) -> (responds: bool)
        ensures
            responds == (*self is Dispatch || *self is AnswerUnknown),
    {
        match self {
            RpcDecision::Dispatch(_) => true,
            RpcDecision::AnswerUnknown => true,
            _ => false,
        }
    }

    /// The text of the error that the decision stands for, or `None` where
    /// the request is dispatched or fails with the error of its own
    /// reading. The text for a message without an author is followed by what
    /// the message is.
    pub fn error_text(&self) -> (text: Option<&'static str>)
        ensures
            match *self {
                RpcDecision::DropUnexpected => text matches Some(t) && t@
                    == "unexpected rpc message"@,
                RpcDecision::DropAuthorMismatch => text matches Some(t) && t@
                    == "message author and network author mismatch"@,
                RpcDecision::AnswerUnknown => text matches Some(t) && t@ == "unknown rpc message"@,
                RpcDecision::DropUnreadable => text is None,
                RpcDecision::Dispatch(_) => text is None,
            },
    {
        match self {
            RpcDecision::DropUnexpected => Some("unexpected rpc message"),
            RpcDecision::DropAuthorMismatch => Some("message author and network author mismatch"),
            RpcDecision::AnswerUnknown => Some("unknown rpc message"),
            RpcDecision::DropUnreadable => None,
            RpcDecision::Dispatch(_) => None,
        }
    }
}

/// What follows the verification of a message that goes to `receiver`: the
/// receiver gets the message only where it is verified.
pub fn after_verification(receiver: RpcReceiver, verified: bool) -> (step: RpcStep)
    ensures
        step == (if verified {
            RpcStep::Process(receiver)
        } else {
            RpcStep::RespondError
        }),
{
    if verified {
        RpcStep::Process(receiver)
    } else {
        RpcStep::RespondError
    }
}

/// The response that the requester gets: the bytes of the answer where the
/// message was verified, handled and the answer written out, and an error
/// of the application with what went wrong otherwise.
pub fn response_of(handled: Result<Vec<u8>, anyhow::Error>) -> (response: Result<Vec<u8>, RpcError>)
    ensures
        match handled {
            Ok(bytes) => response matches Ok(sent) && sent == bytes,
            Err(error) => response matches Err(RpcError::ApplicationError(e)) && e == error,
        },
{
    match handled {
        Ok(bytes) => Ok(bytes),
        Err(error) => Err(RpcError::ApplicationError(error)),
    }
}

/// How the handling of a request ends once the response was handed to the
/// channel: well where it was sent, whatever the response was, and with an
/// error where it was not.
pub fn rpc_outcome(sent: bool) -> (result: Result<(), UnableToRespond>)
    ensures
        result is Ok <==> sent,
{
    if sent {
        Ok(())
    } else {
        Err(UnableToRespond)
    }
}

/// Whether two byte strings are the same.
pub fn same_bytes(a: &[u8], b: &[u8]) -> (same: bool)
    ensures
        same == (a@ == b@),
{
    if a.len() != b.len() {
        return false;
    }
    let mut i: usize = 0;
    while i < a.len()
        invariant
            i <= a.len() == b.len(),
            forall|k: int| 0 <= k < i ==> a[k] == b[k],
        decreases a.len() - i,
    {
        if a[i] != b[i] {
            return false;
        }
        i += 1;
    }
    assert(a@ =~= b@);
    true
}

/// What is done with a request that the node `sender` sent: `kind` is the
/// kind of its message, or `None` where the request could not be read as a
/// message, and `author` is the author that the message names.
pub open spec fn decide(
    kind: Option<DagMessageKind>,
    author: Option<Seq<u8>>,
    sender: Seq<u8>,
) -> RpcDecision {
    if kind is None {
        RpcDecision::DropUnreadable
    } else {
        decide_message(kind->0, author, sender)
    }
}

/// What is done with a request whose message is of kind `kind` and names
/// `author`, where the node `sender` sent it.
pub open spec fn decide_message(
    kind: DagMessageKind,
    author: Option<Seq<u8>>,
    sender: Seq<u8>,
) -> RpcDecision {
    match author {
        None => RpcDecision::DropUnexpected,
        Some(a) => if a != sender {
            RpcDecision::DropAuthorMismatch
        } else {
            match kind {
                DagMessageKind::NodeMsg => RpcDecision::Dispatch(RpcReceiver::NodeReceiver),
                DagMessageKind::CertifiedNodeMsg => RpcDecision::Dispatch(RpcReceiver::DagDriver),
                DagMessageKind::FetchRequest => RpcDecision::Dispatch(RpcReceiver::FetchReceiver),
                DagMessageKind::Other => RpcDecision::AnswerUnknown,
            }
        },
    }
}

impl<E, R, N, D, F> NetworkHandler<E, R, N, D, F> {
    pub closed spec fn epoch_state(&self) -> Arc<E> {
        self.epoch_state
    }

    pub closed spec fn receivers(&self) -> (N, D, F) {
        (self.node_receiver, self.dag_driver, self.fetch_receiver)
    }

    pub closed spec fn requests(&self) -> R {
        self.dag_rpc_rx
    }

    /// A handler made of its parts.
    pub fn new(
        epoch_state: Arc<E>,
        dag_rpc_rx: R,
        node_receiver: N,
        dag_driver: D,
        fetch_receiver: F,
    ) -> (handler: Self)
        ensures
            handler.epoch_state() == epoch_state,
            handler.requests() == dag_rpc_rx,
            handler.receivers() == (node_receiver, dag_driver, fetch_receiver),
    {
        Self { epoch_state, dag_rpc_rx, node_receiver, dag_driver, fetch_receiver }
    }

    /// The parts of the handler, to run it.
    pub fn into_parts(self) -> (parts: (Arc<E>, R, N, D, F))
        ensures
            parts.0 == self.epoch_state(),
            parts.1 == self.requests(),
            (parts.2, parts.3, parts.4) == self.receivers(),
    {
        (self.epoch_state, self.dag_rpc_rx, self.node_receiver, self.dag_driver, self.fetch_receiver)
    }

    /// What is done with a request: see [`decide`].
    pub fn process_rpc(kind: Option<DagMessageKind>, author: Option<&[u8]>, sender: &[u8]) -> (decision:
        RpcDecision)
        ensures
            decision == decide(
                kind,
                match author {
                    Some(a) => Some(a@),
                    None => None,
                },
                sender@,
            ),
    {
        let kind = match kind {
            Some(kind) => kind,
            None => {
                return RpcDecision::DropUnreadable;
            },
        };
        match author {
            None => RpcDecision::DropUnexpected,
            Some(a) => {
                if !same_bytes(a, sender) {
                    RpcDecision::DropAuthorMismatch
                } else {
                    match kind {
                        DagMessageKind::NodeMsg => RpcDecision::Dispatch(RpcReceiver::NodeReceiver),
                        DagMessageKind::CertifiedNodeMsg => RpcDecision::Dispatch(
                            RpcReceiver::DagDriver,
                        ),
                        DagMessageKind::FetchRequest => RpcDecision::Dispatch(
                            RpcReceiver::FetchReceiver,
                        ),
                        DagMessageKind::Other => RpcDecision::AnswerUnknown,
                    }
                }
            },
        }
    }
}

} // verus!
