//! The errors of remote procedure calls, and what the errors of the layers
//! below turn into.

use crate::decimal::{decimal, push_decimal};
use vstd::prelude::*;
use vstd::std_specs::convert::FromSpecImpl;
use vstd::string::*;

verus! {

/// The error type of `anyhow`: any error, with its context. Nothing is
/// claimed of what such a value holds.
#[verifier::external_type_specification]
#[verifier::external_body]
pub struct ExAnyhowError(anyhow::Error);

/// The error type of input and output in the standard library. Nothing is
/// claimed of what such a value holds.
#[verifier::external_type_specification]
#[verifier::external_body]
pub struct ExIoError(std::io::Error);

/// The error type of `bcs`, for values that cannot be encoded or decoded.
/// Nothing is claimed of what such a value holds.
#[verifier::external_type_specification]
#[verifier::external_body]
pub struct ExBcsError(bcs::Error);

/// The error of `futures` for a send on a channel that is full or
/// disconnected. Nothing is claimed of what such a value holds.
#[verifier::external_type_specification]
#[verifier::external_body]
pub struct ExMpscSendError(futures::channel::mpsc::SendError);

/// The error of `futures` for a one-shot channel whose sender was dropped.
#[verifier::external_type_specification]
#[verifier::external_body]
pub struct ExCanceled(futures::channel::oneshot::Canceled);

/// The error of `tokio` for a deadline that passed.
#[verifier::external_type_specification]
#[verifier::external_body]
pub struct ExElapsed(tokio::time::error::Elapsed);

/// The error of `tokio` for a send on a closed channel; it holds the value
/// that could not be sent.
#[verifier::external_type_specification]
#[verifier::external_body]
#[verifier::reject_recursive_types(T)]
pub struct ExTokioSendError<T>(tokio::sync::mpsc::error::SendError<T>);

/// The error of `tokio` for a task that failed to run to its end. Nothing is
/// claimed of what such a value holds.
#[verifier::external_type_specification]
#[verifier::external_body]
pub struct ExJoinError(tokio::task::JoinError);

/// The identity of a peer.
#[derive(Clone, Copy, Debug, PartialEq, Eq)]
pub struct PeerId(pub [u8; 32]);

/// What can go wrong with a remote procedure call.
#[derive(Debug)]
pub enum RpcError {
    /// Any other error.
    Error(anyhow::Error),
    /// An error of input or output.
    IoError(std::io::Error),
    /// A message could not be encoded or decoded.
    BcsError(bcs::Error),
    /// There is no connection with the peer.
    NotConnected(PeerId),
    /// The response to a call was no valid message.
    InvalidRpcResponse,
    /// The application dropped the channel on which it was to respond.
    UnexpectedResponseChannelCancel,
    /// The application failed to handle the request.
    ApplicationError(anyhow::Error),
    /// A send on a channel failed; the connection is likely shutting down.
    MpscSendError(futures::channel::mpsc::SendError),
    /// A send on a channel of the runtime failed; the connection is likely shutting down.
    TokioMpscSendError,
    /// Too many calls are pending: so many.
    TooManyPending(u32),
    /// The call timed out.
    TimedOut,
    /// The runtime failed.
    TokioJoinError,
}

/// Shows the failure of a task.
///
/// The body formats the `tokio::task::JoinError` with its `Debug` impl.
/// Nothing is claimed of the text.
#[verifier::external_body]
fn show_join_error(err: &tokio::task::JoinError) -> (text: String) {
    format!("{:?}", err)
}

/// Makes an error of a text.
///
/// The body calls `anyhow::Error::msg` on the text. Nothing is claimed of
/// the error.
#[verifier::external_body]
fn report_of(text: String) -> (report: anyhow::Error) {
    anyhow::Error::msg(text)
}

/// The text of the report on the failure of a task, where `shown` is what
/// the failure shows of itself.
pub fn join_error_text(shown: &str) -> (text: String)
    ensures
        text@ == "JoinError: "@ + shown@,
{
    String::from_str("JoinError: ").concat(shown)
}

/// Shows an error of any kind in full.
///
/// The body formats the `anyhow::Error` with its `Debug` impl. Nothing is
/// claimed of the text.
#[verifier::external_body]
fn show_anyhow(err: &anyhow::Error) -> (text: String) {
    format!("{:?}", err)
}

/// Describes an error of input or output.
///
/// The body formats the `std::io::Error` with its `Display` impl. Nothing is
/// claimed of the text.
#[verifier::external_body]
fn describe_io(err: &std::io::Error) -> (text: String) {
    format!("{}", err)
}

/// Shows an error of encoding or decoding.
///
/// The body formats the `bcs::Error` with its `Debug` impl. Nothing is
/// claimed of the text.
#[verifier::external_body]
fn show_bcs(err: &bcs::Error) -> (text: String) {
    format!("{:?}", err)
}

/// Shows the error of a send on a channel.
///
/// The body formats the `futures::channel::mpsc::SendError` with its `Debug`
/// impl. Nothing is claimed of the text.
#[verifier::external_body]
fn show_send_error(err: &futures::channel::mpsc::SendError) -> (text: String) {
    format!("{:?}", err)
}

/// The character of a hexadecimal digit, in lower case.
pub open spec fn hex_char(d: nat) -> char {
    if d == 0 {
        '0'
    } else if d == 1 {
        '1'
    } else if d == 2 {
        '2'
    } else if d == 3 {
        '3'
    } else if d == 4 {
        '4'
    } else if d == 5 {
        '5'
    } else if d == 6 {
        '6'
    } else if d == 7 {
        '7'
    } else if d == 8 {
        '8'
    } else if d == 9 {
        '9'
    } else if d == 10 {
        'a'
    } else if d == 11 {
        'b'
    } else if d == 12 {
        'c'
    } else if d == 13 {
        'd'
    } else if d == 14 {
        'e'
    } else {
        'f'
    }
}

/// Bytes in hexadecimal notation: two digits for each byte, in lower case.
pub open spec fn hex(bytes: Seq<u8>) -> Seq<char>
    decreases bytes.len(),
{
    if bytes.len() == 0 {
        Seq::empty()
    } else {
        hex(bytes.drop_last()).push(hex_char((bytes.last() / 16) as nat)).push(
            hex_char((bytes.last() % 16) as nat),
        )
    }
}

/// The one-character text of a hexadecimal digit.
fn hex_digit_text(d: u8) -> (text: &'static str)
    requires
        d < 16,
    ensures
        text@ == seq![hex_char(d as nat)],
{
    proof {
        reveal_strlit("0");
        reveal_strlit("1");
        reveal_strlit("2");
        reveal_strlit("3");
        reveal_strlit("4");
        reveal_strlit("5");
        reveal_strlit("6");
        reveal_strlit("7");
        reveal_strlit("8");
        reveal_strlit("9");
        reveal_strlit("a");
        reveal_strlit("b");
        reveal_strlit("c");
        reveal_strlit("d");
        reveal_strlit("e");
        reveal_strlit("f");
    }
    let text = if d == 0 {
        "0"
    } else if d == 1 {
        "1"
    } else if d == 2 {
        "2"
    } else if d == 3 {
        "3"
    } else if d == 4 {
        "4"
    } else if d == 5 {
        "5"
    } else if d == 6 {
        "6"
    } else if d == 7 {
        "7"
    } else if d == 8 {
        "8"
    } else if d == 9 {
        "9"
    } else if d == 10 {
        "a"
    } else if d == 11 {
        "b"
    } else if d == 12 {
        "c"
    } else if d == 13 {
        "d"
    } else if d == 14 {
        "e"
    } else {
        "f"
    };
    assert(text@ =~= seq![hex_char(d as nat)]);
    text
}

impl PeerId {
    /// The identity as it is written: its bytes in hexadecimal notation.
    pub fn text(&self) -> (text: String)
        ensures
            text@ == hex(self.0@),
    {
        let mut text = String::new();
        let mut i: usize = 0;
        assert(self.0@.take(0) =~= Seq::<u8>::empty());
        assert(text@ =~= hex(self.0@.take(0)));
        while i < 32
            invariant
                i <= 32,
                self.0@.len() == 32,
                text@ == hex(self.0@.take(i as int)),
            decreases 32 - i,
        {
            let byte = self.0[i];
            proof {
                assert(self.0@.take(i + 1).drop_last() == self.0@.take(i as int));
                assert(self.0@.take(i + 1).last() == byte);
            }
            text.append(hex_digit_text(byte / 16));
            text.append(hex_digit_text(byte % 16));
            i += 1;
            assert(text@ =~= hex(self.0@.take(i as int)));
        }
        assert(self.0@.take(32) == self.0@);
        text
    }
}

/// The text of an error, as far as it is fixed: the whole text, or the
/// start that what the error holds follows.
pub open spec fn message_start(error: RpcError) -> Seq<char> {
    match error {
        RpcError::Error(_) => "Error: "@,
        RpcError::IoError(_) => "IO error: "@,
        RpcError::BcsError(_) => "Bcs error: "@,
        RpcError::NotConnected(peer) => "Not connected with peer: "@ + hex(peer.0@),
        RpcError::InvalidRpcResponse => "Received invalid rpc response message"@,
        RpcError::UnexpectedResponseChannelCancel => "Application layer unexpectedly dropped response channel"@,
        RpcError::ApplicationError(_) => "Error in application layer handling rpc request: "@,
        RpcError::MpscSendError(_) => "Error sending on mpsc channel, connection likely shutting down: "@,
        RpcError::TokioMpscSendError => "Error sending on mpsc channel, connection likely shutting down"@,
        RpcError::TooManyPending(count) => "Too many pending RPCs: "@ + decimal(count as nat),
        RpcError::TimedOut => "Rpc timed out"@,
        RpcError::TokioJoinError => "Error in tokio executor, give up"@,
    }
}

/// The error holds an error of a layer below, which its text shows.
pub open spec fn holds_cause(error: RpcError) -> bool {
    error is Error || error is IoError || error is BcsError || error is ApplicationError
        || error is MpscSendError
}

impl RpcError {
    /// The text of the error. Where the error holds an error of a layer
    /// below, the text starts as [`message_start`] says and goes on with
    /// what that error shows of itself; otherwise it is what
    /// [`message_start`] says.
    pub fn message(&self) -> (text: String)
        ensures
            holds_cause(*self) ==> message_start(*self).is_prefix_of(text@),
            !holds_cause(*self) ==> text@ == message_start(*self),
    {
        match self {
            RpcError::Error(err) => {
                let shown = show_anyhow(err);
                let text = String::from_str("Error: ").concat(shown.as_str());
                assert(text@.subrange(0, "Error: "@.len() as int) =~= "Error: "@);
                text
            },
            RpcError::IoError(err) => {
                let shown = describe_io(err);
                let text = String::from_str("IO error: ").concat(shown.as_str());
                assert(text@.subrange(0, "IO error: "@.len() as int) =~= "IO error: "@);
                text
            },
            RpcError::BcsError(err) => {
                let shown = show_bcs(err);
                let text = String::from_str("Bcs error: ").concat(shown.as_str());
                assert(text@.subrange(0, "Bcs error: "@.len() as int) =~= "Bcs error: "@);
                text
            },
            RpcError::NotConnected(peer) => {
                let shown = peer.text();
                String::from_str("Not connected with peer: ").concat(shown.as_str())
            },
            RpcError::InvalidRpcResponse => String::from_str(
                "Received invalid rpc response message",
            ),
            RpcError::UnexpectedResponseChannelCancel => String::from_str(
                "Application layer unexpectedly dropped response channel",
            ),
            RpcError::ApplicationError(err) => {
                let shown = show_anyhow(err);
                let start = "Error in application layer handling rpc request: ";
                let text = String::from_str(start).concat(shown.as_str());
                assert(text@.subrange(0, start@.len() as int) =~= start@);
                text
            },
            RpcError::MpscSendError(err) => {
                let shown = show_send_error(err);
                let start = "Error sending on mpsc channel, connection likely shutting down: ";
                let text = String::from_str(start).concat(shown.as_str());
                assert(text@.subrange(0, start@.len() as int) =~= start@);
                text
            },
            RpcError::TokioMpscSendError => String::from_str(
                "Error sending on mpsc channel, connection likely shutting down",
            ),
            RpcError::TooManyPending(count) => {
                let mut text = String::from_str("Too many pending RPCs: ");
                push_decimal(&mut text, *count as u64);
                text
            },
            RpcError::TimedOut => String::from_str("Rpc timed out"),
            RpcError::TokioJoinError => String::from_str("Error in tokio executor, give up"),
        }
    }
}

impl From<anyhow::Error> for RpcError {
    fn from(err: anyhow::Error) -> (result: RpcError) {
        RpcError::Error(err)
    }
}

impl FromSpecImpl<anyhow::Error> for RpcError {
    open spec fn obeys_from_spec() -> bool {
        true
    }

    open spec fn from_spec(err: anyhow::Error) -> RpcError {
        RpcError::Error(err)
    }
}

impl From<std::io::Error> for RpcError {
    fn from(err: std::io::Error) -> (result: RpcError) {
        RpcError::IoError(err)
    }
}

impl FromSpecImpl<std::io::Error> for RpcError {
    open spec fn obeys_from_spec() -> bool {
        true
    }

    open spec fn from_spec(err: std::io::Error) -> RpcError {
        RpcError::IoError(err)
    }
}

impl From<bcs::Error> for RpcError {
    fn from(err: bcs::Error) -> (result: RpcError) {
        RpcError::BcsError(err)
    }
}

impl FromSpecImpl<bcs::Error> for RpcError {
    open spec fn obeys_from_spec() -> bool {
        true
    }

    open spec fn from_spec(err: bcs::Error) -> RpcError {
        RpcError::BcsError(err)
    }
}

impl From<futures::channel::mpsc::SendError> for RpcError {
    fn from(err: futures::channel::mpsc::SendError) -> (result: RpcError) {
        RpcError::MpscSendError(err)
    }
}

impl FromSpecImpl<futures::channel::mpsc::SendError> for RpcError {
    open spec fn obeys_from_spec() -> bool {
        true
    }

    open spec fn from_spec(err: futures::channel::mpsc::SendError) -> RpcError {
        RpcError::MpscSendError(err)
    }
}

impl From<futures::channel::oneshot::Canceled> for RpcError {
    fn from(err: futures::channel::oneshot::Canceled) -> (result: RpcError) {
        RpcError::UnexpectedResponseChannelCancel
    }
}

impl FromSpecImpl<futures::channel::oneshot::Canceled> for RpcError {
    open spec fn obeys_from_spec() -> bool {
        true
    }

    open spec fn from_spec(err: futures::channel::oneshot::Canceled) -> RpcError {
        RpcError::UnexpectedResponseChannelCancel
    }
}

impl From<tokio::time::error::Elapsed> for RpcError {
    fn from(err: tokio::time::error::Elapsed) -> (result: RpcError) {
        RpcError::TimedOut
    }
}

impl FromSpecImpl<tokio::time::error::Elapsed> for RpcError {
    open spec fn obeys_from_spec() -> bool {
        true
    }

    open spec fn from_spec(err: tokio::time::error::Elapsed) -> RpcError {
        RpcError::TimedOut
    }
}

impl<T> From<tokio::sync::mpsc::error::SendError<T>> for RpcError {
    fn from(err: tokio::sync::mpsc::error::SendError<T>) -> (result: RpcError) {
        RpcError::TokioJoinError
    }
}

impl<T> FromSpecImpl<tokio::sync::mpsc::error::SendError<T>> for RpcError {
    open spec fn obeys_from_spec() -> bool {
        true
    }

    open spec fn from_spec(err: tokio::sync::mpsc::error::SendError<T>) -> RpcError {
        RpcError::TokioJoinError
    }
}

impl From<tokio::task::JoinError> for RpcError {
    /// The failure of a task becomes an error of the first kind, which
    /// holds a report with the text that [`join_error_text`] makes of what
    /// the failure shows of itself.
    fn from(err: tokio::task::JoinError) -> (result: RpcError)
        ensures
            result is Error,
    {
        let shown = show_join_error(&err);
        let text = join_error_text(shown.as_str());
        RpcError::Error(report_of(text))
    }
}

impl FromSpecImpl<tokio::task::JoinError> for RpcError {
    /// What the report holds cannot be said here.
    open spec fn obeys_from_spec() -> bool {
        false
    }

    open spec fn from_spec(err: tokio::task::JoinError) -> RpcError {
        arbitrary()
    }
}

} // verus!
