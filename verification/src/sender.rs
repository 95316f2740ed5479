//! The send side: a header, the wait for the readiness signal, the payload.
//!
//! The driver begins with [`start_message`] or [`start_file`], performs the
//! action it is given, reports what came of it as an event to [`step`], and
//! goes on with the action that `step` returns until that action is
//! [`SenderAction::Report`] or [`SenderAction::Stop`].

use vstd::prelude::*;
use vstd::string::*;
use vstd::utf8::*;
use crate::error::TransferError;
use crate::header::{encode, encode_spec, TransferKind, MAX_PAYLOAD};
use crate::signal::{is_ready, is_ready_spec};

verus! {

/// What is being sent.
#[derive(Clone, Debug, PartialEq, Eq)]
pub struct Outgoing {
    /// Whether a message or a file is sent.
    pub kind: TransferKind,
    /// Name of the file; empty for a message.
    pub name: String,
    /// The bytes that follow the header.
    pub payload: Vec<u8>,
}

/// Where the sender stands.
#[derive(Clone, Debug, PartialEq, Eq)]
pub enum SenderState {
    /// The header is on its way.
    SendHeader { transfer: Outgoing },
    /// The header was sent; waiting for the readiness signal.
    AwaitReady { transfer: Outgoing },
    /// The payload is on its way.
    SendPayload { kind: TransferKind, name: String },
    /// The transfer is over.
    Done,
}

/// What the driver reports.
#[derive(Clone, Debug, PartialEq, Eq)]
pub enum SenderEvent {
    /// A datagram was sent; `size` bytes of it went out.
    Sent { size: usize },
    /// A datagram arrived.
    Datagram { bytes: Vec<u8> },
}

/// What the driver is to do next.
#[derive(Clone, Debug, PartialEq, Eq)]
pub enum SenderAction {
    /// Send the header block.
    SendHeader { block: Vec<u8> },
    /// Read one datagram of one byte.
    ReceiveSignal,
    /// Send the payload.
    SendPayload { bytes: Vec<u8> },
    /// Tell the user that `sent` bytes went out, and end.
    Report { kind: TransferKind, name: String, sent: usize },
    /// End the run for the given reason.
    Stop { reason: TransferError },
}

/// The mathematical value of an [`Outgoing`].
pub struct OutgoingView {
    pub kind: TransferKind,
    pub name: Seq<char>,
    pub payload: Seq<u8>,
}

/// The mathematical value of a [`SenderState`].
pub enum SenderStateView {
    SendHeader { transfer: OutgoingView },
    AwaitReady { transfer: OutgoingView },
    SendPayload { kind: TransferKind, name: Seq<char> },
    Done,
}

/// The mathematical value of a [`SenderEvent`].
pub enum SenderEventView {
    Sent { size: nat },
    Datagram { bytes: Seq<u8> },
}

/// The mathematical value of a [`SenderAction`].
pub enum SenderActionView {
    SendHeader { block: Seq<u8> },
    ReceiveSignal,
    SendPayload { bytes: Seq<u8> },
    Report { kind: TransferKind, name: Seq<char>, sent: nat },
    Stop { reason: TransferError },
}

impl View for Outgoing {
    type V = OutgoingView;

    open spec fn view(&self) -> OutgoingView {
        OutgoingView { kind: self.kind, name: self.name@, payload: self.payload@ }
    }
}

impl View for SenderState {
    type V = SenderStateView;

    open spec fn view(&self) -> SenderStateView {
        match self {
            SenderState::SendHeader { transfer } => SenderStateView::SendHeader {
                transfer: transfer@,
            },
            SenderState::AwaitReady { transfer } => SenderStateView::AwaitReady {
                transfer: transfer@,
            },
            SenderState::SendPayload { kind, name } => SenderStateView::SendPayload {
                kind: *kind,
                name: name@,
            },
            SenderState::Done => SenderStateView::Done,
        }
    }
}

impl View for SenderEvent {
    type V = SenderEventView;

    open spec fn view(&self) -> SenderEventView {
        match self {
            SenderEvent::Sent { size } => SenderEventView::Sent { size: *size as nat },
            SenderEvent::Datagram { bytes } => SenderEventView::Datagram { bytes: bytes@ },
        }
    }
}

impl View for SenderAction {
    type V = SenderActionView;

    open spec fn view(&self) -> SenderActionView {
        match self {
            SenderAction::SendHeader { block } => SenderActionView::SendHeader { block: block@ },
            SenderAction::ReceiveSignal => SenderActionView::ReceiveSignal,
            SenderAction::SendPayload { bytes } => SenderActionView::SendPayload { bytes: bytes@ },
            SenderAction::Report { kind, name, sent } => SenderActionView::Report {
                kind: *kind,
                name: name@,
                sent: *sent as nat,
            },
            SenderAction::Stop { reason } => SenderActionView::Stop { reason: *reason },
        }
    }
}

/// Whether a character parts the segments of a path: the slash and the
/// backslash both do, whatever system the path was written on.
pub open spec fn is_separator(c: char) -> bool {
    c == '/' || c == '\\'
}

/// The final segment of a path: what follows its last slash or backslash,
/// or the whole path where it holds neither.
pub open spec fn final_segment(path: Seq<char>) -> Seq<char>
    decreases path.len(),
{
    if path.len() == 0 || is_separator(path.last()) {
        Seq::empty()
    } else {
        final_segment(path.drop_last()).push(path.last())
    }
}

/// The start of a transfer: the state in which the header is on its way,
/// and the action that sends it. A payload of more than 255 bytes is
/// refused, since the header could not announce its length.
pub open spec fn start_spec(kind: TransferKind, name: Seq<char>, payload: Seq<u8>) -> Result<
    (SenderStateView, SenderActionView),
    TransferError,
> {
    if payload.len() > MAX_PAYLOAD {
        Err(TransferError::PayloadTooLarge)
    } else {
        Ok(
            (
                SenderStateView::SendHeader { transfer: OutgoingView { kind, name, payload } },
                SenderActionView::SendHeader {
                    block: encode_spec(kind, payload.len() as u8, name),
                },
            ),
        )
    }
}

/// The sender's transition: the state after an event, and the action that
/// the driver is to perform next.
pub open spec fn step_spec(state: SenderStateView, event: SenderEventView) -> (
    SenderStateView,
    SenderActionView,
) {
    match (state, event) {
        (SenderStateView::SendHeader { transfer }, SenderEventView::Sent { .. }) => (
            SenderStateView::AwaitReady { transfer },
            SenderActionView::ReceiveSignal,
        ),
        (SenderStateView::AwaitReady { transfer }, SenderEventView::Datagram { bytes }) => {
            if is_ready_spec(bytes) {
                (
                    SenderStateView::SendPayload { kind: transfer.kind, name: transfer.name },
                    SenderActionView::SendPayload { bytes: transfer.payload },
                )
            } else {
                (SenderStateView::AwaitReady { transfer }, SenderActionView::ReceiveSignal)
            }
        },
        (SenderStateView::SendPayload { kind, name }, SenderEventView::Sent { size }) => (
            SenderStateView::Done,
            SenderActionView::Report { kind, name, sent: size },
        ),
        _ => (
            SenderStateView::Done,
            SenderActionView::Stop { reason: TransferError::UnexpectedEvent },
        ),
    }
}

/// What follows the separator at `start - 1` is the final segment when no
/// separator stands behind it.
proof fn lemma_final_segment(path: Seq<char>, start: int)
    requires
        0 <= start <= path.len(),
        forall|j: int| start <= j < path.len() ==> !is_separator(path[j]),
        start == 0 || is_separator(path[start - 1]),
    ensures
        final_segment(path) == path.skip(start),
    decreases path.len() - start,
{
    if start == path.len() {
        assert(path.skip(start) =~= Seq::<char>::empty());
    } else {
        let shorter = path.drop_last();
        lemma_final_segment(shorter, start);
        assert(shorter.skip(start).push(path.last()) =~= path.skip(start));
    }
}

/// Returns the final segment of a path, the name under which a file is
/// announced: `a.bin` for `a.bin`, for `dir/a.bin` and for `C:\dir\a.bin`.
pub fn file_name_of(path: &str) -> (name: String)
    ensures
        name@ == final_segment(path@),
{
    let len: usize = path.unicode_len();
    let mut start: usize = 0;
    let mut k: usize = 0;
    for c in it: path.chars()
        invariant
            it.seq() == path@,
            len == path@.len(),
            k == it.index(),
            start <= k,
            forall|j: int| start <= j < k ==> !is_separator(path@[j]),
            start == 0 || is_separator(path@[start - 1]),
    {
        if c == '/' || c == '\\' {
            start = k + 1;
        }
        k += 1;
    }
    proof {
        lemma_final_segment(path@, start as int);
    }
    let name = String::from_str(path.substring_char(start, len));
    assert(name@ =~= path@.skip(start as int));
    name
}

/// Begins a transfer of the given kind.
fn start(kind: TransferKind, name: String, payload: Vec<u8>) -> (first: Result<
    (SenderState, SenderAction),
    TransferError,
>)
    ensures
        match first {
            Ok(begun) => start_spec(kind, name@, payload@) == Ok::<
                (SenderStateView, SenderActionView),
                TransferError,
            >((begun.0@, begun.1@)),
            Err(reason) => start_spec(kind, name@, payload@) == Err::<
                (SenderStateView, SenderActionView),
                TransferError,
            >(reason),
        },
{
    if payload.len() > MAX_PAYLOAD {
        return Err(TransferError::PayloadTooLarge);
    }
    let block = encode(kind, payload.len() as u8, name.as_str());
    Ok((
        SenderState::SendHeader { transfer: Outgoing { kind, name, payload } },
        SenderAction::SendHeader { block },
    ))
}

/// Begins the transfer of a text message.
///
/// The payload is the message in UTF-8. A message of more than 255 bytes is
/// refused with [`TransferError::PayloadTooLarge`] before anything is sent;
/// any other message gives the state in which the header is on its way and
/// the action that sends the header.
pub fn start_message(message: &str) -> (first: Result<(SenderState, SenderAction), TransferError>)
    ensures
        match first {
            Ok(begun) => start_spec(TransferKind::Message, Seq::empty(), encode_utf8(message@))
                == Ok::<(SenderStateView, SenderActionView), TransferError>((begun.0@, begun.1@)),
            Err(reason) => start_spec(TransferKind::Message, Seq::empty(), encode_utf8(message@))
                == Err::<(SenderStateView, SenderActionView), TransferError>(reason),
        },
        first is Err <==> encode_utf8(message@).len() > MAX_PAYLOAD,
{
    start(TransferKind::Message, String::new(), message.as_bytes_vec())
}

/// Begins the transfer of a file that was read from `path`.
///
/// The file is announced under the final segment of its path, which is
/// what follows the last slash or backslash. Contents of
/// more than 255 bytes are refused with [`TransferError::PayloadTooLarge`]
/// before anything is sent; any other contents give the state in which the
/// header is on its way and the action that sends the header.
pub fn start_file(path: &str, contents: Vec<u8>) -> (first: Result<
    (SenderState, SenderAction),
    TransferError,
>)
    ensures
        match first {
            Ok(begun) => start_spec(TransferKind::File, final_segment(path@), contents@) == Ok::<
                (SenderStateView, SenderActionView),
                TransferError,
            >((begun.0@, begun.1@)),
            Err(reason) => start_spec(TransferKind::File, final_segment(path@), contents@) == Err::<
                (SenderStateView, SenderActionView),
                TransferError,
            >(reason),
        },
        first is Err <==> contents@.len() > MAX_PAYLOAD,
{
    let name = file_name_of(path);
    start(TransferKind::File, name, contents)
}

/// Takes the sender from one state to the next.
///
/// Once the header has gone out, the readiness signal is awaited. A
/// datagram that is not the signal is passed over and the wait goes on;
/// the signal is answered with the payload. Once the payload has gone out,
/// the number of bytes sent is reported and the transfer is over. An event
/// that the state does not wait for ends the transfer.
pub fn step(state: SenderState, event: SenderEvent) -> (next: (SenderState, SenderAction))
    ensures
        (next.0@, next.1@) == step_spec(state@, event@),
{
    let unexpected = (
        SenderState::Done,
        SenderAction::Stop { reason: TransferError::UnexpectedEvent },
    );
    match state {
        SenderState::SendHeader { transfer } => match event {
            SenderEvent::Sent { .. } => (
                SenderState::AwaitReady { transfer },
                SenderAction::ReceiveSignal,
            ),
            _ => unexpected,
        },
        SenderState::AwaitReady { transfer } => match event {
            SenderEvent::Datagram { bytes } => if is_ready(bytes.as_slice()) {
                (
                    SenderState::SendPayload { kind: transfer.kind, name: transfer.name },
                    SenderAction::SendPayload { bytes: transfer.payload },
                )
            } else {
                (SenderState::AwaitReady { transfer }, SenderAction::ReceiveSignal)
            },
            _ => unexpected,
        },
        SenderState::SendPayload { kind, name } => match event {
            SenderEvent::Sent { size } => (
                SenderState::Done,
                SenderAction::Report { kind, name, sent: size },
            ),
            _ => unexpected,
        },
        SenderState::Done => unexpected,
    }
}

/// The final segment of a path holds no separator, so it names a file and
/// no directory; and it is its own final segment.
pub proof fn lemma_final_segment_is_a_name(path: Seq<char>)
    ensures
        forall|i: int|
            0 <= i < final_segment(path).len() ==> !is_separator(
                #[trigger] final_segment(path)[i],
            ),
        final_segment(final_segment(path)) == final_segment(path),
    decreases path.len(),
{
    if path.len() > 0 && !is_separator(path.last()) {
        let shorter = path.drop_last();
        lemma_final_segment_is_a_name(shorter);
        let name = final_segment(path);
        assert(name == final_segment(shorter).push(path.last()));
        lemma_final_segment(name, 0);
        assert(name.skip(0) =~= name);
    }
}

/// A payload goes out only in answer to the readiness signal.
pub proof fn lemma_payload_answers_signal(state: SenderStateView, event: SenderEventView)
    requires
        step_spec(state, event).1 is SendPayload,
    ensures
        state is AwaitReady,
        event matches SenderEventView::Datagram { bytes } && is_ready_spec(bytes),
        step_spec(state, event).1 == (SenderActionView::SendPayload {
            bytes: state->AwaitReady_transfer.payload,
        }),
{
}

} // verus!
