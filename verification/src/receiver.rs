//! The receive side: one transfer after the other, each taken through
//! header, readiness signal, payload and handling.
//!
//! The state machine decides; its driver reads datagrams, sends the
//! readiness signal ([`crate::signal::ready_signal`]), shows messages and
//! stores files. The driver starts with [`start`], performs the action it
//! is given, reports what came of it as an event to [`step`], and goes on
//! with the action that `step` returns until that action is
//! [`ReceiverAction::Stop`].

use vstd::prelude::*;
use vstd::utf8::*;
use crate::error::TransferError;
use crate::header::{
    byte_at, decode, decode_spec, Header, HeaderView, TransferKind, KIND_FILE, KIND_MESSAGE,
};
use crate::text::text_of_bytes;

verus! {

/// Where the receiver stands.
#[derive(Clone, Debug, PartialEq, Eq)]
pub enum ReceiverState {
    /// Waiting for the header of the next transfer.
    AwaitHeader,
    /// A header was accepted; the readiness signal is on its way.
    SendReady { header: Header },
    /// The readiness signal was sent; waiting for the payload.
    AwaitPayload { header: Header },
    /// The payload was handed out to be shown or stored.
    Handle,
    /// The receiver has ended and accepts nothing more.
    Stopped,
}

/// What the driver reports.
#[derive(Clone, Debug, PartialEq, Eq)]
pub enum ReceiverEvent {
    /// A datagram arrived from `source`.
    Datagram { bytes: Vec<u8>, source: String },
    /// A datagram was sent; `size` bytes of it went out.
    Sent { size: usize },
    /// A message was shown or a file was stored.
    Handled,
}

/// What the driver is to do next.
#[derive(Clone, Debug, PartialEq, Eq)]
pub enum ReceiverAction {
    /// Read one datagram into a block of the header's size.
    ReceiveHeader,
    /// Send the readiness signal to `to`.
    SendReady { to: String },
    /// Read one datagram of `length` bytes.
    ReceivePayload { length: u8 },
    /// Show `text` as received from `source`.
    ShowMessage { text: String, source: String },
    /// Store `bytes` as a file called `name`, not writing over another file.
    StoreFile { name: String, bytes: Vec<u8> },
    /// End the run for the given reason.
    Stop { reason: TransferError },
}

/// The mathematical value of a [`ReceiverState`].
pub enum ReceiverStateView {
    AwaitHeader,
    SendReady { header: HeaderView },
    AwaitPayload { header: HeaderView },
    Handle,
    Stopped,
}

/// The mathematical value of a [`ReceiverEvent`].
pub enum ReceiverEventView {
    Datagram { bytes: Seq<u8>, source: Seq<char> },
    Sent { size: nat },
    Handled,
}

/// The mathematical value of a [`ReceiverAction`].
pub enum ReceiverActionView {
    ReceiveHeader,
    SendReady { to: Seq<char> },
    ReceivePayload { length: u8 },
    ShowMessage { text: Seq<char>, source: Seq<char> },
    StoreFile { name: Seq<char>, bytes: Seq<u8> },
    Stop { reason: TransferError },
}

impl View for ReceiverState {
    type V = ReceiverStateView;

    open spec fn view(&self) -> ReceiverStateView {
        match self {
            ReceiverState::AwaitHeader => ReceiverStateView::AwaitHeader,
            ReceiverState::SendReady { header } => ReceiverStateView::SendReady { header: header@ },
            ReceiverState::AwaitPayload { header } => ReceiverStateView::AwaitPayload {
                header: header@,
            },
            ReceiverState::Handle => ReceiverStateView::Handle,
            ReceiverState::Stopped => ReceiverStateView::Stopped,
        }
    }
}

impl View for ReceiverEvent {
    type V = ReceiverEventView;

    open spec fn view(&self) -> ReceiverEventView {
        match self {
            ReceiverEvent::Datagram { bytes, source } => ReceiverEventView::Datagram {
                bytes: bytes@,
                source: source@,
            },
            ReceiverEvent::Sent { size } => ReceiverEventView::Sent { size: *size as nat },
            ReceiverEvent::Handled => ReceiverEventView::Handled,
        }
    }
}

impl View for ReceiverAction {
    type V = ReceiverActionView;

    open spec fn view(&self) -> ReceiverActionView {
        match self {
            ReceiverAction::ReceiveHeader => ReceiverActionView::ReceiveHeader,
            ReceiverAction::SendReady { to } => ReceiverActionView::SendReady { to: to@ },
            ReceiverAction::ReceivePayload { length } => ReceiverActionView::ReceivePayload {
                length: *length,
            },
            ReceiverAction::ShowMessage { text, source } => ReceiverActionView::ShowMessage {
                text: text@,
                source: source@,
            },
            ReceiverAction::StoreFile { name, bytes } => ReceiverActionView::StoreFile {
                name: name@,
                bytes: bytes@,
            },
            ReceiverAction::Stop { reason } => ReceiverActionView::Stop { reason: *reason },
        }
    }
}

/// A datagram as a payload of exactly `length` bytes: what lies beyond
/// `length` is cut off, and a datagram that ends before it is filled up
/// with zero bytes.
pub open spec fn fitted(bytes: Seq<u8>, length: nat) -> Seq<u8> {
    Seq::new(length, |i: int| byte_at(bytes, i))
}

/// What follows once a payload has arrived for an accepted header: a
/// message is shown, if it is text, and a file is stored under the name
/// that its header gave.
pub open spec fn handle_spec(header: HeaderView, bytes: Seq<u8>, source: Seq<char>) -> (
    ReceiverStateView,
    ReceiverActionView,
) {
    let payload = fitted(bytes, header.length as nat);
    match header.kind {
        TransferKind::Message => if valid_utf8(payload) {
            (
                ReceiverStateView::Handle,
                ReceiverActionView::ShowMessage { text: decode_utf8(payload), source },
            )
        } else {
            (
                ReceiverStateView::Stopped,
                ReceiverActionView::Stop { reason: TransferError::DecodeFailure },
            )
        },
        TransferKind::File => (
            ReceiverStateView::Handle,
            ReceiverActionView::StoreFile { name: header.name, bytes: payload },
        ),
    }
}

/// The receiver's transition: the state after an event, and the action
/// that the driver is to perform next.
pub open spec fn step_spec(state: ReceiverStateView, event: ReceiverEventView) -> (
    ReceiverStateView,
    ReceiverActionView,
) {
    match (state, event) {
        (ReceiverStateView::AwaitHeader, ReceiverEventView::Datagram { bytes, source }) => {
            match decode_spec(bytes) {
                Ok(header) => (
                    ReceiverStateView::SendReady { header },
                    ReceiverActionView::SendReady { to: source },
                ),
                Err(reason) => (ReceiverStateView::Stopped, ReceiverActionView::Stop { reason }),
            }
        },
        (ReceiverStateView::SendReady { header }, ReceiverEventView::Sent { size }) => {
            if size > 0 {
                (
                    ReceiverStateView::AwaitPayload { header },
                    ReceiverActionView::ReceivePayload { length: header.length },
                )
            } else {
                (ReceiverStateView::AwaitHeader, ReceiverActionView::ReceiveHeader)
            }
        },
        (
            ReceiverStateView::AwaitPayload { header },
            ReceiverEventView::Datagram { bytes, source },
        ) => handle_spec(header, bytes, source),
        (ReceiverStateView::Handle, ReceiverEventView::Handled) => (
            ReceiverStateView::AwaitHeader,
            ReceiverActionView::ReceiveHeader,
        ),
        _ => (
            ReceiverStateView::Stopped,
            ReceiverActionView::Stop { reason: TransferError::UnexpectedEvent },
        ),
    }
}

/// A whole run: the state that a receiver is in after a sequence of
/// events, and the actions that it gave, one for each event.
pub open spec fn run_spec(state: ReceiverStateView, events: Seq<ReceiverEventView>) -> (
    ReceiverStateView,
    Seq<ReceiverActionView>,
)
    decreases events.len(),
{
    if events.len() == 0 {
        (state, Seq::empty())
    } else {
        let before = run_spec(state, events.drop_last());
        let next = step_spec(before.0, events.last());
        (next.0, before.1.push(next.1))
    }
}

/// Whether an action is the one that leads into a state: a header is read
/// while one is awaited, the signal sent while it is due, a payload read
/// while one is awaited, a message shown or a file stored while the
/// payload is handled, and the run ended once the receiver has stopped.
pub open spec fn leads_into(action: ReceiverActionView, state: ReceiverStateView) -> bool {
    match state {
        ReceiverStateView::AwaitHeader => action is ReceiveHeader,
        ReceiverStateView::SendReady { header } => action is SendReady,
        ReceiverStateView::AwaitPayload { header } => action == (
            ReceiverActionView::ReceivePayload { length: header.length }
        ),
        ReceiverStateView::Handle => action is ShowMessage || action is StoreFile,
        ReceiverStateView::Stopped => action is Stop,
    }
}

/// The state and the first action of a receiver.
pub fn start() -> (first: (ReceiverState, ReceiverAction))
    ensures
        first.0@ == ReceiverStateView::AwaitHeader,
        first.1@ == ReceiverActionView::ReceiveHeader,
{
    (ReceiverState::AwaitHeader, ReceiverAction::ReceiveHeader)
}

/// Cuts or fills a datagram to a payload of exactly `length` bytes.
fn fit(bytes: &Vec<u8>, length: u8) -> (payload: Vec<u8>)
    ensures
        payload@ == fitted(bytes@, length as nat),
{
    let mut payload: Vec<u8> = Vec::new();
    let mut i: usize = 0;
    while i < length as usize
        invariant
            i <= length,
            payload@ == fitted(bytes@, i as nat),
        decreases length - i,
    {
        let b: u8 = if i < bytes.len() {
            bytes[i]
        } else {
            0
        };
        payload.push(b);
        assert(payload@ =~= fitted(bytes@, (i + 1) as nat));
        i += 1;
    }
    payload
}

/// Handles the payload that arrived for an accepted header.
fn handle(header: Header, bytes: Vec<u8>, source: String) -> (next: (
    ReceiverState,
    ReceiverAction,
))
    ensures
        (next.0@, next.1@) == handle_spec(header@, bytes@, source@),
{
    let payload = fit(&bytes, header.length);
    match header.kind {
        TransferKind::Message => match text_of_bytes(payload) {
            Some(text) => (ReceiverState::Handle, ReceiverAction::ShowMessage { text, source }),
            None => (
                ReceiverState::Stopped,
                ReceiverAction::Stop { reason: TransferError::DecodeFailure },
            ),
        },
        TransferKind::File => (
            ReceiverState::Handle,
            ReceiverAction::StoreFile { name: header.name, bytes: payload },
        ),
    }
}

/// Takes the receiver from one state to the next.
///
/// A datagram that arrives while a header is awaited is decoded: a valid
/// header is answered with the readiness signal, an invalid one stops the
/// receiver. Once the signal has gone out, a payload of the announced
/// length is read; if nothing went out, the transfer is given up and the
/// next header awaited. The payload of a message is shown if it is text,
/// and stops the receiver if it is not; the payload of a file is stored.
/// After that the next header is awaited. An event that the state does not
/// wait for stops the receiver, and a stopped receiver stays stopped.
pub fn step(state: ReceiverState, event: ReceiverEvent) -> (next: (ReceiverState, ReceiverAction))
    ensures
        (next.0@, next.1@) == step_spec(state@, event@),
{
    let unexpected = (
        ReceiverState::Stopped,
        ReceiverAction::Stop { reason: TransferError::UnexpectedEvent },
    );
    match state {
        ReceiverState::AwaitHeader => match event {
            ReceiverEvent::Datagram { bytes, source } => match decode(bytes.as_slice()) {
                Ok(header) => (
                    ReceiverState::SendReady { header },
                    ReceiverAction::SendReady { to: source },
                ),
                Err(reason) => (ReceiverState::Stopped, ReceiverAction::Stop { reason }),
            },
            _ => unexpected,
        },
        ReceiverState::SendReady { header } => match event {
            ReceiverEvent::Sent { size } => if size > 0 {
                let length: u8 = header.length;
                (ReceiverState::AwaitPayload { header }, ReceiverAction::ReceivePayload { length })
            } else {
                (ReceiverState::AwaitHeader, ReceiverAction::ReceiveHeader)
            },
            _ => unexpected,
        },
        ReceiverState::AwaitPayload { header } => match event {
            ReceiverEvent::Datagram { bytes, source } => handle(header, bytes, source),
            _ => unexpected,
        },
        ReceiverState::Handle => match event {
            ReceiverEvent::Handled => (ReceiverState::AwaitHeader, ReceiverAction::ReceiveHeader),
            _ => unexpected,
        },
        ReceiverState::Stopped => unexpected,
    }
}

/// A datagram whose first byte is neither the tag of a message nor that of
/// a file ends a receiver that awaits a header: it stops with
/// [`TransferError::InvalidHeader`], whatever else the datagram holds and
/// whoever sent it. No transfer is under way in that state, so none is
/// touched.
pub proof fn lemma_invalid_header_stops(bytes: Seq<u8>, source: Seq<char>)
    requires
        bytes.len() == 0 || (bytes[0] != KIND_MESSAGE && bytes[0] != KIND_FILE),
    ensures
        step_spec(ReceiverStateView::AwaitHeader, ReceiverEventView::Datagram { bytes, source })
            == (
            ReceiverStateView::Stopped,
            ReceiverActionView::Stop { reason: TransferError::InvalidHeader },
        ),
{
}

/// A stopped receiver stays stopped, whatever is reported to it.
pub proof fn lemma_stopped_is_final(event: ReceiverEventView)
    ensures
        step_spec(ReceiverStateView::Stopped, event).0 == ReceiverStateView::Stopped,
        step_spec(ReceiverStateView::Stopped, event).1 is Stop,
{
}

/// A payload is read only after the readiness signal has gone out: the
/// action that reads it is given in no other state and on no other event,
/// and it asks for exactly the length that the header announced.
pub proof fn lemma_payload_follows_signal(state: ReceiverStateView, event: ReceiverEventView)
    requires
        step_spec(state, event).1 is ReceivePayload,
    ensures
        state is SendReady,
        event matches ReceiverEventView::Sent { size } && size > 0,
        step_spec(state, event).1 == (ReceiverActionView::ReceivePayload {
            length: state->SendReady_header.length,
        }),
        step_spec(state, event).0 == (ReceiverStateView::AwaitPayload {
            header: state->SendReady_header,
        }),
{
}

/// Whatever the state and whatever the event, the action that a step gives
/// is the one that leads into the state that it gives.
pub proof fn lemma_action_leads_into_state(state: ReceiverStateView, event: ReceiverEventView)
    ensures
        leads_into(step_spec(state, event).1, step_spec(state, event).0),
{
}

/// A run gives one action for each event.
pub proof fn lemma_run_len(state: ReceiverStateView, events: Seq<ReceiverEventView>)
    ensures
        run_spec(state, events).1.len() == events.len(),
    decreases events.len(),
{
    if events.len() > 0 {
        lemma_run_len(state, events.drop_last());
    }
}

/// The first `n` events of a run give the first `n` actions of the run.
proof fn lemma_run_prefix(state: ReceiverStateView, events: Seq<ReceiverEventView>, n: int)
    requires
        0 <= n <= events.len(),
    ensures
        run_spec(state, events.take(n)).1 == run_spec(state, events).1.take(n),
    decreases events.len(),
{
    lemma_run_len(state, events);
    lemma_run_len(state, events.take(n));
    if n == events.len() {
        assert(events.take(n) =~= events);
        assert(run_spec(state, events).1.take(n) =~= run_spec(state, events).1);
    } else {
        let shorter = events.drop_last();
        lemma_run_prefix(state, shorter, n);
        lemma_run_len(state, shorter);
        assert(shorter.take(n) =~= events.take(n));
        assert(run_spec(state, events).1.take(n) =~= run_spec(state, shorter).1.take(n));
    }
}

/// Action `i` of a run is the action of one step: from the state after the
/// first `i` events, on event `i`.
pub proof fn lemma_run_action(state: ReceiverStateView, events: Seq<ReceiverEventView>, i: int)
    requires
        0 <= i < events.len(),
    ensures
        run_spec(state, events).1.len() == events.len(),
        run_spec(state, events).1[i] == step_spec(
            run_spec(state, events.take(i)).0,
            events[i],
        ).1,
{
    lemma_run_len(state, events);
    lemma_run_prefix(state, events, i + 1);
    let upto = events.take(i + 1);
    lemma_run_len(state, upto);
    lemma_run_len(state, events.take(i));
    assert(upto.drop_last() =~= events.take(i));
    assert(upto.last() == events[i]);
    let before = run_spec(state, events.take(i));
    assert(run_spec(state, upto).1 == before.1.push(step_spec(before.0, events[i]).1));
    assert(run_spec(state, upto).1[i] == step_spec(before.0, events[i]).1);
    assert(run_spec(state, events).1.take(i + 1)[i] == run_spec(state, events).1[i]);
}

/// Over a whole run, from whatever state: a payload is read only as the
/// step after the readiness signal was sent, and only when the driver
/// reports that the signal went out.
pub proof fn lemma_run_signals_before_payload(
    state: ReceiverStateView,
    events: Seq<ReceiverEventView>,
    i: int,
)
    requires
        1 <= i < events.len(),
        run_spec(state, events).1[i] is ReceivePayload,
    ensures
        run_spec(state, events).1[i - 1] is SendReady,
        events[i] matches ReceiverEventView::Sent { size } && size > 0,
{
    lemma_run_action(state, events, i);
    lemma_run_action(state, events, i - 1);
    let before = events.take(i);
    assert(before.drop_last() =~= events.take(i - 1));
    assert(before.last() == events[i - 1]);
    let earlier = run_spec(state, events.take(i - 1)).0;
    lemma_action_leads_into_state(earlier, events[i - 1]);
    lemma_payload_follows_signal(run_spec(state, before).0, events[i]);
}

/// Over a whole run that begins with a receiver awaiting a header: the
/// first action is never the reading of a payload, and a header is only
/// ever accepted while none is being handled, which is to say that the
/// signal is sent only as the step after a header was asked for.
pub proof fn lemma_run_takes_transfers_in_turn(events: Seq<ReceiverEventView>, i: int)
    requires
        0 <= i < events.len(),
        run_spec(ReceiverStateView::AwaitHeader, events).1[i] is SendReady,
    ensures
        run_spec(ReceiverStateView::AwaitHeader, events.take(i)).0 is AwaitHeader,
        i > 0 ==> run_spec(ReceiverStateView::AwaitHeader, events).1[i - 1] is ReceiveHeader,
        events[i] matches ReceiverEventView::Datagram { bytes, source } && decode_spec(bytes) is Ok
            && run_spec(ReceiverStateView::AwaitHeader, events).1[i] == (
            ReceiverActionView::SendReady { to: source }
        ),
{
    let state = ReceiverStateView::AwaitHeader;
    lemma_run_action(state, events, i);
    if i > 0 {
        lemma_run_action(state, events, i - 1);
        let before = events.take(i);
        assert(before.drop_last() =~= events.take(i - 1));
        assert(before.last() == events[i - 1]);
        lemma_action_leads_into_state(run_spec(state, events.take(i - 1)).0, events[i - 1]);
    } else {
        assert(events.take(0) =~= Seq::<ReceiverEventView>::empty());
    }
}

/// Over a whole run, from whatever state: once the receiver has been told
/// to stop, it stays stopped, and every later action tells it to stop.
pub proof fn lemma_run_stays_stopped(
    state: ReceiverStateView,
    events: Seq<ReceiverEventView>,
    i: int,
    j: int,
)
    requires
        0 <= i <= j < events.len(),
        run_spec(state, events).1[i] is Stop,
    ensures
        run_spec(state, events).1[j] is Stop,
        run_spec(state, events).0 is Stopped,
    decreases events.len() - i,
{
    lemma_run_action(state, events, i);
    let reached = run_spec(state, events.take(i + 1));
    let upto = events.take(i + 1);
    assert(upto.drop_last() =~= events.take(i));
    assert(upto.last() == events[i]);
    assert(reached.0 is Stopped);
    if i + 1 < events.len() {
        lemma_run_action(state, events, i + 1);
        lemma_stopped_is_final(events[i + 1]);
        if i < j {
            lemma_run_stays_stopped(state, events, i + 1, j);
        } else {
            lemma_run_stays_stopped(state, events, i + 1, i + 1);
        }
    } else {
        assert(upto =~= events);
    }
}

/// A whole transfer, seen from a receiver that awaits a header: a valid
/// header is answered with the readiness signal to its sender before any
/// payload is read; once the signal has gone out, a payload of the
/// announced length is read and handled; and when that is done, the
/// receiver awaits the next header.
pub proof fn lemma_transfer_runs_in_order(
    block: Seq<u8>,
    peer: Seq<char>,
    size: nat,
    payload: Seq<u8>,
    source: Seq<char>,
)
    requires
        decode_spec(block) is Ok,
        size > 0,
    ensures
        ({
            let header = decode_spec(block)->Ok_0;
            let accepted = step_spec(
                ReceiverStateView::AwaitHeader,
                ReceiverEventView::Datagram { bytes: block, source: peer },
            );
            let signalled = step_spec(accepted.0, ReceiverEventView::Sent { size });
            let handled = step_spec(
                signalled.0,
                ReceiverEventView::Datagram { bytes: payload, source },
            );
            &&& accepted.1 == ReceiverActionView::SendReady { to: peer }
            &&& signalled.1 == ReceiverActionView::ReceivePayload { length: header.length }
            &&& handled == handle_spec(header, payload, source)
            &&& handled.0 is Handle ==> step_spec(handled.0, ReceiverEventView::Handled) == (
                ReceiverStateView::AwaitHeader,
                ReceiverActionView::ReceiveHeader,
            )
        }),
{
}

/// What is shown or stored is exactly as long as the header announced.
pub proof fn lemma_payload_has_announced_length(
    header: HeaderView,
    bytes: Seq<u8>,
    source: Seq<char>,
)
    ensures
        handle_spec(header, bytes, source).1 matches ReceiverActionView::StoreFile {
            bytes: stored,
            ..
        } ==> stored.len() == header.length,
        handle_spec(header, bytes, source).1 matches ReceiverActionView::ShowMessage {
            text,
            ..
        } ==> encode_utf8(text).len() == header.length,
{
    let payload = fitted(bytes, header.length as nat);
    if valid_utf8(payload) {
        decode_utf8_encode_utf8(payload);
    }
}

} // verus!
