use sus::error::TransferError;
use sus::header::{encode, Header, TransferKind};
use sus::receiver::{start, step, ReceiverAction, ReceiverEvent, ReceiverState};
use sus::rename::rename_file_on_duplicate;
use sus::signal::{ready_signal, READY};

const PEER: &str = "192.0.2.7:4123";

fn datagram(bytes: &[u8]) -> ReceiverEvent {
    ReceiverEvent::Datagram { bytes: bytes.to_vec(), source: PEER.to_string() }
}

fn message_header(length: u8) -> Header {
    Header { kind: TransferKind::Message, length, name: String::new() }
}

fn file_header(length: u8, name: &str) -> Header {
    Header { kind: TransferKind::File, length, name: name.to_string() }
}

/// Takes a receiver that awaits a header through header and signal.
fn accept(header_block: &[u8]) -> (ReceiverState, ReceiverAction) {
    let (state, action) = start();
    assert_eq!(action, ReceiverAction::ReceiveHeader);
    let (state, action) = step(state, datagram(header_block));
    assert_eq!(action, ReceiverAction::SendReady { to: PEER.to_string() });
    step(state, ReceiverEvent::Sent { size: 1 })
}

#[test]
fn receiver_starts_by_awaiting_a_header() {
    assert_eq!(start(), (ReceiverState::AwaitHeader, ReceiverAction::ReceiveHeader));
}

#[test]
fn readiness_signal_is_one_byte() {
    assert_eq!(READY, 3);
    assert_eq!(ready_signal(), vec![3u8]);
}

#[test]
fn message_scenario() {
    let (state, action) = start();
    assert_eq!(action, ReceiverAction::ReceiveHeader);

    let header = encode(TransferKind::Message, 5, "");
    let (state, action) = step(state, datagram(&header));
    assert_eq!(state, ReceiverState::SendReady { header: message_header(5) });
    assert_eq!(action, ReceiverAction::SendReady { to: PEER.to_string() });

    let (state, action) = step(state, ReceiverEvent::Sent { size: 1 });
    assert_eq!(state, ReceiverState::AwaitPayload { header: message_header(5) });
    assert_eq!(action, ReceiverAction::ReceivePayload { length: 5 });

    let (state, action) = step(state, datagram("hello".as_bytes()));
    assert_eq!(state, ReceiverState::Handle);
    assert_eq!(
        action,
        ReceiverAction::ShowMessage { text: "hello".to_string(), source: PEER.to_string() }
    );

    let (state, action) = step(state, ReceiverEvent::Handled);
    assert_eq!(state, ReceiverState::AwaitHeader);
    assert_eq!(action, ReceiverAction::ReceiveHeader);
}

#[test]
fn file_scenario() {
    let contents: Vec<u8> = vec![0, 1, 2, 3, 4, 5, 6, 7, 8, 9];
    let mut stored: Vec<String> = Vec::new();
    for expected in ["a.bin", "a (1).bin", "a (2).bin"] {
        let header = encode(TransferKind::File, 10, "a.bin");
        let (state, action) = accept(&header);
        assert_eq!(state, ReceiverState::AwaitPayload { header: file_header(10, "a.bin") });
        assert_eq!(action, ReceiverAction::ReceivePayload { length: 10 });

        let (state, action) = step(state, datagram(&contents));
        assert_eq!(state, ReceiverState::Handle);
        assert_eq!(
            action,
            ReceiverAction::StoreFile { name: "a.bin".to_string(), bytes: contents.clone() }
        );
        let name = match action {
            ReceiverAction::StoreFile { name, .. } => rename_file_on_duplicate(&name, &stored),
            _ => unreachable!(),
        };
        assert_eq!(name, expected);
        stored.push(name);

        assert_eq!(
            step(state, ReceiverEvent::Handled),
            (ReceiverState::AwaitHeader, ReceiverAction::ReceiveHeader)
        );
    }
    assert_eq!(stored, vec!["a.bin", "a (1).bin", "a (2).bin"]);
}

#[test]
fn invalid_header_stops_the_receiver() {
    for tag in [0u8, 3, 9, 255] {
        let mut block = vec![0u8; 1024];
        block[0] = tag;
        let (state, _) = start();
        let (state, action) = step(state, datagram(&block));
        assert_eq!(state, ReceiverState::Stopped);
        assert_eq!(action, ReceiverAction::Stop { reason: TransferError::InvalidHeader });
    }
    let (state, _) = start();
    assert_eq!(
        step(state, datagram(&[])),
        (ReceiverState::Stopped, ReceiverAction::Stop { reason: TransferError::InvalidHeader })
    );
}

#[test]
fn invalid_header_after_a_finished_transfer() {
    let (state, action) = accept(&encode(TransferKind::Message, 2, ""));
    assert_eq!(action, ReceiverAction::ReceivePayload { length: 2 });
    let (state, action) = step(state, datagram("ok".as_bytes()));
    assert_eq!(
        action,
        ReceiverAction::ShowMessage { text: "ok".to_string(), source: PEER.to_string() }
    );
    let (state, _) = step(state, ReceiverEvent::Handled);
    let (state, action) = step(state, datagram(&[7, 2]));
    assert_eq!(state, ReceiverState::Stopped);
    assert_eq!(action, ReceiverAction::Stop { reason: TransferError::InvalidHeader });
}

#[test]
fn stopped_receiver_stays_stopped() {
    let stop = ReceiverAction::Stop { reason: TransferError::UnexpectedEvent };
    for event in [
        datagram(&encode(TransferKind::Message, 1, "")),
        ReceiverEvent::Sent { size: 1 },
        ReceiverEvent::Handled,
    ] {
        assert_eq!(step(ReceiverState::Stopped, event), (ReceiverState::Stopped, stop.clone()));
    }
}

#[test]
fn transfer_is_given_up_when_no_signal_went_out() {
    let (state, _) = start();
    let (state, _) = step(state, datagram(&encode(TransferKind::File, 3, "f")));
    assert_eq!(
        step(state, ReceiverEvent::Sent { size: 0 }),
        (ReceiverState::AwaitHeader, ReceiverAction::ReceiveHeader)
    );
}

#[test]
fn unpadded_header_is_accepted() {
    let (state, action) = accept(&[1, 5]);
    assert_eq!(state, ReceiverState::AwaitPayload { header: message_header(5) });
    assert_eq!(action, ReceiverAction::ReceivePayload { length: 5 });
    let (state, action) = accept(&[2, 10, b'a', b'.', b'b', b'i', b'n']);
    assert_eq!(state, ReceiverState::AwaitPayload { header: file_header(10, "a.bin") });
    assert_eq!(action, ReceiverAction::ReceivePayload { length: 10 });
}

#[test]
fn payload_is_cut_to_the_announced_length() {
    let (state, _) = accept(&encode(TransferKind::Message, 5, ""));
    let (_, action) = step(state, datagram("hello, world".as_bytes()));
    assert_eq!(
        action,
        ReceiverAction::ShowMessage { text: "hello".to_string(), source: PEER.to_string() }
    );
    let (state, _) = accept(&encode(TransferKind::File, 2, "f"));
    let (_, action) = step(state, datagram(&[1, 2, 3]));
    assert_eq!(action, ReceiverAction::StoreFile { name: "f".to_string(), bytes: vec![1, 2] });
}

#[test]
fn payload_is_filled_to_the_announced_length() {
    let (state, _) = accept(&encode(TransferKind::File, 4, "f"));
    let (_, action) = step(state, datagram(&[1, 2]));
    assert_eq!(
        action,
        ReceiverAction::StoreFile { name: "f".to_string(), bytes: vec![1, 2, 0, 0] }
    );
    let (state, _) = accept(&encode(TransferKind::Message, 3, ""));
    let (_, action) = step(state, datagram("a".as_bytes()));
    assert_eq!(
        action,
        ReceiverAction::ShowMessage { text: "a\0\0".to_string(), source: PEER.to_string() }
    );
}

#[test]
fn empty_payload() {
    let (state, action) = accept(&encode(TransferKind::Message, 0, ""));
    assert_eq!(action, ReceiverAction::ReceivePayload { length: 0 });
    let (_, action) = step(state, datagram(&[]));
    assert_eq!(
        action,
        ReceiverAction::ShowMessage { text: String::new(), source: PEER.to_string() }
    );
    let (state, _) = accept(&encode(TransferKind::File, 0, "empty"));
    let (_, action) = step(state, datagram(&[]));
    assert_eq!(action, ReceiverAction::StoreFile { name: "empty".to_string(), bytes: vec![] });
}

#[test]
fn largest_payload() {
    let contents: Vec<u8> = (0..255u8).collect();
    let (state, action) = accept(&encode(TransferKind::File, 255, "big"));
    assert_eq!(action, ReceiverAction::ReceivePayload { length: 255 });
    let (_, action) = step(state, datagram(&contents));
    assert_eq!(action, ReceiverAction::StoreFile { name: "big".to_string(), bytes: contents });
}

#[test]
fn message_is_attributed_to_the_source_of_its_payload() {
    let (state, _) = accept(&encode(TransferKind::Message, 2, ""));
    let event = ReceiverEvent::Datagram {
        bytes: "hi".as_bytes().to_vec(),
        source: "198.51.100.1:9".to_string(),
    };
    let (_, action) = step(state, event);
    assert_eq!(
        action,
        ReceiverAction::ShowMessage { text: "hi".to_string(), source: "198.51.100.1:9".to_string() }
    );
}

#[test]
fn message_beyond_ascii() {
    let text = "grüße 🙂";
    let (state, _) = accept(&encode(TransferKind::Message, text.len() as u8, ""));
    let (_, action) = step(state, datagram(text.as_bytes()));
    assert_eq!(
        action,
        ReceiverAction::ShowMessage { text: text.to_string(), source: PEER.to_string() }
    );
}

#[test]
fn message_that_is_not_text_stops_the_receiver() {
    let (state, _) = accept(&encode(TransferKind::Message, 2, ""));
    assert_eq!(
        step(state, datagram(&[0xff, 0xfe])),
        (ReceiverState::Stopped, ReceiverAction::Stop { reason: TransferError::DecodeFailure })
    );
    let (state, _) = accept(&encode(TransferKind::Message, 1, ""));
    assert_eq!(
        step(state, datagram("é".as_bytes())),
        (ReceiverState::Stopped, ReceiverAction::Stop { reason: TransferError::DecodeFailure })
    );
}

#[test]
fn file_need_not_be_text() {
    let (state, _) = accept(&encode(TransferKind::File, 2, "raw"));
    let (state, action) = step(state, datagram(&[0xff, 0xfe]));
    assert_eq!(state, ReceiverState::Handle);
    assert_eq!(
        action,
        ReceiverAction::StoreFile { name: "raw".to_string(), bytes: vec![0xff, 0xfe] }
    );
}

#[test]
fn event_out_of_turn_stops_the_receiver() {
    let stopped =
        (ReceiverState::Stopped, ReceiverAction::Stop { reason: TransferError::UnexpectedEvent });
    let header = message_header(1);
    assert_eq!(step(ReceiverState::AwaitHeader, ReceiverEvent::Sent { size: 1 }), stopped);
    assert_eq!(step(ReceiverState::AwaitHeader, ReceiverEvent::Handled), stopped);
    assert_eq!(step(ReceiverState::SendReady { header: header.clone() }, datagram(&[1])), stopped);
    assert_eq!(
        step(ReceiverState::SendReady { header: header.clone() }, ReceiverEvent::Handled),
        stopped
    );
    assert_eq!(
        step(ReceiverState::AwaitPayload { header: header.clone() }, ReceiverEvent::Sent { size: 1 }),
        stopped
    );
    assert_eq!(step(ReceiverState::AwaitPayload { header }, ReceiverEvent::Handled), stopped);
    assert_eq!(step(ReceiverState::Handle, datagram(&[1])), stopped);
    assert_eq!(step(ReceiverState::Handle, ReceiverEvent::Sent { size: 1 }), stopped);
}

/// Feeds a receiver that awaits a header one event after the other and
/// returns the actions it gave and the state it ended in.
fn run(events: Vec<ReceiverEvent>) -> (Vec<ReceiverAction>, ReceiverState) {
    let mut state = start().0;
    let mut actions = Vec::new();
    for event in events {
        let (next, action) = step(state, event);
        state = next;
        actions.push(action);
    }
    (actions, state)
}

#[test]
fn whole_run_takes_transfers_in_turn() {
    let events = vec![
        datagram(&encode(TransferKind::Message, 2, "")),
        ReceiverEvent::Sent { size: 1 },
        datagram("hi".as_bytes()),
        ReceiverEvent::Handled,
        datagram(&encode(TransferKind::File, 3, "f.x")),
        ReceiverEvent::Sent { size: 0 },
        datagram(&encode(TransferKind::File, 3, "f.x")),
        ReceiverEvent::Sent { size: 1 },
        datagram(&[1, 2, 3]),
        ReceiverEvent::Handled,
        datagram(&[9]),
        datagram(&encode(TransferKind::Message, 2, "")),
        ReceiverEvent::Sent { size: 1 },
    ];
    let count = events.len();
    let (actions, state) = run(events.clone());
    assert_eq!(actions.len(), count);
    assert_eq!(state, ReceiverState::Stopped);
    assert_eq!(
        actions,
        vec![
            ReceiverAction::SendReady { to: PEER.to_string() },
            ReceiverAction::ReceivePayload { length: 2 },
            ReceiverAction::ShowMessage { text: "hi".to_string(), source: PEER.to_string() },
            ReceiverAction::ReceiveHeader,
            ReceiverAction::SendReady { to: PEER.to_string() },
            ReceiverAction::ReceiveHeader,
            ReceiverAction::SendReady { to: PEER.to_string() },
            ReceiverAction::ReceivePayload { length: 3 },
            ReceiverAction::StoreFile { name: "f.x".to_string(), bytes: vec![1, 2, 3] },
            ReceiverAction::ReceiveHeader,
            ReceiverAction::Stop { reason: TransferError::InvalidHeader },
            ReceiverAction::Stop { reason: TransferError::UnexpectedEvent },
            ReceiverAction::Stop { reason: TransferError::UnexpectedEvent },
        ]
    );
    for i in 0..count {
        if matches!(actions[i], ReceiverAction::ReceivePayload { .. }) {
            assert!(i > 0);
            assert!(matches!(actions[i - 1], ReceiverAction::SendReady { .. }));
            assert!(matches!(events[i], ReceiverEvent::Sent { size } if size > 0));
        }
        if matches!(actions[i], ReceiverAction::SendReady { .. }) {
            assert!(i == 0 || actions[i - 1] == ReceiverAction::ReceiveHeader);
        }
        if matches!(actions[i], ReceiverAction::Stop { .. }) {
            assert!(actions[i..].iter().all(|a| matches!(a, ReceiverAction::Stop { .. })));
        }
    }
}

#[test]
fn whole_run_of_events_out_of_turn_ends_stopped() {
    let (actions, state) = run(vec![
        ReceiverEvent::Handled,
        datagram(&encode(TransferKind::Message, 1, "")),
        ReceiverEvent::Sent { size: 1 },
        datagram("x".as_bytes()),
    ]);
    assert_eq!(state, ReceiverState::Stopped);
    assert!(actions.iter().all(|a| *a == ReceiverAction::Stop {
        reason: TransferError::UnexpectedEvent
    }));
}
