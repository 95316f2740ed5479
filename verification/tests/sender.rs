use sus::error::TransferError;
use sus::header::{decode, Header, TransferKind};
use sus::sender::{
    file_name_of, start_file, start_message, step, Outgoing, SenderAction, SenderEvent,
    SenderState,
};
use sus::signal::is_ready;

fn arrived(bytes: &[u8]) -> SenderEvent {
    SenderEvent::Datagram { bytes: bytes.to_vec() }
}

fn header_block(action: &SenderAction) -> Vec<u8> {
    match action {
        SenderAction::SendHeader { block } => block.clone(),
        other => panic!("no header in {:?}", other),
    }
}

#[test]
fn message_is_sent_after_the_signal() {
    let (state, action) = start_message("hello").unwrap();
    let transfer = Outgoing {
        kind: TransferKind::Message,
        name: String::new(),
        payload: "hello".as_bytes().to_vec(),
    };
    assert_eq!(state, SenderState::SendHeader { transfer: transfer.clone() });
    let block = header_block(&action);
    assert_eq!(block.len(), 1024);
    assert_eq!(&block[..3], &[1, 5, 0]);
    assert_eq!(
        decode(&block),
        Ok(Header { kind: TransferKind::Message, length: 5, name: String::new() })
    );

    let (state, action) = step(state, SenderEvent::Sent { size: 1024 });
    assert_eq!(state, SenderState::AwaitReady { transfer });
    assert_eq!(action, SenderAction::ReceiveSignal);

    let (state, action) = step(state, arrived(&[3]));
    assert_eq!(
        state,
        SenderState::SendPayload { kind: TransferKind::Message, name: String::new() }
    );
    assert_eq!(action, SenderAction::SendPayload { bytes: "hello".as_bytes().to_vec() });

    let (state, action) = step(state, SenderEvent::Sent { size: 5 });
    assert_eq!(state, SenderState::Done);
    assert_eq!(
        action,
        SenderAction::Report { kind: TransferKind::Message, name: String::new(), sent: 5 }
    );
}

#[test]
fn file_is_sent_after_the_signal() {
    let contents: Vec<u8> = vec![9, 8, 7, 6, 5, 4, 3, 2, 1, 0];
    let (state, action) = start_file("C:\\Users\\alice\\a.bin", contents.clone()).unwrap();
    let block = header_block(&action);
    assert_eq!(block.len(), 1024);
    assert_eq!(
        decode(&block),
        Ok(Header { kind: TransferKind::File, length: 10, name: "a.bin".to_string() })
    );

    let (state, action) = step(state, SenderEvent::Sent { size: 1024 });
    assert_eq!(action, SenderAction::ReceiveSignal);
    let (state, action) = step(state, arrived(&[3]));
    assert_eq!(action, SenderAction::SendPayload { bytes: contents });
    let (state, action) = step(state, SenderEvent::Sent { size: 10 });
    assert_eq!(state, SenderState::Done);
    assert_eq!(
        action,
        SenderAction::Report { kind: TransferKind::File, name: "a.bin".to_string(), sent: 10 }
    );
}

#[test]
fn message_of_256_bytes_is_refused() {
    let message = "m".repeat(256);
    assert_eq!(start_message(&message), Err(TransferError::PayloadTooLarge));
    assert_eq!(start_message(&"m".repeat(1000)), Err(TransferError::PayloadTooLarge));
}

#[test]
fn message_of_255_bytes_is_accepted() {
    let message = "m".repeat(255);
    let (state, action) = start_message(&message).unwrap();
    assert_eq!(header_block(&action)[1], 255);
    match state {
        SenderState::SendHeader { transfer } => assert_eq!(transfer.payload.len(), 255),
        other => panic!("not sending the header: {:?}", other),
    }
}

#[test]
fn length_of_a_message_counts_bytes() {
    let accepted = "é".repeat(127);
    assert_eq!(header_block(&start_message(&accepted).unwrap().1)[1], 254);
    let refused = "é".repeat(128);
    assert_eq!(refused.chars().count(), 128);
    assert_eq!(start_message(&refused), Err(TransferError::PayloadTooLarge));
}

#[test]
fn empty_message() {
    let (_, action) = start_message("").unwrap();
    assert_eq!(header_block(&action)[..2], [1, 0]);
}

#[test]
fn file_of_256_bytes_is_refused() {
    assert_eq!(start_file("big.bin", vec![1u8; 256]), Err(TransferError::PayloadTooLarge));
    let (_, action) = start_file("big.bin", vec![1u8; 255]).unwrap();
    assert_eq!(header_block(&action)[1], 255);
}

#[test]
fn wait_goes_on_until_the_signal_arrives() {
    let (state, _) = start_message("x").unwrap();
    let (mut state, _) = step(state, SenderEvent::Sent { size: 1024 });
    for noise in [vec![], vec![0u8], vec![1], vec![2], vec![4], vec![255], vec![0, 3]] {
        let waiting = state.clone();
        let (next, action) = step(state, arrived(&noise));
        assert_eq!(next, waiting);
        assert_eq!(action, SenderAction::ReceiveSignal);
        state = next;
    }
    let (_, action) = step(state, arrived(&[3, 0]));
    assert_eq!(action, SenderAction::SendPayload { bytes: vec![b'x'] });
}

#[test]
fn readiness_signal_is_recognised() {
    assert!(is_ready(&[3]));
    assert!(is_ready(&[3, 1, 2]));
    assert!(!is_ready(&[]));
    assert!(!is_ready(&[0]));
    assert!(!is_ready(&[1, 3]));
}

#[test]
fn header_going_out_short_does_not_end_the_transfer() {
    let (state, _) = start_message("x").unwrap();
    let (_, action) = step(state, SenderEvent::Sent { size: 0 });
    assert_eq!(action, SenderAction::ReceiveSignal);
}

#[test]
fn event_out_of_turn_ends_the_transfer() {
    let ended = (SenderState::Done, SenderAction::Stop { reason: TransferError::UnexpectedEvent });
    let (sending, _) = start_message("x").unwrap();
    assert_eq!(step(sending.clone(), arrived(&[3])), ended);
    let (waiting, _) = step(sending, SenderEvent::Sent { size: 1024 });
    assert_eq!(step(waiting.clone(), SenderEvent::Sent { size: 1 }), ended);
    let (paying, _) = step(waiting, arrived(&[3]));
    assert_eq!(step(paying, arrived(&[3])), ended);
    assert_eq!(step(SenderState::Done, arrived(&[3])), ended);
    assert_eq!(step(SenderState::Done, SenderEvent::Sent { size: 1 }), ended);
}

#[test]
fn final_segment_of_a_path() {
    assert_eq!(file_name_of("a.bin"), "a.bin");
    assert_eq!(file_name_of("dir/a.bin"), "a.bin");
    assert_eq!(file_name_of("dir\\a.bin"), "a.bin");
    assert_eq!(file_name_of("/home/alice/outbox/three.tar.gz"), "three.tar.gz");
    assert_eq!(file_name_of("C:\\one\\two\\three.tar.gz"), "three.tar.gz");
    assert_eq!(file_name_of("./a.bin"), "a.bin");
    assert_eq!(file_name_of("../up/a.bin"), "a.bin");
    assert_eq!(file_name_of("répertoire/données.csv"), "données.csv");
    assert_eq!(file_name_of("répertoire\\données.csv"), "données.csv");
}

#[test]
fn final_segment_follows_the_last_separator_of_either_kind() {
    assert_eq!(file_name_of("one\\two/a.bin"), "a.bin");
    assert_eq!(file_name_of("one/two\\a.bin"), "a.bin");
    assert_eq!(file_name_of("C:\\one/two\\three/a b.txt"), "a b.txt");
}

#[test]
fn final_segment_of_a_path_that_ends_in_a_separator_is_empty() {
    assert_eq!(file_name_of(""), "");
    assert_eq!(file_name_of("/"), "");
    assert_eq!(file_name_of("\\"), "");
    assert_eq!(file_name_of("dir/"), "");
    assert_eq!(file_name_of("dir\\"), "");
    assert_eq!(file_name_of("dir/a.bin/"), "");
}

#[test]
fn final_segment_holds_no_separator() {
    for path in ["a", "a/b", "a\\b", "/a/b/c.d", "a\\b/c\\d.e", "x/", "\\y\\", "//", ""] {
        let name = file_name_of(path);
        assert!(!name.contains('/') && !name.contains('\\'));
        assert!(path.ends_with(&name));
        assert_eq!(file_name_of(&name), name);
    }
}

#[test]
fn file_read_from_a_path_with_slashes() {
    let (state, action) = start_file("dir/a.bin", vec![1, 2, 3]).unwrap();
    let block = header_block(&action);
    assert_eq!(block.len(), 1024);
    assert_eq!(block[0], 2);
    assert_eq!(block[1], 3);
    assert_eq!(&block[2..7], "a.bin".as_bytes());
    assert!(block[7..].iter().all(|b| *b == 0));
    assert_eq!(
        decode(&block),
        Ok(Header { kind: TransferKind::File, length: 3, name: "a.bin".to_string() })
    );

    let (state, action) = step(state, SenderEvent::Sent { size: 1024 });
    assert_eq!(action, SenderAction::ReceiveSignal);
    let (state, action) = step(state, arrived(&[3]));
    assert_eq!(action, SenderAction::SendPayload { bytes: vec![1, 2, 3] });
    let (state, action) = step(state, SenderEvent::Sent { size: 3 });
    assert_eq!(state, SenderState::Done);
    assert_eq!(
        action,
        SenderAction::Report { kind: TransferKind::File, name: "a.bin".to_string(), sent: 3 }
    );
}

#[test]
fn header_of_a_file_holds_its_name_and_zeros() {
    for (path, name) in [
        ("a.bin", "a.bin"),
        ("dir/a.bin", "a.bin"),
        ("C:\\dir\\report.txt", "report.txt"),
        ("/var/tmp/archive.tar.gz", "archive.tar.gz"),
        ("données/été.csv", "été.csv"),
        ("dir/", ""),
    ] {
        for size in [0usize, 1, 10, 255] {
            let contents = vec![7u8; size];
            let (_, action) = start_file(path, contents).unwrap();
            let block = header_block(&action);
            assert_eq!(block.len(), 1024);
            assert_eq!(block[0], 2);
            assert_eq!(block[1] as usize, size);
            assert_eq!(&block[2..2 + name.len()], name.as_bytes());
            assert!(block[2 + name.len()..].iter().all(|b| *b == 0));
            assert_eq!(
                decode(&block),
                Ok(Header { kind: TransferKind::File, length: size as u8, name: name.to_string() })
            );
        }
    }
}

#[test]
fn long_file_name_is_cut_in_the_header() {
    let path = format!("dir/{}", "n".repeat(2000));
    let (_, action) = start_file(&path, vec![1, 2, 3]).unwrap();
    let block = header_block(&action);
    assert_eq!(block.len(), 1024);
    assert_eq!(
        decode(&block),
        Ok(Header { kind: TransferKind::File, length: 3, name: "n".repeat(1022) })
    );
}
