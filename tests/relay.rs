use bread::client::{echo_for, message_for_line, message_for_trimmed, Echo, Inbox};
use bread::frame::{encode_frame, split_frame, Split, MAX_PAYLOAD_LEN};
use bread::message::{CodecError, ProtocolError, TAG_CHAT, TAG_LEAVING, TAG_NOTHING};
use bread::reader::{Reader, CLOSED, MALFORMED};
use bread::server::{after_accept, port_or_default, workers_outcome, AcceptDecision, DEFAULT_PORT};
use bread::{Addr, Hub, HubAction, MpscMessage, TcpMessage};

fn a() -> Addr {
    Addr::V4 { ip: 0x7f00_0001, port: 50001 }
}

fn b() -> Addr {
    Addr::V4 { ip: 0x7f00_0001, port: 50002 }
}

fn c() -> Addr {
    Addr::V6 { high: 0, low: 1, port: 50003 }
}

fn chat(from: Addr, text: &str) -> TcpMessage {
    TcpMessage::Chat(from, text.to_string())
}

fn broadcast(action: HubAction) -> (Vec<u8>, Vec<Addr>) {
    match action {
        HubAction::Broadcast { frame, recipients } => (frame, recipients),
        other => panic!("expected a broadcast, got {:?}", other),
    }
}

#[test]
fn codec_round_trip_chat() {
    let m = chat(a(), "hello");
    let bytes = m.to_bytes().unwrap();
    assert_eq!(TcpMessage::from_bytes(&bytes).unwrap(), m);
}

#[test]
fn codec_round_trip_leaving_and_nothing() {
    for m in [TcpMessage::Leaving(b()), TcpMessage::Nothing(c()), chat(c(), "")] {
        let bytes = m.to_bytes().unwrap();
        assert_eq!(TcpMessage::from_bytes(&bytes).unwrap(), m);
    }
}

#[test]
fn codec_round_trip_unicode_and_extreme_addresses() {
    let far = Addr::V6 { high: u64::MAX, low: u64::MAX, port: u16::MAX };
    let edge = Addr::V4 { ip: u32::MAX, port: 0 };
    for m in [chat(far, "grüße ✌"), TcpMessage::Leaving(edge)] {
        let bytes = m.to_bytes().unwrap();
        assert_eq!(TcpMessage::from_bytes(&bytes).unwrap(), m);
    }
}

#[test]
fn encoding_is_a_frame_of_the_message_pack_payload() {
    let m = chat(a(), "hi");
    let bytes = m.to_bytes().unwrap();
    let n = bytes.len() - 4;
    assert_eq!(&bytes[0..4], &(n as u32).to_be_bytes());
    assert!(n > 2);
    assert_ne!(&bytes[4..], "hi".as_bytes());
    let payload = &bytes[4..];
    assert_eq!(TcpMessage::decode_payload(payload).unwrap(), m);
}

#[test]
fn garbage_three_bytes_rejected() {
    assert_eq!(TcpMessage::from_bytes(&[0xde, 0xad, 0xbe]), Err(ProtocolError::TooLong));
    assert_eq!(TcpMessage::from_bytes(&[0xc1, 0xc1, 0xc1]), Err(ProtocolError::TooLong));
    assert_eq!(TcpMessage::from_bytes(&[0, 0, 9]), Err(ProtocolError::Truncated));
}

#[test]
fn empty_input_rejected() {
    assert_eq!(TcpMessage::from_bytes(&[]), Err(ProtocolError::Truncated));
}

#[test]
fn garbage_payload_rejected() {
    let frame = encode_frame(&[0xc1, 0xc1, 0xc1]);
    assert_eq!(TcpMessage::from_bytes(&frame), Err(ProtocolError::Undecodable));
}

#[test]
fn oversized_header_rejected() {
    assert_eq!(TcpMessage::from_bytes(&[0xff, 0xff, 0xff, 0xff, 1]), Err(ProtocolError::TooLong));
}

#[test]
fn trailing_bytes_rejected() {
    let mut bytes = TcpMessage::Nothing(a()).to_bytes().unwrap();
    bytes.push(0);
    assert_eq!(TcpMessage::from_bytes(&bytes), Err(ProtocolError::TrailingBytes));
}

#[test]
fn truncated_frame_rejected() {
    let bytes = chat(a(), "hello").to_bytes().unwrap();
    assert_eq!(TcpMessage::from_bytes(&bytes[..bytes.len() - 1]), Err(ProtocolError::Truncated));
}

#[test]
fn fields_are_checked() {
    assert_eq!(
        TcpMessage::from_fields((9, 4, 0, 1, 80, String::new())),
        Err(ProtocolError::UnknownTag(9))
    );
    assert_eq!(
        TcpMessage::from_fields((TAG_CHAT, 5, 0, 1, 80, String::new())),
        Err(ProtocolError::BadAddress)
    );
    assert_eq!(
        TcpMessage::from_fields((TAG_CHAT, 4, 1, 1, 80, String::new())),
        Err(ProtocolError::BadAddress)
    );
    assert_eq!(
        TcpMessage::from_fields((TAG_CHAT, 4, 0, 1u64 << 32, 80, String::new())),
        Err(ProtocolError::BadAddress)
    );
    assert_eq!(
        TcpMessage::from_fields((TAG_LEAVING, 4, 0, 1, 80, "x".to_string())),
        Err(ProtocolError::UnexpectedText)
    );
    assert_eq!(
        TcpMessage::from_fields((TAG_NOTHING, 6, 7, 8, 80, String::new())),
        Ok(TcpMessage::Nothing(Addr::V6 { high: 7, low: 8, port: 80 }))
    );
    assert_eq!(
        TcpMessage::from_fields((TAG_CHAT, 4, 0, 0x7f00_0001, 50001, "yo".to_string())),
        Ok(chat(a(), "yo"))
    );
}

#[test]
fn to_fields_matches_from_fields() {
    let m = chat(c(), "text");
    assert_eq!(m.to_fields(), (TAG_CHAT, 6, 0, 1, 50003, "text".to_string()));
    assert_eq!(TcpMessage::from_fields(m.to_fields()), Ok(m));
}

#[test]
fn too_long_text_is_not_encoded() {
    let m = chat(a(), &"x".repeat(MAX_PAYLOAD_LEN + 1));
    assert_eq!(m.to_bytes(), Err(CodecError::TooLong));
}

#[test]
fn message_accessors() {
    assert!(TcpMessage::Leaving(a()).is_leaving());
    assert!(!chat(a(), "x").is_leaving());
    assert!(!TcpMessage::Nothing(a()).is_leaving());
    assert_eq!(chat(b(), "x").get_address(), b());
    assert_eq!(TcpMessage::Nothing(c()).get_address(), c());
}

#[test]
fn frame_bytes_exact() {
    assert_eq!(encode_frame(&[7, 8]), vec![0, 0, 0, 2, 7, 8]);
    assert_eq!(encode_frame(&[]), vec![0, 0, 0, 0]);
    let big = vec![1u8; 300];
    let f = encode_frame(&big);
    assert_eq!(&f[0..4], &[0, 0, 1, 44]);
    assert_eq!(f.len(), 304);
}

#[test]
fn split_frame_cases() {
    assert_eq!(split_frame(&[0, 0, 0], 0), Split::Incomplete);
    assert_eq!(split_frame(&[0, 0, 0, 2, 1], 0), Split::Incomplete);
    assert_eq!(split_frame(&[0, 0, 0, 2, 1, 2, 3], 0), Split::Complete(2));
    assert_eq!(split_frame(&[9, 0, 0, 0, 0], 1), Split::Complete(0));
    assert_eq!(split_frame(&[0, 1, 0, 1], 0), Split::Oversized);
    assert_eq!(split_frame(&[0, 1, 0, 0], 0), Split::Incomplete);
    assert_eq!(split_frame(&[1], 0), Split::Oversized);
    assert_eq!(split_frame(&[0, 2], 0), Split::Oversized);
    assert_eq!(split_frame(&[0, 1, 1], 0), Split::Oversized);
    assert_eq!(split_frame(&[0, 1, 0], 0), Split::Incomplete);
}

#[test]
fn lone_client_chat_broadcasts_nothing() {
    let mut hub: Hub<u32> = Hub::new(true);
    assert!(matches!(hub.step(MpscMessage::Connect(a(), 1)), HubAction::Continue));
    assert!(matches!(hub.step(MpscMessage::Message(a(), chat(a(), "hello"))), HubAction::Continue));
    assert_eq!(hub.len(), 1);
    assert!(!hub.is_terminated());
}

#[test]
fn chat_reaches_other_peer_once() {
    let mut hub: Hub<u32> = Hub::new(true);
    hub.step(MpscMessage::Connect(a(), 1));
    hub.step(MpscMessage::Connect(b(), 2));
    let m = chat(a(), "hi");
    let (frame, recipients) = broadcast(hub.step(MpscMessage::Message(a(), chat(a(), "hi"))));
    assert_eq!(recipients, vec![b()]);
    assert_eq!(frame, m.to_bytes().unwrap());
    assert_eq!(TcpMessage::from_bytes(&frame).unwrap(), m);
}

#[test]
fn delivery_to_every_other_peer() {
    let mut hub: Hub<u32> = Hub::new(false);
    let peers = [a(), b(), c()];
    for (i, p) in peers.iter().enumerate() {
        hub.step(MpscMessage::Connect(*p, i as u32));
    }
    for sender in peers {
        let (_, recipients) = broadcast(hub.step(MpscMessage::Message(sender, chat(sender, "m"))));
        assert_eq!(recipients.len(), 2);
        assert!(!recipients.contains(&sender));
        for p in peers {
            let copies = recipients.iter().filter(|r| **r == p).count();
            assert_eq!(copies, if p == sender { 0 } else { 1 });
        }
    }
}

#[test]
fn leaving_peer_is_dropped() {
    let mut hub: Hub<u32> = Hub::new(true);
    hub.step(MpscMessage::Connect(a(), 1));
    hub.step(MpscMessage::Connect(b(), 2));
    hub.step(MpscMessage::Message(b(), TcpMessage::Leaving(b())));
    assert!(matches!(hub.step(MpscMessage::Disconnect(b())), HubAction::Continue));
    assert_eq!(hub.len(), 1);
    assert!(hub.stream(&b()).is_none());
    assert_eq!(hub.stream(&a()), Some(&1));
    assert!(matches!(hub.step(MpscMessage::Message(a(), chat(a(), "alone"))), HubAction::Continue));
}

#[test]
fn last_leaving_terminates_hub() {
    let mut hub: Hub<u32> = Hub::new(true);
    hub.step(MpscMessage::Connect(a(), 1));
    hub.step(MpscMessage::Connect(b(), 2));
    assert!(matches!(hub.step(MpscMessage::Disconnect(b())), HubAction::Continue));
    assert!(!hub.is_terminated());
    assert!(matches!(hub.step(MpscMessage::Disconnect(a())), HubAction::Terminate));
    assert!(hub.is_terminated());
    assert_eq!(hub.len(), 0);
}

#[test]
fn error_event_removes_and_terminates() {
    let mut hub: Hub<u32> = Hub::new(true);
    hub.step(MpscMessage::Connect(a(), 1));
    let action = hub.step(MpscMessage::Error(a(), "reset".to_string()));
    assert!(matches!(action, HubAction::Terminate));
}

#[test]
fn hub_without_shutdown_runs_on() {
    let mut hub: Hub<u32> = Hub::new(false);
    hub.step(MpscMessage::Connect(a(), 1));
    assert!(matches!(hub.step(MpscMessage::Disconnect(a())), HubAction::Continue));
    assert!(!hub.is_terminated());
    assert!(matches!(hub.step(MpscMessage::Connect(b(), 2)), HubAction::Continue));
    assert_eq!(hub.len(), 1);
}

#[test]
fn registry_size_counts_live_addresses() {
    let mut hub: Hub<u32> = Hub::new(false);
    hub.step(MpscMessage::Connect(a(), 1));
    hub.step(MpscMessage::Connect(a(), 5));
    assert_eq!(hub.len(), 1);
    assert_eq!(hub.stream(&a()), Some(&5));
    hub.step(MpscMessage::Connect(b(), 2));
    hub.step(MpscMessage::Connect(c(), 3));
    assert_eq!(hub.len(), 3);
    hub.step(MpscMessage::Error(b(), "timed out".to_string()));
    assert_eq!(hub.len(), 2);
    hub.step(MpscMessage::Disconnect(b()));
    assert_eq!(hub.len(), 2);
    let mut r = hub.recipients(&a());
    r.sort_by_key(|x| x.port());
    assert_eq!(r, vec![c()]);
}

#[test]
fn reader_emits_message_then_disconnect_on_leaving() {
    let mut reader = Reader::new(a());
    let mut bytes = chat(a(), "hi").to_bytes().unwrap();
    bytes.extend(TcpMessage::Leaving(a()).to_bytes().unwrap());
    let events: Vec<MpscMessage<u32>> = reader.on_data(&bytes);
    assert_eq!(events.len(), 3);
    assert!(matches!(&events[0], MpscMessage::Message(x, m) if *x == a() && *m == chat(a(), "hi")));
    assert!(matches!(&events[1], MpscMessage::Message(x, TcpMessage::Leaving(_)) if *x == a()));
    assert!(matches!(&events[2], MpscMessage::Disconnect(x) if *x == a()));
    assert!(reader.is_finished());
}

#[test]
fn reader_joins_frames_split_across_reads() {
    let mut reader = Reader::new(b());
    let bytes = chat(b(), "split").to_bytes().unwrap();
    let (first, second) = bytes.split_at(3);
    let none: Vec<MpscMessage<u32>> = reader.on_data(first);
    assert!(none.is_empty());
    assert!(!reader.is_finished());
    let events: Vec<MpscMessage<u32>> = reader.on_data(second);
    assert_eq!(events.len(), 1);
    assert!(matches!(&events[0], MpscMessage::Message(x, m) if *x == b() && *m == chat(b(), "split")));
    assert!(!reader.is_finished());
}

#[test]
fn reader_reports_garbage_as_error() {
    let mut reader = Reader::new(a());
    let events: Vec<MpscMessage<u32>> = reader.on_data(&encode_frame(&[1, 2, 3]));
    assert_eq!(events.len(), 1);
    assert!(matches!(&events[0], MpscMessage::Error(x, why) if *x == a() && why == MALFORMED));
    assert!(reader.is_finished());
}

#[test]
fn reader_reports_oversized_frame_as_error() {
    let mut reader = Reader::new(a());
    let events: Vec<MpscMessage<u32>> = reader.on_data(&[0, 1]);
    assert!(events.is_empty());
    let events: Vec<MpscMessage<u32>> = reader.on_data(&[1]);
    assert_eq!(events.len(), 1);
    assert!(matches!(&events[0], MpscMessage::Error(_, why) if why == MALFORMED));
    assert!(reader.is_finished());
}

#[test]
fn reader_three_garbage_bytes_are_an_error() {
    let mut reader = Reader::new(a());
    let events: Vec<MpscMessage<u32>> = reader.on_data(&[0xc1, 0xc1, 0xc1]);
    assert_eq!(events.len(), 1);
    assert!(matches!(&events[0], MpscMessage::Error(x, why) if *x == a() && why == MALFORMED));
    assert!(reader.is_finished());
}

#[test]
fn reader_partial_header_then_close_is_error() {
    let mut reader = Reader::new(a());
    let events: Vec<MpscMessage<u32>> = reader.on_data(&[0x00, 0x00, 0x03]);
    assert!(events.is_empty());
    let end: MpscMessage<u32> = reader.on_end();
    assert!(matches!(end, MpscMessage::Error(x, why) if x == a() && why == CLOSED));
    assert!(reader.is_finished());
}

#[test]
fn reader_read_error_and_opening() {
    let mut reader = Reader::new(c());
    assert!(matches!(reader.opening(7u32), MpscMessage::Connect(x, 7) if x == c()));
    let e: MpscMessage<u32> = reader.on_read_error("timed out".to_string());
    assert!(matches!(e, MpscMessage::Error(x, why) if x == c() && why == "timed out"));
    assert!(reader.is_finished());
}

#[test]
fn listener_decisions() {
    assert_eq!(after_accept(true, true), AcceptDecision::Stop);
    assert_eq!(after_accept(true, false), AcceptDecision::Stop);
    assert_eq!(after_accept(false, true), AcceptDecision::Spawn);
    assert_eq!(after_accept(false, false), AcceptDecision::Fail);
}

#[test]
fn workers_are_summed_up() {
    assert_eq!(workers_outcome(&[]), Ok(()));
    assert_eq!(workers_outcome(&[false, false]), Ok(()));
    assert_eq!(workers_outcome(&[true, false, true]), Err(2));
}

#[test]
fn default_port() {
    assert_eq!(port_or_default(None), DEFAULT_PORT);
    assert_eq!(DEFAULT_PORT, 3000);
    assert_eq!(port_or_default(Some(8080)), 8080);
}

#[test]
fn input_lines_become_messages() {
    assert_eq!(message_for_line(a(), "  hi there \n"), chat(a(), "hi there"));
    assert_eq!(message_for_line(a(), "   \n"), TcpMessage::Nothing(a()));
    assert_eq!(message_for_line(a(), ".exit\r\n"), TcpMessage::Leaving(a()));
    assert_eq!(message_for_trimmed(b(), ".exit!".to_string()), chat(b(), ".exit!"));
    assert_eq!(message_for_trimmed(b(), String::new()), TcpMessage::Nothing(b()));
}

#[test]
fn echo_kinds() {
    assert_eq!(echo_for(&chat(a(), "x"), a()), Echo::Own);
    assert_eq!(echo_for(&TcpMessage::Leaving(a()), a()), Echo::OwnLast);
    assert_eq!(echo_for(&TcpMessage::Leaving(b()), a()), Echo::Peer);
    assert_eq!(echo_for(&chat(b(), "x"), a()), Echo::Peer);
}

#[test]
fn reader_stops_after_leaving_among_several_frames() {
    let mut reader = Reader::new(b());
    let mut bytes = Vec::new();
    for m in [chat(b(), "one"), TcpMessage::Nothing(b()), TcpMessage::Leaving(b()), chat(b(), "late")] {
        bytes.extend(m.to_bytes().unwrap());
    }
    let events: Vec<MpscMessage<u32>> = reader.on_data(&bytes);
    assert_eq!(events.len(), 4);
    assert!(matches!(&events[0], MpscMessage::Message(_, m) if *m == chat(b(), "one")));
    assert!(matches!(&events[1], MpscMessage::Message(_, TcpMessage::Nothing(_))));
    assert!(matches!(&events[2], MpscMessage::Message(_, TcpMessage::Leaving(_))));
    assert!(matches!(&events[3], MpscMessage::Disconnect(x) if *x == b()));
    assert!(reader.is_finished());
}

#[test]
fn inbox_reads_past_a_peers_leaving() {
    let mut inbox = Inbox::new();
    let mut bytes = Vec::new();
    for m in [TcpMessage::Leaving(b()), chat(c(), "still here")] {
        bytes.extend(m.to_bytes().unwrap());
    }
    let tail = bytes.split_off(bytes.len() - 2);
    let (first, err) = inbox.on_data(&bytes);
    assert_eq!(first, vec![TcpMessage::Leaving(b())]);
    assert_eq!(err, None);
    let (second, err) = inbox.on_data(&tail);
    assert_eq!(second, vec![chat(c(), "still here")]);
    assert_eq!(err, None);
    assert!(!inbox.is_failed());
}

#[test]
fn inbox_stops_on_malformed_frame() {
    let mut inbox = Inbox::new();
    let mut bytes = chat(a(), "ok").to_bytes().unwrap();
    bytes.extend(encode_frame(&[0xc1]));
    let (got, err) = inbox.on_data(&bytes);
    assert_eq!(got, vec![chat(a(), "ok")]);
    assert_eq!(err, Some(ProtocolError::Undecodable));
    assert!(inbox.is_failed());
    let mut other = Inbox::new();
    assert_eq!(other.on_data(&[7]), (vec![], Some(ProtocolError::TooLong)));
}

#[test]
fn encodings_differ_for_different_messages() {
    let ms = [chat(a(), "x"), chat(a(), "y"), chat(b(), "x"), TcpMessage::Leaving(a()), TcpMessage::Nothing(a())];
    for (i, m) in ms.iter().enumerate() {
        for (j, n) in ms.iter().enumerate() {
            assert_eq!(m.to_bytes().unwrap() == n.to_bytes().unwrap(), i == j);
        }
    }
}

#[test]
fn leaving_notice_reaches_the_other_peer() {
    let mut hub: Hub<u32> = Hub::new(true);
    hub.step(MpscMessage::Connect(a(), 1));
    hub.step(MpscMessage::Connect(b(), 2));
    let (frame, recipients) = broadcast(hub.step(MpscMessage::Message(b(), TcpMessage::Leaving(b()))));
    assert_eq!(recipients, vec![a()]);
    assert_eq!(TcpMessage::from_bytes(&frame).unwrap(), TcpMessage::Leaving(b()));
}

#[test]
fn too_long_message_is_undeliverable() {
    let mut hub: Hub<u32> = Hub::new(false);
    hub.step(MpscMessage::Connect(a(), 1));
    hub.step(MpscMessage::Connect(b(), 2));
    let long = chat(a(), &"x".repeat(MAX_PAYLOAD_LEN));
    assert!(matches!(
        hub.step(MpscMessage::Message(a(), long)),
        HubAction::Undeliverable(CodecError::TooLong)
    ));
}

#[test]
fn unicode_white_space_is_trimmed() {
    assert_eq!(message_for_line(a(), "\u{3000}\thi\u{a0}\u{2029}"), chat(a(), "hi"));
    assert_eq!(message_for_line(a(), "\u{85}.exit\u{205f}"), TcpMessage::Leaving(a()));
}

#[test]
fn stray_removal_on_empty_hub_does_not_terminate() {
    let mut hub: Hub<u32> = Hub::new(true);
    assert!(matches!(hub.step(MpscMessage::Disconnect(a())), HubAction::Continue));
    assert!(matches!(hub.step(MpscMessage::Error(b(), "reset".to_string())), HubAction::Continue));
    assert!(!hub.is_terminated());
    hub.step(MpscMessage::Connect(a(), 1));
    assert!(matches!(hub.step(MpscMessage::Disconnect(a())), HubAction::Terminate));
}

#[test]
fn longest_surely_fitting_text_is_encoded() {
    let n = (MAX_PAYLOAD_LEN - bread::message::PACKED_OVERHEAD) / 4;
    let m = chat(a(), &"é".repeat(n));
    let bytes = m.to_bytes().unwrap();
    assert_eq!(TcpMessage::from_bytes(&bytes).unwrap(), m);
}
