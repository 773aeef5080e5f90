use bytes::Bytes;
use egui_states::channel::ChannelMessage;
use egui_states::data::{Data, DataMessage};
use egui_states::data_transport::{DataHeader, DataType, TransportType};
use egui_states::messages::{MessagesParser, ServerHeader, ServerMessage, VecHeader};
use egui_states::values_list::{Handled, ValuesList};

fn b(v: &[u8]) -> Bytes {
    Bytes::copy_from_slice(v)
}

#[test]
fn frame_is_read_message_by_message() {
    // a 2-byte header with 3 payload bytes, then a 1-byte repaint header
    let frame = b(&[0xa, 0xb, 1, 2, 3, 0xc]);
    let (mut parser, first) =
        MessagesParser::from_bytes(frame, Some((ServerHeader::Value(7, 1, true, 3), 2))).unwrap();
    match first {
        ServerMessage::Value(7, 1, true, payload) => assert_eq!(payload, b(&[1, 2, 3])),
        other => panic!("unexpected {other:?}"),
    }
    assert_eq!(parser.unread(), b(&[0xc]));
    match parser.next(Some((ServerHeader::Update(0), 1))).unwrap() {
        Some(ServerMessage::Update(0)) => {}
        other => panic!("unexpected {other:?}"),
    }
    assert!(parser.next(None).unwrap().is_none());
    assert!(parser.next(None).unwrap().is_none());
}

#[test]
fn message_longer_than_frame_is_refused() {
    let frame = b(&[0, 1, 2]);
    let res = MessagesParser::from_bytes(frame, Some((ServerHeader::Static(1, 1, false, 5), 1)));
    assert!(res.is_err());
    let res = MessagesParser::from_bytes(b(&[0]), None);
    assert!(res.is_err());
}

#[test]
fn list_and_data_payloads_are_cut_out() {
    let frame = b(&[9, 4, 5, 9, 6, 7]);
    let header = ServerHeader::ValueVec(3, 2, false, VecHeader::Add, 2);
    let (mut parser, first) = MessagesParser::from_bytes(frame, Some((header, 1))).unwrap();
    match first {
        ServerMessage::ValueVec(3, 2, false, VecHeader::Add, payload) => assert_eq!(payload, b(&[4, 5])),
        other => panic!("unexpected {other:?}"),
    }
    let data_header = ServerHeader::Data(5, DataHeader::All(DataType::U8, TransportType::SetAll(2), true, 2));
    match parser.next(Some((data_header, 1))).unwrap() {
        Some(ServerMessage::Data(5, true, DataMessage::All(DataType::U8, TransportType::SetAll(2), bytes))) => {
            assert_eq!(bytes, vec![6, 7])
        }
        other => panic!("unexpected {other:?}"),
    }
    assert!(parser.next(None).unwrap().is_none());
}

#[test]
fn empty_parser_reads_nothing() {
    let mut parser = MessagesParser::empty();
    assert!(parser.next(None).unwrap().is_none());
    assert_eq!(parser.unread(), b(&[]));
}

#[test]
fn messages_go_to_their_states() {
    let mut values = ValuesList::new();
    values.add_value(1);
    values.add_data(Data::new("d".to_string(), 2, DataType::U8));
    let mut out = Vec::new();

    match values.handle_message(ServerMessage::Update(5), &mut out).unwrap() {
        Handled::Repaint(5) => {}
        other => panic!("unexpected {other:?}"),
    }
    match values.handle_message(ServerMessage::Value(1, 0, false, b(&[1])), &mut out).unwrap() {
        Handled::Forward(ServerMessage::Value(1, 0, false, payload)) => assert_eq!(payload, b(&[1])),
        other => panic!("unexpected {other:?}"),
    }
    let data = DataMessage::All(DataType::U8, TransportType::SetAll(3), vec![4, 5, 6]);
    match values.handle_message(ServerMessage::Data(2, true, data), &mut out).unwrap() {
        Handled::Applied(true) => {}
        other => panic!("unexpected {other:?}"),
    }
    assert_eq!(values.get_data(2), Some(vec![4, 5, 6]));
    assert!(matches!(out.as_slice(), [ChannelMessage::Ack(2)]));
    assert_eq!(values.get_data(3), None);
}

#[test]
fn message_for_unknown_value_is_refused_and_acknowledged() {
    let mut values = ValuesList::new();
    let mut out = Vec::new();
    let err = values
        .handle_message(ServerMessage::Value(4, 0, false, b(&[1])), &mut out)
        .unwrap_err();
    assert!(err.contains('4'), "{err}");
    assert!(matches!(out.as_slice(), [ChannelMessage::Ack(4)]));
}
