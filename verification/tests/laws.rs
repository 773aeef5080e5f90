use bytes::Bytes;
use egui_states::channel::ChannelMessage;
use egui_states::messages::{MessagesParser, ServerHeader, ServerMessage};
use egui_states::signals::OrderedMap;
use egui_states::values::{Signal, Static, Value, ValueTake};

#[test]
fn static_value_holds_its_last_accepted_update() {
    let mut value = Static::new("s".to_string(), 1, 7, 10u32);
    assert!(value.update_value(7, Ok(11)).is_ok());
    assert!(value.update_value(8, Ok(12)).is_err());
    assert!(value.update_value(7, Err("bad".to_string())).is_err());
    assert_eq!(*value.read(), 11);
    assert!(value.update_value(7, Ok(13)).is_ok());
    assert_eq!(*value.read(), 13);
}

#[test]
fn take_gives_the_latest_update_and_acknowledges_a_blocking_one() {
    let mut take = ValueTake::new("t".to_string(), 4, 2);
    let mut out = Vec::new();
    assert!(take.update_take(2, Ok(1u8), false, &mut out).is_ok());
    assert!(take.update_take(2, Ok(2u8), true, &mut out).is_ok());
    assert!(out.is_empty());
    assert_eq!(take.take(&mut out), Some(2));
    assert_eq!(out.len(), 1);
    assert!(matches!(out[0], ChannelMessage::Ack(4)));
    assert_eq!(take.take(&mut out), None);
    assert_eq!(out.len(), 1);
    assert!(take.update_take(2, Ok(3u8), false, &mut out).is_ok());
    assert_eq!(take.take(&mut out), Some(3));
    assert_eq!(out.len(), 1);
}

#[test]
fn single_mode_keeps_only_the_newest_value() {
    let mut map = OrderedMap::new();
    map.set_to_multi(3);
    map.insert(3, vec![1]);
    map.insert(3, vec![2]);
    map.set_to_single(3);
    map.insert(3, vec![4]);
    map.insert(3, vec![5]);
    assert_eq!(map.pop(3), Some(vec![5]));
    assert_eq!(map.pop(3), None);
}

#[test]
fn oversized_value_is_not_set() {
    let mut value = Value::new("v".to_string(), 2, 5, 1u32);
    let mut out = Vec::new();
    assert_eq!(value.set(7, vec![7], true, Ok(()), &mut out), None);
    assert_eq!(*value.read(), 7);
    assert!(matches!(&out[0], ChannelMessage::Value(2, 5, true, d) if d == &vec![7]));
    let refused = value.set(9, vec![9; 4], false, Err("value v is too large".to_string()), &mut out);
    assert_eq!(refused.as_deref(), Some("value v is too large, the value was not set"));
    assert_eq!(*value.read(), 7);
    assert_eq!(out.len(), 1);
}

#[test]
fn oversized_write_stays_local() {
    let mut value = Value::new("v".to_string(), 2, 5, 1u32);
    let mut out = Vec::new();
    let refused = value.write(3, vec![3; 4], false, Err("value v is too large".to_string()), &mut out);
    assert_eq!(
        refused.as_deref(),
        Some("value v is too large, the value stays out of sync with the server")
    );
    assert_eq!(*value.read(), 3);
    assert!(out.is_empty());
    assert_eq!(value.write(4, vec![4], false, Ok(()), &mut out), None);
    assert!(matches!(&out[0], ChannelMessage::Value(2, 5, false, d) if d == &vec![4]));
}

#[test]
fn frame_of_three_messages_reads_back_in_order() {
    // headers of 1, 2 and 1 bytes, with payloads of 2, 0 and 3 bytes
    let frame = Bytes::from(vec![0xa1, 1, 2, 0xb1, 0xb2, 0xc1, 3, 4, 5]);
    let headers = [
        (ServerHeader::Value(1, 9, false, 2), 1usize),
        (ServerHeader::Value(2, 9, true, 0), 2),
        (ServerHeader::Static(3, 9, false, 3), 1),
    ];
    let (mut parser, first) = MessagesParser::from_bytes(frame, Some(headers[0])).unwrap();
    assert!(matches!(first, ServerMessage::Value(1, 9, false, ref p) if p[..] == [1, 2]));
    let second = parser.next(Some(headers[1])).unwrap().unwrap();
    assert!(matches!(second, ServerMessage::Value(2, 9, true, ref p) if p.is_empty()));
    let third = parser.next(Some(headers[2])).unwrap().unwrap();
    assert!(matches!(third, ServerMessage::Static(3, 9, false, ref p) if p[..] == [3, 4, 5]));
    assert!(parser.next(None).unwrap().is_none());
}

#[test]
fn oversized_signal_is_not_sent() {
    let signal = Signal::new(6, 1);
    let mut out = Vec::new();
    assert_eq!(signal.set(vec![1], Ok(()), &mut out), None);
    assert!(matches!(&out[0], ChannelMessage::Signal(6, 1, d) if d == &vec![1]));
    let refused = signal.set(vec![1; 9], Err("signal s is too large".to_string()), &mut out);
    assert_eq!(refused.as_deref(), Some("signal s is too large, the signal was not sent"));
    assert_eq!(out.len(), 1);
}
