use bytes::Bytes;
use egui_states::channel::ChannelMessage;
use egui_states::data::{DataMessage, DataMultiMessage};
use egui_states::data_take::{DataMultiTake, DataMultiTakeMessage, DataTake, DataTakeMessage};
use egui_states::data_transport::{DataType, TransportType};
use egui_states::image::{ImageMessage, ImageSetMessage, ImageType};
use egui_states::messages::ServerMessage;
use egui_states::values_list::ValuesList;

fn assert_single_ack(out: &mut Vec<ChannelMessage>, expected_id: u64) {
    assert_eq!(out.len(), 1, "expected an ACK for {expected_id}");
    match out[0] {
        ChannelMessage::Ack(id) => assert_eq!(id, expected_id),
        _ => panic!("expected an ACK for {expected_id}"),
    }
    out.clear();
}

fn assert_no_message(out: &Vec<ChannelMessage>) {
    assert!(out.is_empty());
}

fn dispatch_missing(message: ServerMessage) -> Vec<ChannelMessage> {
    let mut values = ValuesList::new();
    let mut out = Vec::new();
    assert!(values.handle_message(message, &mut out).is_err());
    out
}

fn assert_ack(mut out: Vec<ChannelMessage>, expected_id: u64) {
    assert_single_ack(&mut out, expected_id);
}

fn assert_no_ack(out: Vec<ChannelMessage>) {
    assert_no_message(&out);
}

#[test]
fn data_take_acks_only_blocking_single_message_failures() {
    let id = 61;
    let mut out = Vec::new();
    let mut take = DataTake::new("take".to_string(), id, DataType::U8);

    let invalid = || DataTakeMessage::All(DataType::U16, 1, vec![0, 0]);
    assert!(take.update(invalid(), true, &mut out).is_err());
    assert_single_ack(&mut out, id);

    assert!(take.update(invalid(), false, &mut out).is_err());
    assert_no_message(&out);
}

#[test]
fn failed_data_take_batch_acks_at_end_and_keeps_previous_value() {
    let id = 62;
    let mut out = Vec::new();
    let mut take = DataTake::new("take".to_string(), id, DataType::U16);

    take.update(
        DataTakeMessage::All(DataType::U16, 1, 9_u16.to_ne_bytes().to_vec()),
        false,
        &mut out,
    )
    .unwrap();
    take.update(
        DataTakeMessage::BatchStart(3, 1_u16.to_ne_bytes().to_vec()),
        true,
        &mut out,
    )
    .unwrap();
    take.update(DataTakeMessage::Batch(vec![1]), true, &mut out)
        .unwrap();
    assert_no_message(&out);

    assert!(take
        .update(
            DataTakeMessage::BatchEnd(DataType::U16, 3, 2_u16.to_ne_bytes().to_vec()),
            true,
            &mut out,
        )
        .is_err());
    assert_single_ack(&mut out, id);
    assert_eq!(take.take(&mut out), Some(9_u16.to_ne_bytes().to_vec()));
    assert_no_message(&out);
}

#[test]
fn successful_blocking_data_take_still_acks_on_consumption() {
    let id = 63;
    let mut out = Vec::new();
    let mut take = DataTake::new("take".to_string(), id, DataType::U8);

    take.update(DataTakeMessage::All(DataType::U8, 2, vec![1, 2]), true, &mut out)
        .unwrap();
    assert_no_message(&out);
    assert_eq!(take.take(&mut out), Some(vec![1, 2]));
    assert_single_ack(&mut out, id);
}

#[test]
fn data_multi_take_acks_blocking_single_and_batch_failures() {
    let id = 64;
    let mut out = Vec::new();
    let mut take = DataMultiTake::new("multi_take".to_string(), id, DataType::U16);

    assert!(take
        .update(3, DataTakeMessage::All(DataType::U8, 1, vec![0]), true, &mut out)
        .is_err());
    assert_single_ack(&mut out, id);

    take.update(
        7,
        DataTakeMessage::BatchStart(3, 1_u16.to_ne_bytes().to_vec()),
        true,
        &mut out,
    )
    .unwrap();
    take.update(7, DataTakeMessage::Batch(vec![1]), true, &mut out)
        .unwrap();
    assert_no_message(&out);
    assert!(take
        .update(
            7,
            DataTakeMessage::BatchEnd(DataType::U16, 3, 2_u16.to_ne_bytes().to_vec()),
            true,
            &mut out,
        )
        .is_err());
    assert_single_ack(&mut out, id);
    assert!(!take.is_some(7));
}

#[test]
fn missing_value_and_blocking_value_take_ack() {
    assert_ack(
        dispatch_missing(ServerMessage::Value(71, 0, false, Bytes::new())),
        71,
    );
    assert_ack(
        dispatch_missing(ServerMessage::ValueTake(72, 0, true, false, Bytes::new())),
        72,
    );
    assert_no_ack(dispatch_missing(ServerMessage::ValueTake(
        73,
        0,
        false,
        false,
        Bytes::new(),
    )));
}

#[test]
fn missing_image_acks_only_ack_boundaries() {
    assert_ack(
        dispatch_missing(ServerMessage::Image(
            74,
            false,
            ImageMessage::Fill([1, 1], [0; 4]),
            Bytes::new(),
        )),
        74,
    );
    assert_no_ack(dispatch_missing(ServerMessage::Image(
        75,
        false,
        ImageMessage::SetImage(ImageSetMessage::Start([1, 1], 1), ImageType::ColorAlpha),
        Bytes::new(),
    )));
}

#[test]
fn missing_data_acks_only_terminal_operations() {
    assert_ack(
        dispatch_missing(ServerMessage::Data(
            76,
            false,
            DataMessage::All(DataType::U8, TransportType::SetAll(1), vec![1]),
        )),
        76,
    );
    assert_no_ack(dispatch_missing(ServerMessage::Data(
        77,
        false,
        DataMessage::BatchStart(1, vec![1]),
    )));
    assert_ack(
        dispatch_missing(ServerMessage::DataMulti(
            78,
            false,
            DataMultiMessage::Modify(
                3,
                DataMessage::All(DataType::U8, TransportType::SetAll(1), vec![1]),
            ),
        )),
        78,
    );
}

#[test]
fn missing_take_data_acks_only_blocking_terminal_operations() {
    assert_ack(
        dispatch_missing(ServerMessage::DataTake(
            79,
            true,
            false,
            DataTakeMessage::All(DataType::U8, 1, vec![1]),
        )),
        79,
    );
    assert_no_ack(dispatch_missing(ServerMessage::DataTake(
        80,
        true,
        false,
        DataTakeMessage::BatchStart(1, vec![1]),
    )));
    assert_ack(
        dispatch_missing(ServerMessage::DataMultiTake(
            81,
            false,
            DataMultiTakeMessage::Modify(3, DataTakeMessage::All(DataType::U8, 1, vec![1]), true),
        )),
        81,
    );
    assert_no_ack(dispatch_missing(ServerMessage::DataMultiTake(
        82,
        false,
        DataMultiTakeMessage::Modify(3, DataTakeMessage::All(DataType::U8, 1, vec![1]), false),
    )));
}
