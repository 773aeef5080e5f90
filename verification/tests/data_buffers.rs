use egui_states::channel::ChannelMessage;
use egui_states::data::{Data, DataMessage, DataMulti};
use egui_states::data_transport::{DataType, TransportType};

fn acks(out: &[ChannelMessage]) -> Vec<u64> {
    out.iter()
        .map(|m| match m {
            ChannelMessage::Ack(id) => *id,
            _ => panic!("unexpected message"),
        })
        .collect()
}

#[test]
fn whole_payload_replaces_and_acknowledges() {
    let mut out = Vec::new();
    let mut data = Data::new("d".to_string(), 5, DataType::U16);
    data.update(
        DataMessage::All(DataType::U16, TransportType::SetAll(2), vec![1, 0, 2, 0]),
        &mut out,
    )
    .unwrap();
    assert_eq!(data.get(), vec![1, 0, 2, 0]);
    assert_eq!(acks(&out), vec![5]);
}

#[test]
fn wrong_type_is_refused_without_acknowledgement() {
    let mut out = Vec::new();
    let mut data = Data::new("d".to_string(), 5, DataType::U16);
    assert!(data
        .update(
            DataMessage::All(DataType::U8, TransportType::SetAll(2), vec![1, 2]),
            &mut out,
        )
        .is_err());
    assert!(out.is_empty());
    assert!(data.get().is_empty());
}

#[test]
fn partial_element_is_refused_but_acknowledged() {
    let mut out = Vec::new();
    let mut data = Data::new("d".to_string(), 6, DataType::U16);
    assert!(data
        .update(
            DataMessage::All(DataType::U16, TransportType::SetAll(1), vec![1, 2, 3]),
            &mut out,
        )
        .is_err());
    assert_eq!(acks(&out), vec![6]);
}

#[test]
fn add_replace_drain_and_clear() {
    let mut out = Vec::new();
    let mut data = Data::new("d".to_string(), 7, DataType::U16);
    data.update(
        DataMessage::All(DataType::U16, TransportType::SetAll(2), vec![1, 0, 2, 0]),
        &mut out,
    )
    .unwrap();
    data.update(
        DataMessage::All(DataType::U16, TransportType::Add(1), vec![3, 0]),
        &mut out,
    )
    .unwrap();
    assert_eq!(data.get(), vec![1, 0, 2, 0, 3, 0]);
    data.update(
        DataMessage::All(DataType::U16, TransportType::Replace(1, 1), vec![9, 0]),
        &mut out,
    )
    .unwrap();
    assert_eq!(data.get(), vec![1, 0, 9, 0, 3, 0]);
    assert!(data
        .update(
            DataMessage::All(DataType::U16, TransportType::Replace(2, 2), vec![1, 1, 1, 1]),
            &mut out,
        )
        .is_err());
    assert_eq!(data.get(), vec![1, 0, 9, 0, 3, 0]);
    data.update(DataMessage::Drain(0, 1), &mut out).unwrap();
    assert_eq!(data.get(), vec![9, 0, 3, 0]);
    assert!(data.update(DataMessage::Drain(1, 2), &mut out).is_err());
    assert_eq!(data.get(), vec![9, 0, 3, 0]);
    assert_eq!(acks(&out), vec![7, 7, 7, 7, 7, 7]);
    out.clear();
    data.update(DataMessage::Clear, &mut out).unwrap();
    assert!(data.get().is_empty());
    assert!(out.is_empty());
}

#[test]
fn batches_store_what_one_message_stores() {
    let mut out = Vec::new();
    let mut batched = Data::new("b".to_string(), 8, DataType::U16);
    batched
        .update(DataMessage::BatchStart(3, vec![1, 0]), &mut out)
        .unwrap();
    batched.update(DataMessage::Batch(vec![2, 0]), &mut out).unwrap();
    assert!(out.is_empty());
    batched
        .update(
            DataMessage::BatchEnd(DataType::U16, TransportType::SetAll(3), vec![3, 0]),
            &mut out,
        )
        .unwrap();
    assert_eq!(acks(&out), vec![8]);

    let mut whole = Data::new("w".to_string(), 8, DataType::U16);
    let mut out2 = Vec::new();
    whole
        .update(
            DataMessage::All(
                DataType::U16,
                TransportType::SetAll(3),
                vec![1, 0, 2, 0, 3, 0],
            ),
            &mut out2,
        )
        .unwrap();
    assert_eq!(batched.get(), whole.get());
    assert_eq!(acks(&out2), vec![8]);
}

#[test]
fn batch_beyond_announced_count_is_refused() {
    let mut out = Vec::new();
    let mut data = Data::new("d".to_string(), 9, DataType::U8);
    data.update(DataMessage::BatchStart(2, vec![1]), &mut out)
        .unwrap();
    assert!(data.update(DataMessage::Batch(vec![2, 3]), &mut out).is_err());
    assert!(data
        .update(
            DataMessage::BatchEnd(DataType::U8, TransportType::SetAll(2), vec![2]),
            &mut out,
        )
        .is_ok());
    assert_eq!(data.get(), vec![1, 2]);
    assert!(data
        .update(
            DataMessage::BatchEnd(DataType::U8, TransportType::SetAll(2), vec![2]),
            &mut out,
        )
        .is_err());
    assert_eq!(acks(&out), vec![9, 9]);
}

#[test]
fn keyed_buffers_are_independent() {
    let mut out = Vec::new();
    let mut multi = DataMulti::new("m".to_string(), 10, DataType::U8);
    multi
        .update(
            3,
            DataMessage::All(DataType::U8, TransportType::SetAll(1), vec![7]),
            &mut out,
        )
        .unwrap();
    multi
        .update(
            4,
            DataMessage::All(DataType::U8, TransportType::SetAll(2), vec![1, 2]),
            &mut out,
        )
        .unwrap();
    assert_eq!(multi.get(3), Some(vec![7]));
    assert_eq!(multi.get(4), Some(vec![1, 2]));
    multi.remove(3);
    assert_eq!(multi.get(3), None);
    assert_eq!(multi.get(4), Some(vec![1, 2]));
    multi.reset();
    assert_eq!(multi.get(4), None);
    assert_eq!(acks(&out), vec![10, 10]);
}
