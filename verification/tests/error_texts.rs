use egui_states::data::{Data, DataMessage, DataMulti};
use egui_states::data_take::{DataMultiTake, DataTake, DataTakeMessage};
use egui_states::data_transport::{DataType, TransportType};
use egui_states::image::{ImageSetMessage, ImageState, ImageType};
use egui_states::messages::ServerMessage;
use egui_states::values_list::ValuesList;

#[test]
fn data_errors_name_the_numbers() {
    let mut out = Vec::new();
    let mut data = Data::new("temps".to_string(), 1, DataType::U16);
    let e = data
        .update(DataMessage::All(DataType::U8, TransportType::SetAll(1), vec![1]), &mut out)
        .unwrap_err();
    assert_eq!(e, "Data type U8 does not match expected type U16 for Data: temps");
    let e = data
        .update(DataMessage::All(DataType::U16, TransportType::SetAll(2), vec![1, 2, 3]), &mut out)
        .unwrap_err();
    assert_eq!(e, "Data size 3 is not a multiple of element size 2");
    let e = data
        .update(DataMessage::All(DataType::U16, TransportType::Add(2), vec![1, 2]), &mut out)
        .unwrap_err();
    assert_eq!(e, "Data size 1 does not match expected count 2 for Add transport type");
    let e = data
        .update(DataMessage::All(DataType::U16, TransportType::Replace(0, 1), vec![1, 2]), &mut out)
        .unwrap_err();
    assert_eq!(e, "Replace range (0 to 1) exceeds current data size 0");
    let e = data.update(DataMessage::Batch(vec![1, 2]), &mut out).unwrap_err();
    assert_eq!(e, "No header found for Data: temps when updating batch");
    let e = data.update(DataMessage::Drain(3, 1), &mut out).unwrap_err();
    assert_eq!(e, "Drain range (3 to 4) exceeds current data size 0");
}

#[test]
fn batch_errors_name_the_counts() {
    let mut out = Vec::new();
    let mut data = DataMulti::new("series".to_string(), 2, DataType::U8);
    let e = data.update(7, DataMessage::BatchStart(1, vec![1, 2]), &mut out).unwrap_err();
    assert_eq!(e, "Batch start data size 2 exceeds total data size 1");
    data.update(7, DataMessage::BatchStart(3, vec![1]), &mut out).unwrap();
    let e = data
        .update(7, DataMessage::BatchEnd(DataType::U8, TransportType::SetAll(3), vec![2]), &mut out)
        .unwrap_err();
    assert_eq!(e, "Batch end data size 2 does not match total data size 3");
    let e = data
        .update(7, DataMessage::BatchEnd(DataType::U8, TransportType::SetAll(3), vec![2]), &mut out)
        .unwrap_err();
    assert_eq!(e, "No header found for Data: series when updating batch end");
}

#[test]
fn take_errors_are_reported_at_the_end_of_a_transfer() {
    let mut out = Vec::new();
    let mut take = DataTake::new("frames".to_string(), 3, DataType::U16);
    let e = take
        .update(DataTakeMessage::All(DataType::U32, 1, vec![0, 0, 0, 0]), false, &mut out)
        .unwrap_err();
    assert_eq!(e, "Data type U32 does not match expected type U16 for DataTake: frames");
    let e = take
        .update(DataTakeMessage::All(DataType::U16, 2, vec![0, 0]), false, &mut out)
        .unwrap_err();
    assert_eq!(e, "Data size 2 does not match expected count 2 for DataTake: frames");
    take.update(DataTakeMessage::BatchStart(2, vec![0, 0]), false, &mut out).unwrap();
    take.update(DataTakeMessage::Batch(vec![0, 0]), true, &mut out).unwrap();
    let e = take
        .update(DataTakeMessage::BatchEnd(DataType::U16, 2, vec![]), false, &mut out)
        .unwrap_err();
    assert_eq!(e, "Blocking flag changed within a batch for DataTake: frames");

    let mut multi = DataMultiTake::new("tiles".to_string(), 4, DataType::U8);
    let e = multi
        .update(1, DataTakeMessage::BatchEnd(DataType::U8, 1, vec![0]), false, &mut out)
        .unwrap_err();
    assert_eq!(e, "No header found for DataMultiTake: tiles key 1 when updating batch end");
    let e = multi
        .update(1, DataTakeMessage::All(DataType::I8, 1, vec![0]), false, &mut out)
        .unwrap_err();
    assert_eq!(e, "Data type I8 does not match expected type U8 for DataMultiTake: tiles");
}

#[test]
fn image_errors_name_the_image() {
    let mut out = Vec::new();
    let mut image = ImageState::new("camera".to_string(), 5);
    let e = image
        .set_image(ImageSetMessage::All([2, 2]), ImageType::Gray, &[1, 2, 3], &mut out)
        .unwrap_err();
    assert_eq!(e, "Data length does not match expected size: 3");
    let e = image
        .set_image(ImageSetMessage::Batch(1), ImageType::Gray, &[1], &mut out)
        .unwrap_err();
    assert_eq!(e, "No image buffer found for image: camera");
    let e = image
        .set_image(ImageSetMessage::Start([1, 1], 2), ImageType::Gray, &[1, 2], &mut out)
        .unwrap_err();
    assert_eq!(e, "Pixels exceed image size in camera");
    image.set_image(ImageSetMessage::Start([2, 1], 1), ImageType::Gray, &[1], &mut out).unwrap();
    let e = image
        .set_image(ImageSetMessage::End(2), ImageType::Gray, &[1, 2], &mut out)
        .unwrap_err();
    assert_eq!(e, "Pixels do not match expected size in camera: 3 vs 2");
    let e = image.update_image([0, 0, 1, 1], ImageType::Gray, &[], &mut out).unwrap_err();
    assert_eq!(e, "Data length does not match expected size: camera");
}

#[test]
fn unknown_states_are_named_by_kind_and_id() {
    let mut values = ValuesList::new();
    let mut out = Vec::new();
    let e = values
        .handle_message(
            ServerMessage::Data(12, false, DataMessage::Clear),
            &mut out,
        )
        .unwrap_err();
    assert_eq!(e, "Data with id 12 not found");
}

#[test]
fn take_batch_errors_name_the_sizes() {
    let mut out = Vec::new();
    let mut take = DataTake::new("frames".to_string(), 3, DataType::U16);
    take.update(DataTakeMessage::BatchStart(1, vec![0, 0, 0, 0]), false, &mut out).unwrap();
    let e = take
        .update(DataTakeMessage::BatchEnd(DataType::U16, 1, vec![]), false, &mut out)
        .unwrap_err();
    assert_eq!(e, "Batch start data size 4 exceeds total data size 2");
    take.update(DataTakeMessage::BatchStart(2, vec![0, 0]), false, &mut out).unwrap();
    take.update(DataTakeMessage::Batch(vec![0, 0, 0, 0]), false, &mut out).unwrap();
    let e = take
        .update(DataTakeMessage::BatchEnd(DataType::U16, 2, vec![]), false, &mut out)
        .unwrap_err();
    assert_eq!(e, "Batch data size 3 exceeds total data size 2");
    take.update(DataTakeMessage::BatchStart(3, vec![0, 0]), false, &mut out).unwrap();
    let e = take
        .update(DataTakeMessage::BatchEnd(DataType::U16, 3, vec![0, 0]), false, &mut out)
        .unwrap_err();
    assert_eq!(e, "Batch end data size 2 does not match total data size 3");

    let mut multi = DataMultiTake::new("tiles".to_string(), 4, DataType::U8);
    multi.update(9, DataTakeMessage::BatchStart(2, vec![0]), false, &mut out).unwrap();
    multi.update(9, DataTakeMessage::Batch(vec![0]), true, &mut out).unwrap();
    let e = multi
        .update(9, DataTakeMessage::BatchEnd(DataType::U8, 2, vec![]), true, &mut out)
        .unwrap_err();
    assert_eq!(e, "Blocking flag changed within a batch for DataMultiTake: tiles key 9");
    let e = multi.update(9, DataTakeMessage::All(DataType::U8, 2, vec![0]), false, &mut out).unwrap_err();
    assert_eq!(e, "Data size 1 does not match expected count 2 for DataMultiTake: tiles");
}

#[test]
fn range_errors_count_elements() {
    let mut out = Vec::new();
    let mut data = Data::new("levels".to_string(), 8, DataType::U16);
    data.update(DataMessage::All(DataType::U16, TransportType::SetAll(2), vec![1, 0, 2, 0]), &mut out)
        .unwrap();
    let e = data.update(DataMessage::Drain(1, 5), &mut out).unwrap_err();
    assert_eq!(e, "Drain range (1 to 6) exceeds current data size 2");
    let e = data
        .update(DataMessage::All(DataType::U16, TransportType::Replace(2, 1), vec![7, 0]), &mut out)
        .unwrap_err();
    assert_eq!(e, "Replace range (2 to 3) exceeds current data size 2");
    let e = data
        .update(DataMessage::All(DataType::U16, TransportType::SetAll(3), vec![7, 0]), &mut out)
        .unwrap_err();
    assert_eq!(e, "Data size 1 does not match expected count 3 for Set transport type");
}
