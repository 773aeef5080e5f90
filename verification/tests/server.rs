use bytes::Bytes;
use egui_states::image::ImageType;
use egui_states::server_collections::{ServerList, ServerMap};
use egui_states::server_image::{ImageData, ServerImage};
use egui_states::server_states::{
    accept_step, check_handshake, AcceptAction, AcceptEvent, ClientMessage, ServerAction, ServerStates,
};
use egui_states::server_values::{ServerSignal, ServerValue, ServerValueStatic};
use egui_states::socket_reader::{ClientHeader, SocketReader};

fn b(v: &[u8]) -> Bytes {
    Bytes::copy_from_slice(v)
}

#[test]
fn sent_value_waits_for_its_acknowledgement() {
    let mut v = ServerValue::new("v".to_string(), 1, b(&[1]));
    v.enable(true);
    assert!(v.set(b(&[2]), true));
    assert_eq!(v.pending(), 1);
    v.acknowledge();
    assert_eq!(v.pending(), 0);
    v.acknowledge();
    assert_eq!(v.pending(), 0);
}

#[test]
fn value_not_sent_while_disconnected_or_disabled() {
    let mut v = ServerValue::new("v".to_string(), 1, b(&[1]));
    assert!(!v.set(b(&[2]), true));
    v.enable(true);
    assert!(!v.set(b(&[3]), false));
    assert_eq!(v.pending(), 0);
    assert_eq!(v.get(), b(&[3]));
}

#[test]
fn client_change_ignored_while_server_change_waits() {
    let mut v = ServerValue::new("v".to_string(), 1, b(&[1]));
    assert!(v.update_value(false, b(&[9])).is_err());
    v.enable(true);
    assert!(v.set(b(&[2]), true));
    assert_eq!(v.update_value(true, b(&[9])).unwrap(), None);
    assert_eq!(v.get(), b(&[2]));
    v.acknowledge();
    assert_eq!(v.update_value(true, b(&[9])).unwrap(), Some(b(&[9])));
    assert_eq!(v.get(), b(&[9]));
    assert_eq!(v.update_value(false, b(&[8])).unwrap(), None);
    assert_eq!(v.get(), b(&[8]));
}

#[test]
fn sync_sends_the_value_once() {
    let mut v = ServerValue::new("v".to_string(), 1, b(&[5]));
    v.enable(true);
    v.set(b(&[6]), true);
    v.set(b(&[7]), true);
    assert_eq!(v.pending(), 2);
    assert_eq!(v.sync(), b(&[7]));
    assert_eq!(v.pending(), 1);
}

#[test]
fn static_value_and_signal() {
    let mut s = ServerValueStatic::new(2, b(&[1]));
    assert_eq!(s.sync(), None);
    assert!(!s.set(b(&[2]), true));
    s.enable(true);
    assert!(s.set(b(&[3]), true));
    assert_eq!(s.sync(), Some(b(&[3])));
    assert_eq!(s.get(), b(&[3]));

    let mut sig = ServerSignal::new("sig".to_string(), 3);
    assert!(sig.update_signal(b(&[1])).is_err());
    sig.enable(true);
    assert_eq!(sig.update_signal(b(&[4])).unwrap(), b(&[4]));
}

#[test]
fn list_changes() {
    let mut l = ServerList::new(4);
    l.enable(true);
    assert!(l.set(vec![b(&[1]), b(&[2])], true));
    assert_eq!(l.len(), 2);
    assert_eq!(l.set_item(1, b(&[3]), false), Ok(false));
    assert!(l.set_item(2, b(&[3]), true).is_err());
    assert_eq!(l.get_item(1), Ok(b(&[3])));
    assert!(l.append_item(b(&[4]), true));
    assert_eq!(l.remove_item(0, true), Ok((b(&[1]), true)));
    assert!(l.remove_item(5, true).is_err());
    assert_eq!(l.get(), vec![b(&[3]), b(&[4])]);
    assert!(l.sync());
}

#[test]
fn map_changes() {
    let mut m = ServerMap::new(5);
    m.enable(true);
    assert!(m.set_item(b(&[1]), b(&[10]), true));
    assert!(!m.set_item(b(&[2]), b(&[20]), false));
    m.set_item(b(&[1]), b(&[11]), true);
    assert_eq!(m.len(), 2);
    assert_eq!(m.get_item(&b(&[1])), Some(b(&[11])));
    assert_eq!(m.get_item(&b(&[3])), None);
    assert_eq!(m.remove_item(&b(&[2]), true), Some((b(&[20]), true)));
    assert_eq!(m.remove_item(&b(&[2]), true), None);
    assert_eq!(m.len(), 1);
}

#[test]
fn whole_image_is_stored_as_rgba() {
    let mut im = ServerImage::new(6);
    im.enable(true);
    let data = [10u8, 20, 30, 40];
    let image = ImageData {
        size: [2, 2],
        stride: 0,
        contiguous: true,
        image_type: ImageType::Gray,
        data: &data,
    };
    let sent = im.set_image(image, None, true).unwrap();
    assert_eq!(sent, Some(vec![10, 20, 30, 40]));
    assert_eq!(im.get_size(), [2, 2]);
    assert_eq!(
        im.get_image().clone(),
        vec![10, 10, 10, 255, 20, 20, 20, 255, 30, 30, 30, 255, 40, 40, 40, 255]
    );
    assert_eq!(im.sync(), Some(im.get_image().clone()));
}

#[test]
fn image_rows_with_gaps_are_packed() {
    let mut im = ServerImage::new(6);
    let data = [1u8, 2, 3, 99, 4, 5, 6, 99];
    let image = ImageData {
        size: [2, 1],
        stride: 4,
        contiguous: false,
        image_type: ImageType::Color,
        data: &data,
    };
    im.enable(true);
    assert_eq!(im.set_image(image, None, true).unwrap(), Some(vec![1, 2, 3, 4, 5, 6]));
    assert_eq!(im.get_image().clone(), vec![1, 2, 3, 255, 4, 5, 6, 255]);
}

#[test]
fn image_rectangle_is_written_in_place() {
    let mut im = ServerImage::new(6);
    let base = [0u8; 4];
    im.set_image(
        ImageData { size: [2, 2], stride: 0, contiguous: true, image_type: ImageType::Gray, data: &base },
        None,
        false,
    )
    .unwrap();
    let patch = [7u8, 8, 9, 10];
    let res = im.set_image(
        ImageData { size: [1, 1], stride: 0, contiguous: true, image_type: ImageType::ColorAlpha, data: &patch },
        Some([1, 0]),
        false,
    );
    assert_eq!(res, Ok(None));
    // rows with an alpha channel land at (row * width + 4 * column) bytes
    assert_eq!(
        im.get_image().clone(),
        vec![0, 0, 7, 8, 9, 10, 0, 255, 0, 0, 0, 255, 0, 0, 0, 255]
    );
    let gray = [5u8];
    im.set_image(
        ImageData { size: [1, 1], stride: 0, contiguous: true, image_type: ImageType::Gray, data: &gray },
        Some([1, 1]),
        false,
    )
    .unwrap();
    assert_eq!(
        im.get_image().clone(),
        vec![0, 0, 7, 8, 9, 10, 0, 255, 0, 0, 0, 255, 5, 5, 5, 255]
    );
    let too_big = im.set_image(
        ImageData { size: [1, 1], stride: 0, contiguous: true, image_type: ImageType::ColorAlpha, data: &patch },
        Some([2, 0]),
        false,
    );
    assert_eq!(
        too_big,
        Err("rectangle [2, 0] does not fit in the original image with size [2, 2]".to_string())
    );
}

#[test]
fn image_source_too_small_is_refused() {
    let mut im = ServerImage::new(6);
    let data = [1u8, 2, 3];
    let res = im.set_image(
        ImageData { size: [2, 2], stride: 0, contiguous: true, image_type: ImageType::Gray, data: &data },
        None,
        true,
    );
    assert!(res.is_err());
    assert_eq!(im.get_size(), [0, 0]);
    assert_eq!(im.sync(), None);
}

#[test]
fn registration_closes_with_finalize() {
    let mut s = ServerStates::new();
    assert_eq!(s.add_value("a".to_string(), 1, 100, b(&[1])), Ok(1));
    assert!(s.add_value("a".to_string(), 1, 100, b(&[1])).is_err());
    assert_eq!(s.add_signal("s".to_string(), 2, 200), Ok(2));
    assert_eq!(s.add_list(3, 300), Ok(3));
    assert!(s.finalize());
    assert!(!s.finalize());
    assert!(s.add_static(4, 400, b(&[1])).is_err());
    assert_eq!(s.registered_ids(), vec![1, 2, 3]);
}

#[test]
fn client_messages_reach_their_states() {
    let mut s = ServerStates::new();
    s.add_value("a".to_string(), 1, 100, b(&[1])).unwrap();
    s.add_signal("s".to_string(), 2, 200).unwrap();
    s.add_image(3).unwrap();
    s.finalize();

    assert!(s.handle_client_message(ClientMessage::Value(1, true, b(&[5]))).is_err());
    let types = vec![(1, 100), (2, 999)];
    assert!(s.connect_state(1, &types));
    assert!(!s.connect_state(2, &types));
    match s.handle_client_message(ClientMessage::Value(1, true, b(&[5]))).unwrap() {
        ServerAction::Signal(id, v) => {
            assert_eq!(id, 1);
            assert_eq!(v, b(&[5]));
        }
        other => panic!("unexpected {other:?}"),
    }
    assert!(s.handle_client_message(ClientMessage::Signal(2, b(&[1]))).is_err());
    assert!(matches!(
        s.handle_client_message(ClientMessage::Ack(3)).unwrap(),
        ServerAction::ImageAcknowledged(3)
    ));
    assert_eq!(
        s.handle_client_message(ClientMessage::Ack(9)).unwrap_err(),
        "value with id 9 not found for Acknowledge"
    );
    assert_eq!(
        s.handle_client_message(ClientMessage::Error("boom".to_string())).unwrap_err(),
        "Error message from client: boom"
    );
}

#[test]
fn sync_sends_what_the_client_shows() {
    let mut s = ServerStates::new();
    s.add_value("a".to_string(), 1, 100, b(&[1])).unwrap();
    s.add_static(2, 200, b(&[2])).unwrap();
    s.finalize();
    let out = s.sync_state(1);
    assert_eq!(out.value, Some(b(&[1])));
    let out = s.sync_state(2);
    assert_eq!(out.static_value, None);
    s.set_enabled(2, true);
    let out = s.sync_state(2);
    assert_eq!(out.static_value, Some(b(&[2])));
}

#[test]
fn handshake_checks_version_then_hash() {
    assert!(check_handshake(3, 7, 3, &None).is_ok());
    assert!(check_handshake(3, 7, 3, &Some(vec![1, 7])).is_ok());
    assert_eq!(
        check_handshake(2, 7, 3, &Some(vec![7])).unwrap_err(),
        "attempted to connect with wrong protocol version: expected 3, got 2"
    );
    assert_eq!(
        check_handshake(3, 8, 3, &Some(vec![7])).unwrap_err(),
        "attempted to connect with wrong hash"
    );
}

#[test]
fn listening_loop_decisions() {
    let allowed = Some(vec![5]);
    match accept_step(false, AcceptEvent::Handshake(1, 5), 1, &allowed) {
        (true, AcceptAction::Connect(false)) => {}
        _ => panic!("expected a connection"),
    }
    match accept_step(true, AcceptEvent::Handshake(1, 5), 1, &allowed) {
        (true, AcceptAction::Connect(true)) => {}
        _ => panic!("expected the client to be replaced"),
    }
    match accept_step(true, AcceptEvent::Handshake(1, 6), 1, &allowed) {
        (true, AcceptAction::Report(m, false, false)) => assert_eq!(m, "attempted to connect with wrong hash"),
        _ => panic!("expected a warning"),
    }
    match accept_step(false, AcceptEvent::OtherMessage, 1, &allowed) {
        (false, AcceptAction::Report(m, true, true)) => assert_eq!(m, "expected handshake message from client"),
        _ => panic!("expected an error"),
    }
    match accept_step(false, AcceptEvent::AcceptFailed("io".to_string()), 1, &allowed) {
        (false, AcceptAction::Report(m, true, false)) => assert_eq!(m, "accepting connection failed: io"),
        _ => panic!("expected an error"),
    }
    match accept_step(true, AcceptEvent::Stop, 1, &allowed) {
        (true, AcceptAction::Finish(true)) => {}
        _ => panic!("expected the loop to finish"),
    }
}

#[test]
fn frames_with_several_messages_are_read_in_turn() {
    let mut r = SocketReader::new();
    let frame = b(&[0, 0, 1, 2, 3, 0, 9]);
    let m = r.next_frame(frame, Some((ClientHeader::Value(4, false, 3), 2))).unwrap();
    match m {
        ClientMessage::Value(4, false, payload) => assert_eq!(payload, b(&[1, 2, 3])),
        other => panic!("unexpected {other:?}"),
    }
    assert_eq!(r.pending(), Some(b(&[0, 9])));
    let m = r.next_pending(Some((ClientHeader::Signal(8, 1), 1))).unwrap();
    match m {
        ClientMessage::Signal(8, payload) => assert_eq!(payload, b(&[9])),
        other => panic!("unexpected {other:?}"),
    }
    assert_eq!(r.pending(), None);
}

#[test]
fn incomplete_message_is_refused() {
    let mut r = SocketReader::new();
    let res = r.next_frame(b(&[0, 1]), Some((ClientHeader::Value(1, false, 5), 1)));
    assert_eq!(res.unwrap_err(), "Incomplete data received");
    assert_eq!(r.pending(), None);
    let res = r.next_frame(b(&[0]), None);
    assert_eq!(res.unwrap_err(), "Failed to deserialize message header");
}

#[test]
fn alpha_rows_are_copied_one_after_the_other() {
    let mut im = ServerImage::new(7);
    let base = [0u8; 4];
    im.set_image(
        ImageData { size: [2, 2], stride: 0, contiguous: true, image_type: ImageType::Gray, data: &base },
        None,
        false,
    )
    .unwrap();
    let rows = [1u8, 2, 3, 4, 5, 6, 7, 8];
    im.set_image(
        ImageData { size: [2, 1], stride: 0, contiguous: true, image_type: ImageType::ColorAlpha, data: &rows },
        Some([0, 0]),
        false,
    )
    .unwrap();
    // the second row starts two bytes after the first and covers its end
    assert_eq!(
        im.get_image().clone(),
        vec![1, 2, 5, 6, 7, 8, 0, 255, 0, 0, 0, 255, 0, 0, 0, 255]
    );
}
