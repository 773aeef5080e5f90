use egui_states::channel::ChannelMessage;
use egui_states::image::{
    convert_pixels, ImageMessage, ImageSetMessage, ImageState, ImageType, TextureUpdate,
};

fn ack_count(out: &[ChannelMessage], id: u64) -> usize {
    out.iter()
        .filter(|m| matches!(m, ChannelMessage::Ack(i) if *i == id))
        .count()
}

fn full(update: Option<TextureUpdate>) -> (Vec<u8>, [usize; 2]) {
    match update {
        Some(TextureUpdate::Full(rgba, size)) => (rgba, size),
        other => panic!("expected a full update, got {other:?}"),
    }
}

#[test]
fn pixel_layouts_convert_to_rgba() {
    assert_eq!(
        convert_pixels(ImageType::Color, &[1, 2, 3, 4, 5, 6], 2),
        vec![1, 2, 3, 255, 4, 5, 6, 255]
    );
    assert_eq!(
        convert_pixels(ImageType::ColorAlpha, &[1, 2, 3, 4], 1),
        vec![1, 2, 3, 4]
    );
    assert_eq!(
        convert_pixels(ImageType::Gray, &[7, 8], 2),
        vec![7, 7, 7, 255, 8, 8, 8, 255]
    );
    assert_eq!(
        convert_pixels(ImageType::GrayAlpha, &[7, 9], 1),
        vec![7, 7, 7, 9]
    );
}

#[test]
fn whole_image_without_texture_is_acknowledged_and_not_shown() {
    let mut out = Vec::new();
    let mut image = ImageState::new("img".to_string(), 9);
    let res = image
        .set_image(ImageSetMessage::All([2, 1]), ImageType::Gray, &[10, 20], &mut out)
        .unwrap();
    assert!(res.is_none());
    assert_eq!(ack_count(&out, 9), 1);
    assert_eq!(image.get_size(), None);
}

#[test]
fn whole_image_replaces_texture() {
    let mut out = Vec::new();
    let mut image = ImageState::new("img".to_string(), 9);
    image.initialize([1, 1]);
    let (rgba, size) = full(
        image
            .set_image(ImageSetMessage::All([2, 1]), ImageType::Gray, &[10, 20], &mut out)
            .unwrap(),
    );
    assert_eq!(rgba, vec![10, 10, 10, 255, 20, 20, 20, 255]);
    assert_eq!(size, [2, 1]);
    assert_eq!(image.get_size(), Some([2, 1]));
    assert!(image
        .set_image(ImageSetMessage::All([2, 2]), ImageType::Gray, &[1, 2, 3], &mut out)
        .is_err());
    assert_eq!(ack_count(&out, 9), 2);
    assert_eq!(image.get_size(), Some([2, 1]));
}

#[test]
fn batched_image_shows_the_batches_before_the_end() {
    let pixels: Vec<u8> = (1..=12).collect();
    let mut out = Vec::new();
    let mut batched = ImageState::new("a".to_string(), 1);
    batched.initialize([2, 2]);
    assert!(batched
        .set_image(
            ImageSetMessage::Start([2, 2], 1),
            ImageType::Color,
            &pixels[0..3],
            &mut out
        )
        .unwrap()
        .is_none());
    assert!(batched
        .set_image(ImageSetMessage::Batch(2), ImageType::Color, &pixels[3..9], &mut out)
        .unwrap()
        .is_none());
    assert!(out.is_empty());
    let (rgba, size) = full(
        batched
            .set_image(ImageSetMessage::End(1), ImageType::Color, &pixels[9..12], &mut out)
            .unwrap(),
    );
    assert_eq!(ack_count(&out, 1), 1);
    assert_eq!(size, [2, 2]);
    // the pixels counted by the end message are checked, not drawn
    assert_eq!(
        rgba,
        vec![1, 2, 3, 255, 4, 5, 6, 255, 7, 8, 9, 255, 255, 255, 255, 255]
    );

    let mut whole = ImageState::new("b".to_string(), 2);
    whole.initialize([2, 2]);
    let mut out2 = Vec::new();
    batched_start_then_end(&mut whole, &pixels, &mut out2);
    let (rgba2, _) = full(
        whole
            .set_image(ImageSetMessage::All([2, 2]), ImageType::Color, &pixels, &mut out2)
            .unwrap(),
    );
    assert_eq!(
        rgba2,
        vec![1, 2, 3, 255, 4, 5, 6, 255, 7, 8, 9, 255, 10, 11, 12, 255]
    );
}

fn batched_start_then_end(image: &mut ImageState, pixels: &[u8], out: &mut Vec<ChannelMessage>) {
    image
        .set_image(ImageSetMessage::Start([2, 2], 4), ImageType::Color, pixels, out)
        .unwrap();
    let (rgba, _) = full(image.set_image(ImageSetMessage::End(0), ImageType::Color, &[], out).unwrap());
    assert_eq!(
        rgba,
        vec![1, 2, 3, 255, 4, 5, 6, 255, 7, 8, 9, 255, 10, 11, 12, 255]
    );
}

#[test]
fn batches_must_stay_inside_the_image() {
    let mut out = Vec::new();
    let mut image = ImageState::new("img".to_string(), 3);
    image
        .set_image(ImageSetMessage::Start([1, 2], 1), ImageType::Gray, &[1], &mut out)
        .unwrap();
    assert!(image
        .set_image(ImageSetMessage::Batch(1), ImageType::Gray, &[2], &mut out)
        .is_err());
    assert!(image
        .set_image(ImageSetMessage::End(2), ImageType::Gray, &[2, 3], &mut out)
        .is_err());
    assert_eq!(ack_count(&out, 3), 1);
    assert!(image
        .set_image(ImageSetMessage::End(1), ImageType::Gray, &[2], &mut out)
        .is_err());
    assert!(image
        .set_image(ImageSetMessage::Batch(1), ImageType::Gray, &[2], &mut out)
        .is_err());
    assert!(image
        .set_image(ImageSetMessage::Start([1, 1], 2), ImageType::Gray, &[1, 2], &mut out)
        .is_err());
}

#[test]
fn rectangles_update_the_texture() {
    let mut out = Vec::new();
    let mut image = ImageState::new("img".to_string(), 4);
    image.initialize([2, 1]);
    let (rgba, size) = full(
        image
            .update_image([0, 0, 2, 1], ImageType::Gray, &[5, 6], &mut out)
            .unwrap(),
    );
    assert_eq!(rgba, vec![5, 5, 5, 255, 6, 6, 6, 255]);
    assert_eq!(size, [2, 1]);
    match image
        .update_image([1, 0, 1, 1], ImageType::ColorAlpha, &[1, 2, 3, 4], &mut out)
        .unwrap()
    {
        Some(TextureUpdate::Partial(origin, rgba, size)) => {
            assert_eq!(origin, [1, 0]);
            assert_eq!(rgba, vec![1, 2, 3, 4]);
            assert_eq!(size, [1, 1]);
        }
        other => panic!("expected a partial update, got {other:?}"),
    }
    assert!(image
        .update_image([1, 0, 2, 1], ImageType::Gray, &[1, 2], &mut out)
        .is_err());
    assert!(image
        .update_image([0, 0, 1, 1], ImageType::Gray, &[1, 2], &mut out)
        .is_err());
    assert_eq!(ack_count(&out, 4), 4);
}

#[test]
fn fill_paints_one_colour() {
    let mut out = Vec::new();
    let mut image = ImageState::new("img".to_string(), 5);
    image.initialize([3, 3]);
    let (rgba, size) = full(image.fill_image([1, 2], [1, 2, 3, 4], &mut out).unwrap());
    assert_eq!(rgba, vec![1, 2, 3, 4, 1, 2, 3, 4]);
    assert_eq!(size, [1, 2]);
    assert_eq!(image.get_size(), Some([1, 2]));
    assert_eq!(ack_count(&out, 5), 1);
}

#[test]
fn messages_are_acknowledged_when_they_complete_a_change() {
    let mut out = Vec::new();
    let mut image = ImageState::new("img".to_string(), 6);
    image
        .apply(
            ImageMessage::SetImage(ImageSetMessage::Start([1, 1], 0), ImageType::Gray),
            &[],
            &mut out,
        )
        .unwrap();
    assert!(out.is_empty());
    image
        .apply(
            ImageMessage::SetImage(ImageSetMessage::End(1), ImageType::Gray),
            &[8],
            &mut out,
        )
        .unwrap();
    assert_eq!(ack_count(&out, 6), 1);
    image
        .apply(ImageMessage::Fill([1, 1], [0; 4]), &[], &mut out)
        .unwrap();
    assert_eq!(ack_count(&out, 6), 2);
}
