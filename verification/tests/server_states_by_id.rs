use bytes::Bytes;
use egui_states::graphs::GraphType;
use egui_states::image::ImageType;
use egui_states::server_graphs::ServerGraphs;
use egui_states::server_image::ImageData;
use egui_states::server_states::ServerStates;

fn b(v: &[u8]) -> Bytes {
    Bytes::copy_from_slice(v)
}

#[test]
fn values_are_set_and_read_by_id() {
    let mut s = ServerStates::new();
    s.add_value("a".to_string(), 1, 100, b(&[1])).unwrap();
    s.add_static(2, 200, b(&[2])).unwrap();
    s.finalize();
    assert_eq!(s.set_value(1, b(&[7]), true), Ok(false));
    assert_eq!(s.get_value(1), Ok(b(&[7])));
    assert_eq!(s.get_value(5).unwrap_err(), "Value ID not found");
    s.set_enabled(1, true);
    assert_eq!(s.set_value(1, b(&[8]), true), Ok(true));
    assert_eq!(s.set_value_static(2, b(&[3]), true), Ok(false));
    assert_eq!(s.set_value_static(1, b(&[3]), true).unwrap_err(), "Value ID not found");
}

#[test]
fn lists_are_changed_by_id() {
    let mut s = ServerStates::new();
    s.add_list(3, 300).unwrap();
    s.finalize();
    assert_eq!(s.list_set(3, vec![b(&[1]), b(&[2])], true), Ok(false));
    assert_eq!(s.list_append_item(3, b(&[3]), true), Ok(false));
    assert_eq!(s.list_set_item(3, 0, b(&[9]), true), Ok(false));
    assert_eq!(s.list_set_item(3, 5, b(&[9]), true).unwrap_err(), "Index out of bounds");
    assert_eq!(s.list_get_item(3, 0), Ok(b(&[9])));
    assert_eq!(s.list_remove_item(3, 1, false), Ok((b(&[2]), false)));
    assert_eq!(s.list_get(3), Ok(vec![b(&[9]), b(&[3])]));
    assert_eq!(s.list_len(3), Ok(2));
    assert_eq!(s.list_len(4).unwrap_err(), "Value ID not found.");
    assert_eq!(s.list_get(4).unwrap_err(), "Value ID not found or type mismatch.");
}

#[test]
fn maps_are_changed_by_id() {
    let mut s = ServerStates::new();
    s.add_map(6, 600).unwrap();
    s.finalize();
    assert_eq!(s.map_set(6, vec![(b(&[1]), b(&[10])), (b(&[2]), b(&[20]))], true), Ok(false));
    assert_eq!(s.map_set_item(6, b(&[2]), b(&[22]), true), Ok(false));
    assert_eq!(s.map_set_item(6, b(&[3]), b(&[30]), true), Ok(false));
    assert_eq!(s.map_get_item(6, &b(&[2])), Ok(b(&[22])));
    assert_eq!(s.map_get_item(6, &b(&[9])).unwrap_err(), "Key not found in map.");
    assert_eq!(s.map_remove_item(6, &b(&[1]), true), Ok(Some((b(&[10]), false))));
    assert_eq!(s.map_remove_item(6, &b(&[1]), true), Ok(None));
    assert_eq!(
        s.map_get(6),
        Ok(vec![(b(&[2]), b(&[22])), (b(&[3]), b(&[30]))])
    );
    assert_eq!(s.map_len(6), Ok(2));
    assert_eq!(s.map_len(7).unwrap_err(), "Value ID not found.");
}

#[test]
fn images_are_changed_by_id() {
    let mut s = ServerStates::new();
    s.add_image(8).unwrap();
    s.finalize();
    let pixels = [1u8, 2, 3, 4];
    let image = ImageData {
        size: [2, 2],
        stride: 0,
        contiguous: true,
        image_type: ImageType::Gray,
        data: &pixels,
    };
    assert_eq!(s.image_set(8, image, None, true), Ok(None));
    assert_eq!(s.image_get_size(8), Ok([2, 2]));
    let (rgba, size) = s.image_get(8).unwrap();
    assert_eq!(size, [2, 2]);
    assert_eq!(&rgba[0..4], &[1, 1, 1, 255]);
    let image = ImageData {
        size: [2, 2],
        stride: 0,
        contiguous: true,
        image_type: ImageType::Gray,
        data: &pixels,
    };
    assert_eq!(s.image_set(9, image, None, true).unwrap_err(), "Value ID not found.");
}

#[test]
fn graphs_are_registered_and_changed_by_id() {
    let mut s = ServerStates::new();
    assert_eq!(s.add_graphs(11, GraphType::F32), Ok(11));
    assert_eq!(
        s.add_graphs(11, GraphType::F32).unwrap_err(),
        "Graphs with id 11 already exists"
    );
    s.finalize();
    assert_eq!(s.graph_add_points(11, 0, vec![1, 2, 3, 4], None, true).unwrap_err(), "Graph index not found.");
    assert_eq!(s.graph_set(11, 0, vec![0; 8], Some(vec![1; 8]), true), Ok(false));
    assert_eq!(s.graph_add_points(11, 0, vec![2; 4], Some(vec![3; 4]), true), Ok(false));
    assert_eq!(s.graph_set(12, 0, vec![], None, true).unwrap_err(), "Value ID not found.");
    assert!(s.sync_state(11).graphs.is_none());
    s.set_enabled(11, true);
    let graphs = s.sync_state(11).graphs.unwrap();
    assert_eq!(graphs.len(), 1);
    assert_eq!(graphs[0].0, 0);
    assert_eq!(graphs[0].1, [vec![0; 8], vec![2; 4]].concat());
    assert_eq!(graphs[0].2, Some([vec![1; 8], vec![3; 4]].concat()));
    assert_eq!(s.graph_remove(11, Some(0), true), Ok(true));
    assert_eq!(s.sync_state(11).graphs.unwrap().len(), 0);
}

#[test]
fn added_x_coordinates_follow_the_old_y_count() {
    let mut g = ServerGraphs::new(1, GraphType::F32);
    g.set(0, vec![1; 8], None, false);
    assert_eq!(g.is_linear(0), Ok(true));
    assert_eq!(g.is_linear(1), Err(()));
    g.add_points(0, vec![2; 4], Some(vec![5; 4]), false).unwrap();
    let graph = g.get(0).unwrap();
    assert_eq!(graph.y, [vec![1; 8], vec![2; 4]].concat());
    assert!(graph.x.is_none());

    g.set(1, vec![1; 8], Some(vec![7; 4]), false);
    g.add_points(1, vec![2; 4], Some(vec![9; 4]), false).unwrap();
    let graph = g.get(1).unwrap();
    assert_eq!(graph.x, Some([vec![7; 4], vec![0; 4], vec![9; 4]].concat()));
    let mut indices = g.indices();
    indices.sort();
    assert_eq!(indices, vec![0, 1]);
    assert!(g.reset(false) == false);
    assert_eq!(g.count(), 0);
}
