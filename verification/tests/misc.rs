use egui_states::data_transport::DataType;
use egui_states::graphs::{GraphDataInfo, GraphHeader, GraphPoints, GraphType, ValueGraphs};
use egui_states::signals::{ChangedInner, OrderedMap};
use egui_states::text::{i64_to_text, push_decimal, u64_to_text};
use egui_states::messages::VecHeader;
use egui_states::values::ValueVec;
use egui_states::widgets::{adjust_step, parse_int, IntKind, WheelBoxState, WheelKeys};

fn keys(q: bool, w: bool, r: bool) -> WheelKeys {
    WheelKeys { q, w, r, up: false, down: false }
}

#[test]
fn decimal_texts() {
    assert_eq!(u64_to_text(0), "0");
    assert_eq!(u64_to_text(u64::MAX), "18446744073709551615");
    assert_eq!(i64_to_text(-42), "-42");
    assert_eq!(i64_to_text(i64::MIN), "-9223372036854775808");
    let mut s = String::from("n=");
    push_decimal(&mut s, 1200);
    assert_eq!(s, "n=1200");
}

#[test]
fn data_type_wire_ids() {
    assert_eq!(DataType::from_id(1), Ok(DataType::U16));
    assert_eq!(DataType::from_id(9), Ok(DataType::F64));
    assert_eq!(DataType::from_id(10), Err(()));
    assert_eq!(DataType::U32.item_size(), 4);
    assert_eq!(DataType::I8.item_size(), 1);
    assert_eq!(DataType::F64.item_size(), 8);
}

#[test]
fn step_keys_change_the_step() {
    assert_eq!(adjust_step(IntKind::I64, 10, keys(true, false, false), 3), 5);
    assert_eq!(adjust_step(IntKind::I64, 1, keys(true, false, false), 3), 1);
    assert_eq!(adjust_step(IntKind::I64, 10, keys(false, true, false), 3), 20);
    assert_eq!(adjust_step(IntKind::I64, 10, keys(true, true, false), 3), 10);
    assert_eq!(adjust_step(IntKind::I64, 10, keys(true, true, true), 3), 3);
    let mut state = WheelBoxState::new(IntKind::I64, 0, 8);
    assert_eq!(state.apply_step_keys(keys(true, false, false), 1), 4);
    assert_eq!(state.step(), 4);
}

#[test]
fn committed_text_is_clamped_to_the_range() {
    let mut state = WheelBoxState::new(IntKind::I64, 50, 1);
    assert_eq!(state.text(), "50");
    let mut value = 50;
    assert!(state.commit_text(&mut value, Some([0, 10])));
    assert_eq!(value, 10);
    assert_eq!(state.value(), 10);
    assert_eq!(state.text(), "10");
}

#[test]
fn unparsable_text_restores_the_value() {
    let mut state = WheelBoxState::new(IntKind::I64, 3, 1);
    let mut value = 7;
    assert!(!state.commit_parsed(None, &mut value, None));
    assert_eq!(value, 7);
    assert_eq!(state.text(), "7");
    assert!(state.commit_parsed(Some(-5), &mut value, Some([-2, 2])));
    assert_eq!(value, -2);
}

#[test]
fn arrows_and_wheel_move_the_value() {
    let mut state = WheelBoxState::new(IntKind::I64, 5, 2);
    assert_eq!(state.arrows_and_wheel(2, true, false, None, None), Some(7));
    assert_eq!(state.arrows_and_wheel(2, true, false, None, Some([0, 8])), Some(8));
    assert_eq!(state.arrows_and_wheel(2, false, true, None, Some([7, 9])), Some(7));
    assert_eq!(state.arrows_and_wheel(2, false, false, Some(-3), None), Some(5));
    assert_eq!(state.arrows_and_wheel(2, false, false, Some(1), Some([0, 6])), Some(6));
    assert_eq!(state.arrows_and_wheel(2, false, false, None, None), None);
    assert_eq!(state.value(), 6);
    assert_eq!(state.text(), "6");
}

#[test]
fn typed_text_is_kept_until_committed() {
    let mut state = WheelBoxState::new(IntKind::I64, 4, 1);
    state.set_text(String::from("12x"));
    assert_eq!(state.text(), "12x");
    assert_eq!(state.value(), 4);
    assert_eq!(state.arrows_and_wheel(1, false, false, None, None), None);
    assert_eq!(state.text(), "12x");
    let mut value = 4;
    assert!(!state.commit_text(&mut value, None));
    assert_eq!(state.text(), "4");
    state.set_text(String::from("12"));
    assert!(state.commit_text(&mut value, None));
    assert_eq!(value, 12);
    assert_eq!(state.text(), "12");
}

#[test]
fn pending_signals_come_out_in_arrival_order() {
    let mut map = OrderedMap::new();
    map.insert(2, vec![20]);
    map.insert(1, vec![10]);
    assert_eq!(map.pop_first(), Some((2, vec![20])));
    assert_eq!(map.pop_first(), Some((1, vec![10])));
    assert_eq!(map.pop_first(), None);
}

#[test]
fn single_signal_keeps_only_the_latest_value() {
    let mut map = OrderedMap::new();
    map.insert(1, vec![1]);
    map.insert(1, vec![2]);
    assert_eq!(map.pop(1), Some(vec![2]));
    assert_eq!(map.pop(1), None);
}

#[test]
fn queued_signal_keeps_every_value() {
    let mut map = OrderedMap::new();
    map.set_to_multi(1);
    map.insert(1, vec![1]);
    map.insert(1, vec![2]);
    assert_eq!(map.pop(1), Some(vec![1]));
    assert_eq!(map.pop(1), Some(vec![2]));
    assert_eq!(map.pop(1), None);
}

#[test]
fn worker_keeps_the_signal_it_processes() {
    let mut changed = ChangedInner::new();
    changed.set_register(1, true);
    assert!(changed.set(1, vec![1]));
    assert_eq!(changed.get(None), Some((1, vec![1])));
    // the id is now processed by a worker, so no other one is woken
    assert!(!changed.set(1, vec![2]));
    assert_eq!(changed.get(Some(1)), Some((1, vec![2])));
    assert_eq!(changed.get(Some(1)), None);
    assert!(changed.set(1, vec![3]));
}

#[test]
fn signal_without_callback_is_dropped() {
    let mut changed = ChangedInner::new();
    changed.set(5, vec![1]);
    assert_eq!(changed.get(None), None);
    assert_eq!(changed.get(None), None);
}

fn info(points: u64, is_linear: bool) -> GraphDataInfo {
    GraphDataInfo { graph_type: GraphType::F32, is_linear, points }
}

#[test]
fn graphs_are_set_extended_and_removed() {
    let mut graphs: ValueGraphs<u32> = ValueGraphs::new("g".to_string(), GraphType::F32);
    assert_eq!(GraphType::F64.bytes_size(), 8);
    graphs
        .update_graph(GraphHeader::SetGraph(0, info(2, true)), GraphPoints { x: None, y: vec![1, 2] })
        .unwrap();
    assert_eq!(graphs.len(), 1);
    {
        let (g, changed) = graphs.read(0).unwrap();
        assert!(changed);
        assert_eq!(g.y, vec![1, 2]);
    }
    let (_, changed) = graphs.read(0).unwrap();
    assert!(!changed);
    graphs
        .update_graph(GraphHeader::AddPoints(0, info(1, true)), GraphPoints { x: None, y: vec![3] })
        .unwrap();
    assert_eq!(graphs.get(0).unwrap().y, vec![1, 2, 3]);
    let bad = graphs.update_graph(
        GraphHeader::AddPoints(0, info(2, true)),
        GraphPoints { x: None, y: vec![4] },
    );
    assert!(bad.is_err());
    assert_eq!(graphs.get(0).unwrap().y, vec![1, 2, 3]);
    graphs.update_graph(GraphHeader::Remove(0), GraphPoints { x: None, y: vec![] }).unwrap();
    assert!(graphs.get(0).is_none());
}

#[test]
fn graph_of_the_wrong_type_is_refused() {
    let mut graphs: ValueGraphs<u32> = ValueGraphs::new("g".to_string(), GraphType::F64);
    let res = graphs.update_graph(GraphHeader::SetGraph(1, info(1, true)), GraphPoints { x: None, y: vec![1] });
    assert!(res.is_err());
    assert_eq!(graphs.len(), 0);
}

#[test]
fn list_updates_ignore_missing_indices() {
    let mut list: ValueVec<u32> = ValueVec::new("items".to_string());
    assert!(list.update_list(VecHeader::All(3), vec![1, 2, 3], None).is_ok());
    assert_eq!(list.read(), &vec![1, 2, 3]);
    assert!(list.update_list(VecHeader::SetItem(1), vec![20], None).is_ok());
    assert!(list.update_list(VecHeader::SetItem(7), vec![70], None).is_ok());
    assert!(list.update_list(VecHeader::Add, vec![4], None).is_ok());
    assert_eq!(list.read(), &vec![1, 20, 3, 4]);
    assert!(list.update_list(VecHeader::Remove(0), vec![], None).is_ok());
    assert!(list.update_list(VecHeader::Remove(9), vec![], None).is_ok());
    assert_eq!(list.read(), &vec![20, 3, 4]);
    assert_eq!(list.read_item(2), Some(&4));
    assert_eq!(list.read_item(3), None);
}

#[test]
fn undecodable_list_items_are_reported() {
    let mut list: ValueVec<u32> = ValueVec::new("items".to_string());
    list.update_list(VecHeader::All(2), vec![5, 6], None).unwrap();
    let e = list
        .update_list(VecHeader::Add, vec![], Some("bad bytes".to_string()))
        .unwrap_err();
    assert_eq!(e, "Error deserializing list item for items: bad bytes");
    assert_eq!(list.read(), &vec![5, 6]);
    assert!(list
        .update_list(VecHeader::All(3), vec![9], Some("short".to_string()))
        .is_err());
    assert_eq!(list.read(), &vec![9]);
}

#[test]
fn held_signal_is_not_given_to_another_worker() {
    let mut changed = ChangedInner::new();
    changed.set_register(1, true);
    changed.set_register(2, true);
    assert!(changed.set(1, vec![1]));
    // worker A takes id 1 and holds it
    assert_eq!(changed.get(None), Some((1, vec![1])));
    assert!(!changed.set(1, vec![2]));
    // worker B finds nothing it may take
    assert_eq!(changed.get(None), None);
    assert!(changed.set(2, vec![7]));
    // worker B passes over the held id and takes the free one
    assert_eq!(changed.get(None), Some((2, vec![7])));
    // worker A goes on with its own id
    assert_eq!(changed.get(Some(1)), Some((1, vec![2])));
}

#[test]
fn committed_text_takes_a_sign_and_digits_only() {
    let mut state = WheelBoxState::new(IntKind::I64, 0, 1);
    let mut value = 0;
    state.set_text(String::from("+15"));
    assert!(state.commit_text(&mut value, None));
    assert_eq!(value, 15);
    state.set_text(String::from("-9223372036854775808"));
    assert!(state.commit_text(&mut value, None));
    assert_eq!(value, i64::MIN as i128);
    for bad in ["", "-", "+", " 1", "1_0", "9223372036854775808", "--1"] {
        state.set_text(String::from(bad));
        assert!(!state.commit_text(&mut value, None));
        assert_eq!(value, i64::MIN as i128);
    }
}

#[test]
fn wheel_box_edits_each_integer_type() {
    assert_eq!(parse_int("4294967295", IntKind::U32), Some(4294967295));
    assert_eq!(parse_int("4294967296", IntKind::U32), None);
    assert_eq!(parse_int("-1", IntKind::U64), None);
    assert_eq!(parse_int("+18446744073709551615", IntKind::U64), Some(18446744073709551615));
    assert_eq!(parse_int("-2147483648", IntKind::I32), Some(-2147483648));
    assert_eq!(parse_int("2147483648", IntKind::I32), None);
    assert!(IntKind::U32.contains(0) && !IntKind::U32.contains(-1));
    let mut state = WheelBoxState::new(IntKind::U64, u64::MAX as i128, 1);
    assert_eq!(state.text(), "18446744073709551615");
    assert_eq!(state.arrows_and_wheel(1, false, true, None, None), Some(u64::MAX as i128 - 1));
    assert_eq!(state.text(), "18446744073709551614");
    let mut value = 5;
    state.set_text(String::from("-3"));
    assert!(!state.commit_text(&mut value, None));
    assert_eq!(value, 5);
    assert_eq!(adjust_step(IntKind::U32, 7, keys(true, true, false), 1), 6);
}

#[test]
fn wheel_moves_an_unsigned_box_only_up() {
    let mut state = WheelBoxState::new(IntKind::U32, 5, 1);
    assert_eq!(state.arrows_and_wheel(1, false, false, Some(-1), None), Some(5));
    assert_eq!(state.arrows_and_wheel(1, false, false, Some(1), None), Some(6));
    let mut signed = WheelBoxState::new(IntKind::I32, 5, 1);
    assert_eq!(signed.arrows_and_wheel(1, false, false, Some(-1), None), Some(4));
}

#[test]
fn integer_text_follows_the_sign_rules_of_each_type() {
    assert_eq!(parse_int("-0", IntKind::U32), None);
    assert_eq!(parse_int("-0", IntKind::I32), Some(0));
    assert_eq!(parse_int("007", IntKind::U64), Some(7));
    assert_eq!(parse_int("+", IntKind::I64), None);
    assert_eq!(parse_int("", IntKind::I64), None);
    assert_eq!(parse_int("1 ", IntKind::I64), None);
    assert_eq!(parse_int("99999999999999999999999", IntKind::I64), None);
    assert_eq!(parse_int("99999999999999999999999x", IntKind::I64), None);
    for text in ["12", "-12", "+12", "x", "-9223372036854775809", "9223372036854775807"] {
        assert_eq!(parse_int(text, IntKind::I64), text.parse::<i64>().ok().map(i128::from));
        assert_eq!(parse_int(text, IntKind::U32), text.parse::<u32>().ok().map(i128::from));
    }
}
