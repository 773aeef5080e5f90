use egui_states::codegen::{
    state_field_type, type_info_to_python_type, type_to_pytype, type_to_rust_type, validate_states, FloatText,
    InitValue, ObjectType, PythonTypeContext, RustTypeContext, StateType,
};
use egui_states::data_transport::DataType;
use egui_states::dict_order::{debug_string, dict_value, map_key_before};
use std::collections::HashMap;
use egui_states::render_python::{generate_python, last_name, render_python};
use egui_states::render_rust::{generate_rust, render_rust};
use egui_states::render_values::{init_to_python_value, init_to_rust_value};

fn f32_init(x: f32) -> InitValue {
    InitValue::F32(
        x.to_bits(),
        FloatText { debug: format!("{:?}", x as f64), display: x.to_string() },
    )
}

fn f64_init(x: f64) -> InitValue {
    InitValue::F64(x.to_bits(), FloatText { debug: format!("{:?}", x), display: x.to_string() })
}

fn value(name: &str, typ: ObjectType, init: InitValue, queue: bool) -> StateType {
    StateType::Value(name.to_string(), typ, init, queue)
}

fn repeated_shared_state(left: Vec<StateType>, right: Vec<StateType>) -> StateType {
    StateType::SubState(
        "root".to_string(),
        "Root".to_string(),
        vec![
            StateType::SubState("left".to_string(), "Shared".to_string(), left),
            StateType::SubState("right".to_string(), "Shared".to_string(), right),
        ],
    )
}

fn assert_incompatible(left: Vec<StateType>, right: Vec<StateType>) {
    let states = repeated_shared_state(left, right);
    assert!(validate_states(&states).is_err(), "Expected incompatible definitions");
}

fn base() -> StateType {
    value("count", ObjectType::I32, InitValue::I32(0), false)
}

#[test]
fn repeated_identical_substate_definition_is_valid() {
    let definition = || vec![value("count", ObjectType::F32, f32_init(f32::NAN), false)];
    let states = repeated_shared_state(definition(), definition());

    assert!(validate_states(&states).is_ok());
}

#[test]
fn incompatible_substate_definitions_are_rejected() {
    assert_incompatible(
        vec![base()],
        vec![value("other", ObjectType::I32, InitValue::I32(0), false)],
    );
    assert_incompatible(
        vec![base()],
        vec![value("count", ObjectType::String, InitValue::String(String::new()), false)],
    );
    assert_incompatible(
        vec![base()],
        vec![value("count", ObjectType::I32, InitValue::I32(1), false)],
    );
    assert_incompatible(
        vec![base()],
        vec![value("count", ObjectType::I32, InitValue::I32(0), true)],
    );
    assert_incompatible(
        vec![base()],
        vec![StateType::Static("count".to_string(), ObjectType::I32, InitValue::I32(0))],
    );
    assert_incompatible(
        vec![base(), value("other", ObjectType::I32, InitValue::I32(0), false)],
        vec![value("other", ObjectType::I32, InitValue::I32(0), false), base()],
    );
}

#[test]
fn nested_reserved_state_class_is_rejected() {
    let states = StateType::SubState(
        "root".to_string(),
        "Root".to_string(),
        vec![StateType::SubState(
            "reserved".to_string(),
            "StatesServer".to_string(),
            Vec::new(),
        )],
    );

    let result = validate_states(&states);
    assert!(result.is_err(), "Expected reserved class to be rejected");
}

#[test]
fn root_must_be_a_class() {
    let err = validate_states(&base()).unwrap_err();
    assert_eq!(err, "Root state must be a SubState");
}

#[test]
fn equality_preserves_generated_float_definitions() {
    let left_nan = f32_init(f32::from_bits(0x7fc0_0001));
    let right_nan = f32_init(f32::from_bits(0xffc0_1234));

    assert!(left_nan.equals(&right_nan));
    assert!(!f64_init(0.0).equals(&f64_init(-0.0)));
}

#[test]
fn equality_applies_float_rules_recursively() {
    let left = InitValue::Option(Some(Box::new(InitValue::Vec(vec![f64_init(f64::from_bits(
        0x7ff8_0000_0000_0001,
    ))]))));
    let right = InitValue::Option(Some(Box::new(InitValue::Vec(vec![f64_init(f64::from_bits(
        0xfff8_0000_0000_1234,
    ))]))));

    assert!(left.equals(&right));
}

#[test]
fn equality_compares_structure() {
    let a = InitValue::Struct("P".to_string(), vec![("x".to_string(), InitValue::I32(1))]);
    let b = InitValue::Struct("P".to_string(), vec![("x".to_string(), InitValue::I32(1))]);
    let c = InitValue::Struct("P".to_string(), vec![("y".to_string(), InitValue::I32(1))]);
    assert!(a.equals(&b));
    assert!(!a.equals(&c));
    assert!(!InitValue::U8(1).equals(&InitValue::U16(1)));
}

fn color() -> ObjectType {
    ObjectType::Enum(
        "Color".to_string(),
        vec![("Red".to_string(), 0), ("Blue".to_string(), 1)],
    )
}

#[test]
fn rust_type_names() {
    let map = ObjectType::Dict(Box::new(ObjectType::String), Box::new(ObjectType::Vec(Box::new(ObjectType::U8))));
    assert_eq!(
        type_to_rust_type(&map, RustTypeContext::States),
        "std::collections::HashMap<String, Vec<u8>>"
    );
    assert_eq!(
        type_to_rust_type(&ObjectType::List(3, Box::new(ObjectType::F32)), RustTypeContext::States),
        "[f32; 3]"
    );
    assert_eq!(type_to_rust_type(&color(), RustTypeContext::Structs), "super::enums::Color");
    assert_eq!(type_to_rust_type(&color(), RustTypeContext::States), "enums::Color");
    let one = ObjectType::Tuple(vec![ObjectType::Bool]);
    assert_eq!(type_to_rust_type(&one, RustTypeContext::States), "(bool,)");
    let two = ObjectType::Tuple(vec![ObjectType::Bool, ObjectType::I64]);
    assert_eq!(type_to_rust_type(&two, RustTypeContext::States), "(bool, i64)");
}

#[test]
fn python_type_names() {
    let t = ObjectType::Option(Box::new(ObjectType::List(4, Box::new(ObjectType::I32))));
    assert_eq!(
        type_info_to_python_type(&t, true, PythonTypeContext::States),
        "list[int]  # fixed size 4 | None"
    );
    assert_eq!(type_info_to_python_type(&t, false, PythonTypeContext::States), "list[int] | None");
    let s = ObjectType::Struct("P".to_string(), vec![]);
    assert_eq!(type_info_to_python_type(&s, false, PythonTypeContext::States), "structs.P");
    assert_eq!(type_info_to_python_type(&s, false, PythonTypeContext::Structs), "P");
    assert_eq!(type_info_to_python_type(&ObjectType::Empty, false, PythonTypeContext::States), "");
}

#[test]
fn python_type_descriptors() {
    let p = ObjectType::Struct(
        "P".to_string(),
        vec![
            ("x".to_string(), ObjectType::I32),
            ("y".to_string(), ObjectType::Vec(Box::new(ObjectType::Bool))),
        ],
    );
    assert_eq!(type_to_pytype(&p), "s.cl([s.i32, s.vec(s.bo)], structs.P)");
    assert_eq!(type_to_pytype(&color()), "s.enu(enums.Color)");
    let m = ObjectType::Dict(Box::new(ObjectType::U16), Box::new(ObjectType::Empty));
    assert_eq!(type_to_pytype(&m), "s.map(s.u16, s.emp)");
}

#[test]
fn state_field_types() {
    let st = StateType::ValueMap("m".to_string(), ObjectType::U8, ObjectType::String);
    assert_eq!(state_field_type(&st), "s::MapState<u8, String>");
    let data = StateType::DataMulti("d".to_string(), DataType::F64);
    assert_eq!(state_field_type(&data), "s::DataMulti<f64>");
    let sub = StateType::SubState("p".to_string(), "Panel".to_string(), vec![]);
    assert_eq!(state_field_type(&sub), "Panel");
}

#[test]
fn rust_literals_of_initial_values() {
    assert_eq!(init_to_rust_value(&InitValue::U8(7), &ObjectType::U8), "7u8");
    assert_eq!(init_to_rust_value(&InitValue::I16(-3), &ObjectType::I16), "-3i16");
    assert_eq!(init_to_rust_value(&f32_init(f32::NAN), &ObjectType::F32), "f32::NAN");
    assert_eq!(init_to_rust_value(&f64_init(1.5), &ObjectType::F64), "1.5f64");
    assert_eq!(init_to_rust_value(&f32_init(0.1), &ObjectType::F32), "0.10000000149011612f32");
    assert_eq!(
        init_to_rust_value(&f64_init(f64::NEG_INFINITY), &ObjectType::F64),
        "f64::NEG_INFINITY"
    );
    assert_eq!(init_to_rust_value(&f32_init(f32::INFINITY), &ObjectType::F32), "f32::INFINITY");
    assert_eq!(
        init_to_rust_value(&InitValue::String("a\"b".to_string()), &ObjectType::String),
        "String::from(\"a\\\"b\")"
    );
    assert_eq!(
        init_to_rust_value(
            &InitValue::Option(None),
            &ObjectType::Option(Box::new(ObjectType::Vec(Box::new(ObjectType::U8))))
        ),
        "None::<Vec<u8>>"
    );
    assert_eq!(
        init_to_rust_value(
            &InitValue::Tuple(vec![InitValue::U8(1)]),
            &ObjectType::Tuple(vec![ObjectType::U8])
        ),
        "(1u8,)"
    );
    assert_eq!(
        init_to_rust_value(
            &InitValue::Tuple(vec![InitValue::U8(1), InitValue::Bool(true)]),
            &ObjectType::Tuple(vec![ObjectType::U8, ObjectType::Bool])
        ),
        "(1u8, true)"
    );
    assert_eq!(
        init_to_rust_value(&InitValue::Vec(vec![]), &ObjectType::Vec(Box::new(ObjectType::String))),
        "Vec::<String>::new()"
    );
    assert_eq!(
        init_to_rust_value(
            &InitValue::Vec(vec![InitValue::U8(1), InitValue::U8(2)]),
            &ObjectType::Vec(Box::new(ObjectType::U8))
        ),
        "vec![1u8, 2u8]"
    );
    assert_eq!(
        init_to_rust_value(
            &InitValue::List(vec![InitValue::I8(-1), InitValue::I8(2)]),
            &ObjectType::List(2, Box::new(ObjectType::I8))
        ),
        "[-1i8, 2i8]"
    );
    assert_eq!(
        init_to_rust_value(&InitValue::Enum("Red".to_string()), &color()),
        "enums::Color::Red"
    );
}

#[test]
fn rust_map_literals_are_sorted() {
    let init = InitValue::Dict(vec![
        (InitValue::U16(2), InitValue::Bool(false)),
        (InitValue::U16(10), InitValue::Bool(true)),
    ]);
    let typ = ObjectType::Dict(Box::new(ObjectType::U16), Box::new(ObjectType::Bool));
    assert_eq!(
        init_to_rust_value(&init, &typ),
        "std::collections::HashMap::<u16, bool>::from([(10u16, true), (2u16, false)])"
    );
}

#[test]
fn rust_struct_literal() {
    let init = InitValue::Struct(
        "Point".to_string(),
        vec![("x".to_string(), InitValue::I32(1)), ("y".to_string(), InitValue::I32(2))],
    );
    let typ = ObjectType::Struct(
        "Point".to_string(),
        vec![("x".to_string(), ObjectType::I32), ("y".to_string(), ObjectType::I32)],
    );
    assert_eq!(init_to_rust_value(&init, &typ), "structs::Point { x: 1i32, y: 2i32 }");
    assert_eq!(init_to_python_value(&init, &typ), "structs.Point(1, 2)");
}

#[test]
fn python_literals_of_initial_values() {
    assert_eq!(init_to_python_value(&InitValue::U8(7), &ObjectType::U8), "7");
    assert_eq!(init_to_python_value(&InitValue::I64(-7), &ObjectType::I64), "-7");
    assert_eq!(init_to_python_value(&InitValue::Bool(true), &ObjectType::Bool), "True");
    assert_eq!(init_to_python_value(&InitValue::Bool(false), &ObjectType::Bool), "False");
    assert_eq!(init_to_python_value(&f64_init(1.5), &ObjectType::F64), "1.5");
    assert_eq!(init_to_python_value(&f32_init(f32::NAN), &ObjectType::F32), "NaN");
    assert_eq!(
        init_to_python_value(&InitValue::String("hi".to_string()), &ObjectType::String),
        "\"hi\""
    );
    assert_eq!(
        init_to_python_value(&InitValue::Option(None), &ObjectType::Option(Box::new(ObjectType::U8))),
        "None"
    );
    assert_eq!(
        init_to_python_value(
            &InitValue::Option(Some(Box::new(InitValue::U8(3)))),
            &ObjectType::Option(Box::new(ObjectType::U8))
        ),
        "3"
    );
    assert_eq!(
        init_to_python_value(
            &InitValue::Tuple(vec![InitValue::U8(1)]),
            &ObjectType::Tuple(vec![ObjectType::U8])
        ),
        "(1,)"
    );
    assert_eq!(
        init_to_python_value(&InitValue::Tuple(vec![]), &ObjectType::Tuple(vec![])),
        "()"
    );
    assert_eq!(
        init_to_python_value(
            &InitValue::Tuple(vec![InitValue::U8(1), InitValue::U8(2)]),
            &ObjectType::Tuple(vec![ObjectType::U8, ObjectType::U8])
        ),
        "(1, 2)"
    );
    assert_eq!(
        init_to_python_value(
            &InitValue::Dict(vec![
                (InitValue::U8(1), InitValue::Bool(true)),
                (InitValue::U8(0), InitValue::Bool(false))
            ]),
            &ObjectType::Dict(Box::new(ObjectType::U8), Box::new(ObjectType::Bool))
        ),
        "{1: True, 0: False}"
    );
    assert_eq!(
        init_to_python_value(&InitValue::Enum("Blue".to_string()), &color()),
        "enums.Color.Blue"
    );
}

#[test]
fn last_name_keeps_what_follows_the_last_dot() {
    assert_eq!(last_name("root.sub.value"), "value");
    assert_eq!(last_name("plain"), "plain");
    assert_eq!(last_name("trailing."), "");
}

fn sample_states() -> StateType {
    StateType::SubState(
        "root".to_string(),
        "Root".to_string(),
        vec![
            value("count", ObjectType::U8, InitValue::U8(1), false),
            StateType::Static("color".to_string(), color(), InitValue::Enum("Blue".to_string())),
            StateType::SubState(
                "panel".to_string(),
                "Panel".to_string(),
                vec![StateType::Signal("clicked".to_string(), ObjectType::Empty, true)],
            ),
        ],
    )
}

#[test]
fn rust_bindings_of_sample_states() {
    let (states, enums, structs) = render_rust(&sample_states(), 42).unwrap();
    let expected_start = [
        "// Generated by build.rs, do not edit\npub mod enums;\npub mod structs;\n\nuse egui_states::server as s;\n",
        "\n#[derive(Clone)]\npub struct Panel {\n    pub clicked: s::Signal<()>,\n}\n",
        "\nimpl Panel {\n    pub fn new(server: &s::StateServer, parent: &str) -> s::Result<Self> {\n        Ok(Self {\n",
        "            clicked: s::Signal::<()>::new(server, format!(\"{parent}.clicked\"), true)?,\n        })\n    }\n}\n",
        "\n#[derive(Clone)]\npub struct Root {\n    pub count: s::Value<u8>,\n    pub color: s::Static<enums::Color>,\n    pub panel: Panel,\n}\n",
        "\nimpl Root {\n    pub fn new(server: &s::StateServer) -> s::Result<Self> {\n        let parent = \"root\";\n        Ok(Self {\n",
        "            count: s::Value::new(server, format!(\"{parent}.count\"), 1u8, false)?,\n",
        "            color: s::Static::new(server, format!(\"{parent}.color\"), enums::Color::Blue)?,\n",
        "            panel: Panel::new(server, &format!(\"{parent}.panel\"))?,\n        })\n    }\n}\n\n",
        "pub struct StatesServer {\n    server: s::StateServer,\n    pub states: Root,\n    pub logging: s::LoggingSignal,\n}\n\n",
        "impl StatesServer {\n    pub const VERSION_HASH: u64 = 42;\n",
    ]
    .concat();
    assert!(states.starts_with(&expected_start), "{states}");
    assert!(states.contains("        let states = Root::new(&server)?;\n"));
    assert!(states.ends_with("        self.server.on_client_message(callback)\n    }\n}\n"));
    assert_eq!(
        enums,
        "// Generated by build.rs, do not edit\n\n#[egui_states::typed]\n#[derive(Clone, Copy, Debug, PartialEq, Eq, Hash)]\npub enum Color {\n    Red = 0,\n    Blue = 1,\n}\n"
    );
    assert_eq!(structs, "// Generated by build.rs, do not edit\n");
}

fn nested_structs() -> StateType {
    let b = ObjectType::Struct("B".to_string(), vec![("x".to_string(), ObjectType::I32)]);
    let a = ObjectType::Struct("A".to_string(), vec![("b".to_string(), b)]);
    let c = ObjectType::Struct("C".to_string(), vec![]);
    StateType::SubState(
        "root".to_string(),
        "Root".to_string(),
        vec![
            StateType::ValueTake("a".to_string(), a),
            StateType::ValueVec("c".to_string(), c),
        ],
    )
}

#[test]
fn structs_are_declared_after_the_structs_of_their_fields() {
    let (_, _, structs) = render_rust(&nested_structs(), 1).unwrap();
    let block = |name: &str, body: &str| {
        format!("\n#[egui_states::typed]\n#[derive(Clone, Debug, PartialEq)]\npub struct {name} {{\n{body}}}\n")
    };
    let expected = format!(
        "// Generated by build.rs, do not edit\n{}{}{}",
        block("C", ""),
        block("B", "    pub x: i32,\n"),
        block("A", "    pub b: B,\n")
    );
    assert_eq!(structs, expected);

    let (_, _, py_structs) = render_python(&nested_structs(), 1).unwrap();
    assert!(py_structs.ends_with(
        "\n\n@dataclass\nclass C(s._CustomStruct):\n    pass\n\n\n@dataclass\nclass B(s._CustomStruct):\n    x: int\n\n\n@dataclass\nclass A(s._CustomStruct):\n    b: B\n"
    ));
}

#[test]
fn conflicting_enum_definitions_are_an_error() {
    let other = ObjectType::Enum("Color".to_string(), vec![("Green".to_string(), 0)]);
    let states = StateType::SubState(
        "root".to_string(),
        "Root".to_string(),
        vec![
            StateType::ValueTake("a".to_string(), color()),
            StateType::ValueTake("b".to_string(), other),
        ],
    );
    assert_eq!(
        render_rust(&states, 0).unwrap_err(),
        "Enum Color defined multiple times with different variants"
    );
    assert_eq!(
        render_python(&states, 0).unwrap_err(),
        "Enum Color defined multiple times with different variants"
    );
}

#[test]
fn conflicting_struct_definitions_are_an_error() {
    let one = ObjectType::Struct("P".to_string(), vec![("x".to_string(), ObjectType::I32)]);
    let two = ObjectType::Struct("P".to_string(), vec![("x".to_string(), ObjectType::I64)]);
    let states = StateType::SubState(
        "root".to_string(),
        "Root".to_string(),
        vec![StateType::ValueVec("a".to_string(), one), StateType::ValueVec("b".to_string(), two)],
    );
    assert_eq!(
        render_rust(&states, 0).unwrap_err(),
        "Struct P defined multiple times with different fields"
    );
}

#[test]
fn python_bindings_of_sample_states() {
    let (states, enums, structs) = render_python(&sample_states(), 7).unwrap();
    let expected_classes = [
        "from . import enums, structs\n",
        "\n\nclass Panel(ISubStates):\n    def __init__(self, parent: str):\n        self.clicked: s.SignalEmpty = s.SignalEmpty(True)\n",
        "\n\nclass Root(StatesBase):\n    @staticmethod\n    def _get_obj_types() -> list[s.PyObjectType]:\n        return [\n",
        "            s.u8,\n            s.enu(enums.Color),\n            s.emp,\n        ]\n\n",
        "    def __init__(self, server: StateServerBase):\n        super().__init__(server)\n        parent = \"root\"\n",
        "        self.count: s.Value[int] = s.Value[int](0, 1)\n",
        "        self.color: s.Static[enums.Color] = s.Static[enums.Color](1, enums.Color.Blue)\n",
        "        self.panel: Panel = Panel(parent + \".panel\")\n",
        "\n\nclass StatesServer(StateServerBase[Root]):\n",
    ]
    .concat();
    assert!(states.contains(&expected_classes), "{states}");
    assert!(states.contains("    VERSION_HASH: int = 7\n"));
    assert!(states.ends_with("        super().__init__(Root, port, signals_workers, error_handler, ip_addr, version, token)\n"));
    assert_eq!(
        enums,
        "# Generated by build.rs, do not edit\n# ruff: noqa: D101\nfrom enum import IntEnum\n\n\nclass Color(IntEnum):\n    Red = 0\n    Blue = 1\n"
    );
    assert!(structs.ends_with("from . import enums\n"));
}

#[test]
fn python_lines_of_collection_states() {
    let states = StateType::SubState(
        "root".to_string(),
        "Root".to_string(),
        vec![
            StateType::ValueMap("root.m".to_string(), ObjectType::U8, ObjectType::String),
            StateType::ValueVec("root.v".to_string(), ObjectType::U8),
            StateType::Data("root.d".to_string(), DataType::F32),
            StateType::Image("root.i".to_string()),
            StateType::ValueTake("root.t".to_string(), ObjectType::Empty),
        ],
    );
    let (text, _, _) = render_python(&states, 0).unwrap();
    assert!(text.contains("        self.m: s.Map[int, str] = s.Map[int, str](0, 1)\n"));
    assert!(text.contains("        self.v: s.Vec[int] = s.Vec[int](0)\n"));
    assert!(text.contains("        self.d: s.Data[np.float32] = s.Data(np.float32)\n"));
    assert!(text.contains("        self.i: s.Image = s.Image()\n"));
    assert!(text.contains("        self.t: s.ValueTakeEmpty = s.ValueTakeEmpty()\n"));
}

#[test]
fn generated_file_names() {
    let rust = generate_rust(&sample_states(), 3).unwrap();
    let names: Vec<&str> = rust.iter().map(|(n, _)| n.as_str()).collect();
    assert_eq!(names, vec!["mod.rs", "enums.rs", "structs.rs"]);
    let python = generate_python(&sample_states(), 3).unwrap();
    let names: Vec<&str> = python.iter().map(|(n, _)| n.as_str()).collect();
    assert_eq!(names, vec!["__init__.py", "enums.py", "structs.py"]);
}

#[test]
fn mismatched_initial_value_is_refused() {
    let states = StateType::SubState(
        "root".to_string(),
        "Root".to_string(),
        vec![value("x", ObjectType::String, InitValue::U8(1), false)],
    );
    assert_eq!(generate_rust(&states, 0).unwrap_err(), "Mismatched InitValue and ObjectType");
    assert_eq!(generate_python(&states, 0).unwrap_err(), "Mismatched InitValue and ObjectType");
}

#[test]
fn python_needs_one_kind_of_index_per_name() {
    let states = StateType::SubState(
        "root".to_string(),
        "Root".to_string(),
        vec![
            value("x", ObjectType::U8, InitValue::U8(1), false),
            StateType::ValueMap("x".to_string(), ObjectType::U8, ObjectType::U8),
        ],
    );
    assert!(generate_rust(&states, 0).is_ok());
    assert_eq!(generate_python(&states, 0).unwrap_err(), "Mismatched InitValue and ObjectType");
}

#[test]
fn invalid_states_are_refused_before_rendering() {
    let states = StateType::SubState(
        "root".to_string(),
        "Root".to_string(),
        vec![StateType::SubState("s".to_string(), "enums".to_string(), vec![])],
    );
    assert!(generate_rust(&states, 0).is_err());
    assert!(generate_python(&states, 0).is_err());
}

fn map_init(map: HashMap<u16, u32>) -> InitValue {
    dict_value(
        map.into_iter()
            .map(|(key, value)| (InitValue::U16(key), InitValue::U32(value)))
            .collect(),
    )
}

fn map_keys(value: &InitValue) -> Vec<String> {
    let InitValue::Dict(entries) = value else {
        panic!("expected a map, got {value:?}");
    };
    entries
        .iter()
        .map(|(key, _)| match key {
            InitValue::U16(key) => key.to_string(),
            InitValue::String(key) => key.clone(),
            other => panic!("unexpected key {other:?}"),
        })
        .collect()
}

#[test]
fn structurally_equal_maps_compare_equal() {
    let make = || HashMap::from([(1u16, 1u32), (2, 2), (3, 3), (4, 4), (5, 5), (6, 6)]);

    for _ in 0..64 {
        assert!(map_init(make()).equals(&map_init(make())));
    }
}

#[test]
fn map_entries_are_ordered_by_key() {
    let numeric = HashMap::from([(10u16, 0u32), (1, 0), (20, 0), (2, 0), (3, 0)]);
    assert_eq!(map_keys(&map_init(numeric)), ["1", "2", "3", "10", "20"]);

    let text = HashMap::from([("b".to_string(), 0u32), ("c".into(), 0), ("a".into(), 0)]);
    let text_value = dict_value(
        text.into_iter()
            .map(|(key, value)| (InitValue::String(key), InitValue::U32(value)))
            .collect(),
    );
    assert_eq!(map_keys(&text_value), ["a", "b", "c"]);
}

#[test]
fn map_keys_sort_by_kind_then_number_then_text() {
    assert!(map_key_before(&InitValue::Bool(true), &InitValue::U8(0)));
    assert!(map_key_before(&InitValue::I64(-5), &InitValue::U8(3)));
    assert!(!map_key_before(&InitValue::U64(3), &InitValue::I8(3)));
    assert!(map_key_before(&InitValue::U32(7), &InitValue::String("0".to_string())));
    assert!(map_key_before(&InitValue::Enum("A".to_string()), &InitValue::String("B".to_string())));
    assert!(!map_key_before(&InitValue::String("b".to_string()), &InitValue::String("a".to_string())));
    let other_kinds = dict_value(vec![
        (InitValue::Tuple(vec![InitValue::U8(2)]), InitValue::U8(0)),
        (InitValue::Tuple(vec![InitValue::U8(1)]), InitValue::U8(1)),
        (InitValue::U8(9), InitValue::U8(2)),
    ]);
    let InitValue::Dict(entries) = other_kinds else {
        panic!("expected a map");
    };
    assert!(matches!(entries[0].0, InitValue::U8(9)));
    assert!(matches!(&entries[1].0, InitValue::Tuple(t) if matches!(t[0], InitValue::U8(1))));
    assert!(matches!(&entries[2].0, InitValue::Tuple(t) if matches!(t[0], InitValue::U8(2))));
}

#[test]
fn keys_of_other_kinds_sort_by_their_debug_text() {
    let tuple = InitValue::Tuple(vec![InitValue::U8(1), InitValue::Bool(true), InitValue::I32(-4)]);
    assert_eq!(debug_string(&tuple), "Tuple([U8(1), Bool(true), I32(-4)])");
    let none = InitValue::Option(None);
    assert_eq!(debug_string(&none), "Option(None)");
    let some = InitValue::Option(Some(Box::new(InitValue::String("a\"b".to_string()))));
    assert_eq!(debug_string(&some), "Option(Some(String(\"a\\\"b\")))");
    let point = InitValue::Struct(
        "Point".to_string(),
        vec![("x".to_string(), InitValue::I16(-1)), ("y".to_string(), InitValue::Vec(Vec::new()))],
    );
    assert_eq!(debug_string(&point), "Struct(\"Point\", [(\"x\", I16(-1)), (\"y\", Vec([]))])");
    let map = InitValue::Dict(vec![(InitValue::Enum("A".to_string()), InitValue::List(vec![InitValue::U64(7)]))]);
    assert_eq!(debug_string(&map), "Map([(Enum(\"A\"), List([U64(7)]))])");
    assert!(map_key_before(&none, &some));
    assert!(!map_key_before(&some, &none));
    let first = InitValue::Tuple(vec![InitValue::U8(1), InitValue::U8(9)]);
    let second = InitValue::Tuple(vec![InitValue::U8(2), InitValue::U8(0)]);
    let sorted = dict_value(vec![(second, InitValue::U8(0)), (first, InitValue::U8(1))]);
    let InitValue::Dict(entries) = sorted else {
        panic!("expected a map");
    };
    assert!(matches!(entries[0].1, InitValue::U8(1)));
    assert!(matches!(entries[1].1, InitValue::U8(0)));
}

#[test]
fn generating_twice_gives_the_same_files() {
    assert_eq!(generate_rust(&sample_states(), 11).unwrap(), generate_rust(&sample_states(), 11).unwrap());
    assert_eq!(generate_python(&sample_states(), 11).unwrap(), generate_python(&sample_states(), 11).unwrap());
}

#[test]
fn initial_value_equality_is_an_equivalence() {
    let nan_a = f64_init(f64::from_bits(0x7ff8_0000_0000_0001));
    let nan_b = f64_init(f64::from_bits(0xfff8_0000_0000_1234));
    assert!(nan_a.equals(&nan_a));
    assert!(nan_a.equals(&nan_b) && nan_b.equals(&nan_a));
    assert!(!f64_init(0.0).equals(&f64_init(-0.0)));
    assert!(!f64_init(-0.0).equals(&f64_init(0.0)));
    let a = InitValue::Tuple(vec![nan_a, InitValue::U8(1)]);
    let b = InitValue::Tuple(vec![nan_b, InitValue::U8(1)]);
    let c = InitValue::Tuple(vec![f64_init(f64::NAN), InitValue::U8(1)]);
    assert!(a.equals(&b) && b.equals(&c) && a.equals(&c));
    assert!(!InitValue::U8(1).equals(&InitValue::U16(1)));
}
