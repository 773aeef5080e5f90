use vstd::prelude::*;

use crate::catalog::{
    catalog, catalog_of, collect_leaves, declaration_order, leaf_states, refs_view, struct_fields_of, struct_order,
    table_get, EnumTable, StructTable,
};
use crate::codegen::{
    class_defs, validation_error, data_rust_type, data_type_to_rust_type, defs_valid, field_type, rust_type, state_field_type, text,
    type_to_rust_type, validate_states, wrapped, ObjectType, RustTypeContext, StateType,
};
use crate::render_values::{init_to_rust_value, rust_value, rust_value_fits};
use crate::text::{decimal, push_decimal, push_signed_decimal, signed_decimal};

verus! {

/// The name of a state.
pub open spec fn state_name(st: StateType) -> Seq<char> {
    match st {
        StateType::Value(n, ..) => n@,
        StateType::ValueTake(n, ..) => n@,
        StateType::Static(n, ..) => n@,
        StateType::Image(n) => n@,
        StateType::ValueMap(n, ..) => n@,
        StateType::ValueVec(n, ..) => n@,
        StateType::Signal(n, ..) => n@,
        StateType::Data(n, ..) => n@,
        StateType::DataTake(n, ..) => n@,
        StateType::DataMulti(n, ..) => n@,
        StateType::DataMultiTake(n, ..) => n@,
        StateType::SubState(n, ..) => n@,
    }
}

/// Whether the initial value of a state, if it has one, has the shape of
/// its type.
pub open spec fn init_renders(st: StateType) -> bool {
    match st {
        StateType::Value(_, t, i, _) => rust_value(i, t) is Some,
        StateType::Static(_, t, i) => rust_value(i, t) is Some,
        _ => true,
    }
}

/// Whether every initial value among the states `ss` and their sub-states
/// has the shape of its type.
pub open spec fn renders_all(ss: Seq<StateType>) -> bool
    decreases ss, 0nat,
{
    if ss.len() == 0 {
        true
    } else {
        renders_all(ss.drop_last()) && renders_state(ss.last())
    }
}

/// Whether every initial value in `s` and its sub-states has the shape of
/// its type.
pub open spec fn renders_state(s: StateType) -> bool
    decreases s, 1nat,
{
    match s {
        StateType::SubState(_, _, children) => renders_all(children@),
        _ => init_renders(s),
    }
}

proof fn lemma_renders_all(ss: Seq<StateType>, i: int)
    requires
        renders_all(ss),
        0 <= i < ss.len(),
    ensures
        renders_state(ss[i]),
    decreases ss.len(),
{
    if i < ss.len() - 1 {
        lemma_renders_all(ss.drop_last(), i);
    }
}

/// `"true"` or `"false"`, as `Display` prints a `bool`.
pub open spec fn bool_text(b: bool) -> Seq<char> {
    if b {
        "true"@
    } else {
        "false"@
    }
}

/// The argument that names a state under its parent in the generated code.
pub open spec fn parent_arg(name: Seq<char>) -> Seq<char> {
    "format!(\"{parent}."@ + name + "\")"@
}

/// The expression that creates a state in the generated server bindings.
pub open spec fn initializer(st: StateType) -> Seq<char> {
    let ctx = RustTypeContext::States;
    match st {
        StateType::Value(n, t, i, q) => "s::Value::new(server, "@ + parent_arg(n@) + ", "@ + rust_value(i, t)->0 + ", "@
            + bool_text(q) + ")?"@,
        StateType::ValueTake(n, t) => "s::ValueTake::<"@ + rust_type(t, ctx) + ">::new(server, "@ + parent_arg(n@)
            + ")?"@,
        StateType::Static(n, t, i) => "s::Static::new(server, "@ + parent_arg(n@) + ", "@ + rust_value(i, t)->0 + ")?"@,
        StateType::Signal(n, t, q) => "s::Signal::<"@ + rust_type(t, ctx) + ">::new(server, "@ + parent_arg(n@) + ", "@
            + bool_text(q) + ")?"@,
        StateType::ValueVec(n, t) => "s::VecState::<"@ + rust_type(t, ctx) + ">::new(server, "@ + parent_arg(n@)
            + ")?"@,
        StateType::ValueMap(n, k, v) => "s::MapState::<"@ + rust_type(k, ctx) + ", "@ + rust_type(v, ctx)
            + ">::new(server, "@ + parent_arg(n@) + ")?"@,
        StateType::Data(n, d) => "s::Data::<"@ + data_rust_type(d) + ">::new(server, "@ + parent_arg(n@) + ")?"@,
        StateType::DataTake(n, d) => "s::DataTake::<"@ + data_rust_type(d) + ">::new(server, "@ + parent_arg(n@)
            + ")?"@,
        StateType::DataMulti(n, d) => "s::DataMulti::<"@ + data_rust_type(d) + ">::new(server, "@ + parent_arg(n@)
            + ")?"@,
        StateType::DataMultiTake(n, d) => "s::DataMultiTake::<"@ + data_rust_type(d) + ">::new(server, "@ + parent_arg(
            n@,
        ) + ")?"@,
        StateType::Image(n) => "s::Image::new(server, "@ + parent_arg(n@) + ")?"@,
        StateType::SubState(n, c, _) => c@ + "::new(server, &"@ + parent_arg(n@) + ")?"@,
    }
}

fn bool_string(b: bool) -> (r: String)
    ensures
        r@ == bool_text(b),
{
    if b {
        text("true")
    } else {
        text("false")
    }
}

fn parent_argument(name: &String) -> (r: String)
    ensures
        r@ == parent_arg(name@),
{
    wrapped("format!(\"{parent}.", text(name.as_str()), "\")")
}

fn append3(r: &mut String, a: &str, b: &str, c: &str)
    ensures
        final(r)@ == old(r)@ + a@ + b@ + c@,
{
    r.append(a);
    r.append(b);
    r.append(c);
}

/// The expression that creates a state in the generated server bindings.
pub fn state_initializer(st: &StateType) -> (s: String)
    requires
        init_renders(*st),
    ensures
        s@ == initializer(*st),
{
    let ctx = RustTypeContext::States;
    match st {
        StateType::Value(n, t, i, q) => {
            let mut r = text("s::Value::new(server, ");
            append3(&mut r, parent_argument(n).as_str(), ", ", init_to_rust_value(i, t).as_str());
            append3(&mut r, ", ", bool_string(*q).as_str(), ")?");
            r
        },
        StateType::ValueTake(n, t) => {
            let mut r = text("s::ValueTake::<");
            append3(&mut r, type_to_rust_type(t, ctx).as_str(), ">::new(server, ", parent_argument(n).as_str());
            r.append(")?");
            r
        },
        StateType::Static(n, t, i) => {
            let mut r = text("s::Static::new(server, ");
            append3(&mut r, parent_argument(n).as_str(), ", ", init_to_rust_value(i, t).as_str());
            r.append(")?");
            r
        },
        StateType::Signal(n, t, q) => {
            let mut r = text("s::Signal::<");
            append3(&mut r, type_to_rust_type(t, ctx).as_str(), ">::new(server, ", parent_argument(n).as_str());
            append3(&mut r, ", ", bool_string(*q).as_str(), ")?");
            r
        },
        StateType::ValueVec(n, t) => {
            let mut r = text("s::VecState::<");
            append3(&mut r, type_to_rust_type(t, ctx).as_str(), ">::new(server, ", parent_argument(n).as_str());
            r.append(")?");
            r
        },
        StateType::ValueMap(n, k, v) => {
            let mut r = text("s::MapState::<");
            append3(&mut r, type_to_rust_type(k, ctx).as_str(), ", ", type_to_rust_type(v, ctx).as_str());
            append3(&mut r, ">::new(server, ", parent_argument(n).as_str(), ")?");
            r
        },
        StateType::Data(n, d) => {
            let mut r = text("s::Data::<");
            append3(&mut r, data_type_to_rust_type(d), ">::new(server, ", parent_argument(n).as_str());
            r.append(")?");
            r
        },
        StateType::DataTake(n, d) => {
            let mut r = text("s::DataTake::<");
            append3(&mut r, data_type_to_rust_type(d), ">::new(server, ", parent_argument(n).as_str());
            r.append(")?");
            r
        },
        StateType::DataMulti(n, d) => {
            let mut r = text("s::DataMulti::<");
            append3(&mut r, data_type_to_rust_type(d), ">::new(server, ", parent_argument(n).as_str());
            r.append(")?");
            r
        },
        StateType::DataMultiTake(n, d) => {
            let mut r = text("s::DataMultiTake::<");
            append3(&mut r, data_type_to_rust_type(d), ">::new(server, ", parent_argument(n).as_str());
            r.append(")?");
            r
        },
        StateType::Image(n) => {
            let mut r = text("s::Image::new(server, ");
            r.append(parent_argument(n).as_str());
            r.append(")?");
            r
        },
        StateType::SubState(n, c, _) => {
            let mut r = text(c.as_str());
            append3(&mut r, "::new(server, &", parent_argument(n).as_str(), ")?");
            r
        },
    }
}

/// The field declarations of a generated state class.
pub open spec fn field_lines(ss: Seq<StateType>) -> Seq<char>
    decreases ss.len(),
{
    if ss.len() == 0 {
        Seq::empty()
    } else {
        field_lines(ss.drop_last()) + "    pub "@ + state_name(ss.last()) + ": "@ + field_type(ss.last()) + ",\n"@
    }
}

/// The field initializers of a generated state class.
pub open spec fn init_lines(ss: Seq<StateType>) -> Seq<char>
    decreases ss.len(),
{
    if ss.len() == 0 {
        Seq::empty()
    } else {
        init_lines(ss.drop_last()) + "            "@ + state_name(ss.last()) + ": "@ + initializer(ss.last()) + ",\n"@
    }
}

/// The struct declaration of a generated state class.
pub open spec fn struct_decl(class: Seq<char>, ss: Seq<StateType>) -> Seq<char> {
    "\n#[derive(Clone)]\npub struct "@ + class + " {\n"@ + field_lines(ss) + "}\n"@
}

/// A generated state class: its struct and its constructor.
pub open spec fn class_text(class: Seq<char>, ss: Seq<StateType>) -> Seq<char> {
    struct_decl(class, ss) + "\nimpl "@ + class
        + " {\n    pub fn new(server: &s::StateServer, parent: &str) -> s::Result<Self> {\n        Ok(Self {\n"@
        + init_lines(ss) + "        })\n    }\n}\n"@
}

/// The text of the class `class` with states `ss`, preceded by those of the
/// classes under it not written yet (`used` lists the classes written),
/// and the classes written after it.
pub open spec fn write_class(class: Seq<char>, ss: Seq<StateType>, used: Seq<Seq<char>>) -> (Seq<char>, Seq<Seq<char>>)
    decreases ss, 1nat,
{
    let (t, u) = write_children(ss, used);
    (t + class_text(class, ss), u)
}

/// The text of the classes of the sub-states among `ss` not written yet
/// (`used` lists the classes written), in order, and the classes written
/// after them.
pub open spec fn write_children(ss: Seq<StateType>, used: Seq<Seq<char>>) -> (Seq<char>, Seq<Seq<char>>)
    decreases ss, 0nat,
{
    if ss.len() == 0 {
        (Seq::empty(), used)
    } else {
        let (t, u) = write_children(ss.drop_last(), used);
        match ss.last() {
            StateType::SubState(_, c, sub) => if u.contains(c@) {
                (t, u)
            } else {
                let (t2, u2) = write_class(c@, sub@, u.push(c@));
                (t + t2, u2)
            },
            _ => (t, u),
        }
    }
}

fn write_field_lines(out: &mut String, ss: &Vec<StateType>)
    ensures
        final(out)@ == old(out)@ + field_lines(ss@),
{
    let ghost start = out@;
    let mut i: usize = 0;
    proof {
        assert(ss@.subrange(0, 0) =~= Seq::<StateType>::empty());
        assert(out@ =~= start + field_lines(ss@.subrange(0, 0)));
    }
    while i < ss.len()
        invariant
            i <= ss@.len(),
            start == old(out)@,
            out@ == start + field_lines(ss@.subrange(0, i as int)),
        decreases ss@.len() - i,
    {
        let ghost before = out@;
        out.append("    pub ");
        out.append(ss[i].name().as_str());
        out.append(": ");
        let ft = state_field_type(&ss[i]);
        out.append(ft.as_str());
        out.append(",\n");
        proof {
            let sub = ss@.subrange(0, i + 1);
            assert(sub.drop_last() =~= ss@.subrange(0, i as int));
            assert(sub.last() == ss@[i as int]);
            assert(out@ =~= start + field_lines(sub));
        }
        i += 1;
    }
    proof {
        assert(ss@.subrange(0, ss@.len() as int) =~= ss@);
    }
}

fn write_init_lines(out: &mut String, ss: &Vec<StateType>)
    requires
        renders_all(ss@),
    ensures
        final(out)@ == old(out)@ + init_lines(ss@),
{
    let ghost start = out@;
    let mut i: usize = 0;
    proof {
        assert(ss@.subrange(0, 0) =~= Seq::<StateType>::empty());
        assert(out@ =~= start + init_lines(ss@.subrange(0, 0)));
    }
    while i < ss.len()
        invariant
            i <= ss@.len(),
            renders_all(ss@),
            start == old(out)@,
            out@ == start + init_lines(ss@.subrange(0, i as int)),
        decreases ss@.len() - i,
    {
        proof {
            lemma_renders_all(ss@, i as int);
        }
        out.append("            ");
        out.append(ss[i].name().as_str());
        out.append(": ");
        let init = state_initializer(&ss[i]);
        out.append(init.as_str());
        out.append(",\n");
        proof {
            let sub = ss@.subrange(0, i + 1);
            assert(sub.drop_last() =~= ss@.subrange(0, i as int));
            assert(sub.last() == ss@[i as int]);
            assert(out@ =~= start + init_lines(sub));
        }
        i += 1;
    }
    proof {
        assert(ss@.subrange(0, ss@.len() as int) =~= ss@);
    }
}

fn write_struct_decl(out: &mut String, class: &String, ss: &Vec<StateType>)
    ensures
        final(out)@ == old(out)@ + struct_decl(class@, ss@),
{
    let ghost start = out@;
    out.append("\n#[derive(Clone)]\npub struct ");
    out.append(class.as_str());
    out.append(" {\n");
    write_field_lines(out, ss);
    out.append("}\n");
    proof {
        assert(out@ =~= start + struct_decl(class@, ss@));
    }
}

/// Writes the class `class` with states `ss`, preceded by the classes under
/// it that `used` does not list yet (see [`write_class`]).
fn write_state<'a>(out: &mut String, class: &'a String, ss: &'a Vec<StateType>, used: &mut Vec<&'a String>)
    requires
        renders_all(ss@),
    ensures
        final(out)@ == old(out)@ + write_class(class@, ss@, crate::catalog::names_view(old(used)@)).0,
        crate::catalog::names_view(final(used)@) == write_class(class@, ss@, crate::catalog::names_view(old(used)@)).1,
    decreases ss@, 1nat,
{
    let ghost start = out@;
    write_sub_classes(out, ss, used);
    let ghost mid = out@;
    write_struct_decl(out, class, ss);
    out.append("\nimpl ");
    out.append(class.as_str());
    out.append(" {\n    pub fn new(server: &s::StateServer, parent: &str) -> s::Result<Self> {\n        Ok(Self {\n");
    write_init_lines(out, ss);
    out.append("        })\n    }\n}\n");
    proof {
        assert(out@ =~= mid + class_text(class@, ss@));
    }
}

/// Writes the classes of the sub-states among `ss` that `used` does not list
/// yet (see [`write_children`]).
fn write_sub_classes<'a>(out: &mut String, ss: &'a Vec<StateType>, used: &mut Vec<&'a String>)
    requires
        renders_all(ss@),
    ensures
        final(out)@ == old(out)@ + write_children(ss@, crate::catalog::names_view(old(used)@)).0,
        crate::catalog::names_view(final(used)@) == write_children(ss@, crate::catalog::names_view(old(used)@)).1,
    decreases ss@, 0nat,
{
    let ghost start = out@;
    let ghost used0 = crate::catalog::names_view(used@);
    let mut i: usize = 0;
    proof {
        assert(ss@.subrange(0, 0) =~= Seq::<StateType>::empty());
        assert(out@ =~= start + write_children(ss@.subrange(0, 0), used0).0);
    }
    while i < ss.len()
        invariant
            i <= ss@.len(),
            renders_all(ss@),
            start == old(out)@,
            used0 == crate::catalog::names_view(old(used)@),
            out@ == start + write_children(ss@.subrange(0, i as int), used0).0,
            crate::catalog::names_view(used@) == write_children(ss@.subrange(0, i as int), used0).1,
        decreases ss@.len() - i,
    {
        proof {
            let sub = ss@.subrange(0, i + 1);
            assert(sub.drop_last() =~= ss@.subrange(0, i as int));
            assert(sub.last() == ss@[i as int]);
            lemma_renders_all(ss@, i as int);
        }
        let ghost before = out@;
        match &ss[i] {
            StateType::SubState(_, c, sub) => {
                if !contains_class(used, c) {
                    let ghost u = crate::catalog::names_view(used@);
                    used.push(c);
                    proof {
                        assert(crate::catalog::names_view(used@) =~= u.push(c@));
                        assert(decreases_to!(ss@ => ss@[i as int]));
                        assert(decreases_to!(ss@[i as int] => ss@[i as int]->SubState_2));
                    }
                    write_state(out, c, sub, used);
                    proof {
                        assert(out@ =~= start + write_children(ss@.subrange(0, i + 1), used0).0);
                    }
                }
            },
            _ => {},
        }
        i += 1;
    }
    proof {
        assert(ss@.subrange(0, ss@.len() as int) =~= ss@);
    }
}

fn contains_class(used: &Vec<&String>, c: &String) -> (r: bool)
    ensures
        r == crate::catalog::names_view(used@).contains(c@),
{
    let mut i: usize = 0;
    while i < used.len()
        invariant
            i <= used@.len(),
            forall|k: int| 0 <= k < i ==> crate::catalog::names_view(used@)[k] != c@,
        decreases used@.len() - i,
    {
        if used[i].eq(c) {
            proof {
                assert(crate::catalog::names_view(used@)[i as int] == c@);
            }
            return true;
        }
        i += 1;
    }
    false
}

/// The variant lines of a generated enum.
pub open spec fn variant_lines(vs: Seq<(Seq<char>, i32)>) -> Seq<char>
    decreases vs.len(),
{
    if vs.len() == 0 {
        Seq::empty()
    } else {
        variant_lines(vs.drop_last()) + "    "@ + vs.last().0 + " = "@ + signed_decimal(vs.last().1 as int) + ",\n"@
    }
}

/// The enums of the table, each as a generated Rust enum, in table order.
pub open spec fn rust_enum_blocks(t: EnumTable) -> Seq<char>
    decreases t.len(),
{
    if t.len() == 0 {
        Seq::empty()
    } else {
        rust_enum_blocks(t.drop_last())
            + "\n#[egui_states::typed]\n#[derive(Clone, Copy, Debug, PartialEq, Eq, Hash)]\npub enum "@ + t.last().0
            + " {\n"@ + variant_lines(t.last().1) + "}\n"@
    }
}

/// The generated Rust module of the enums of the table.
pub open spec fn rust_enums_text(t: EnumTable) -> Seq<char> {
    "// Generated by build.rs, do not edit\n"@ + rust_enum_blocks(t)
}

/// The field lines of a generated struct.
pub open spec fn struct_field_lines(fs: Seq<(String, ObjectType)>) -> Seq<char>
    decreases fs.len(),
{
    if fs.len() == 0 {
        Seq::empty()
    } else {
        struct_field_lines(fs.drop_last()) + "    pub "@ + fs.last().0@ + ": "@ + rust_type(
            fs.last().1,
            RustTypeContext::Structs,
        ) + ",\n"@
    }
}

/// The structs named in `order`, each as a generated Rust struct with its
/// fields from the table.
pub open spec fn rust_struct_blocks(order: Seq<Seq<char>>, t: StructTable) -> Seq<char>
    decreases order.len(),
{
    if order.len() == 0 {
        Seq::empty()
    } else {
        rust_struct_blocks(order.drop_last(), t) + match table_get(t, order.last()) {
            Some(fs) => "\n#[egui_states::typed]\n#[derive(Clone, Debug, PartialEq)]\npub struct "@ + order.last()
                + " {\n"@ + struct_field_lines(fs) + "}\n"@,
            None => Seq::empty(),
        }
    }
}

/// The generated Rust module of the structs of the table, each declared
/// after the structs of its fields.
pub open spec fn rust_structs_text(t: StructTable) -> Seq<char> {
    "// Generated by build.rs, do not edit\n"@ + rust_struct_blocks(struct_order(t).reverse(), t)
}

/// The generated Rust module of the states under the root class `root`
/// with states `children`.
pub open spec fn rust_states_text(root: Seq<char>, children: Seq<StateType>, version_hash: u64) -> Seq<char> {
    "// Generated by build.rs, do not edit\npub mod enums;\npub mod structs;\n\nuse egui_states::server as s;\n"@
        + write_children(children, Seq::empty()).0 + struct_decl(root, children) + "\nimpl "@ + root
        + " {\n    pub fn new(server: &s::StateServer) -> s::Result<Self> {\n        let parent = \"root\";\n        Ok(Self {\n"@
        + init_lines(children) + "        })\n    }\n}\n\n"@
        + "pub struct StatesServer {\n    server: s::StateServer,\n    pub states: "@ + root
        + ",\n    pub logging: s::LoggingSignal,\n}\n\n"@ + "impl StatesServer {\n    pub const VERSION_HASH: u64 = "@ + decimal(version_hash as nat) + ";\n\n    pub fn new(port: u16) -> s::Result<Self> {\n        Self::with_options(s::ServerOptions::new(port))\n    }\n\n    pub fn with_options(options: s::ServerOptions) -> s::Result<Self> {\n        let server = s::StateServer::with_options(options)?;\n        let states = "@ + root
        + "::new(&server)?;\n        server.finalize()?;\n        let logging = s::LoggingSignal::new(&server);\n        Ok(Self { server, states, logging })\n    }\n\n    pub fn state_server(&self) -> &s::StateServer {\n        &self.server\n    }\n\n    pub fn start(&self) -> s::Result<()> {\n        self.server.start()\n    }\n\n    pub fn stop(&self) {\n        self.server.stop();\n    }\n\n    pub fn update(&self, duration: Option<f32>) -> s::Result<()> {\n        self.server.update(duration)\n    }\n\n    pub fn disconnect_client(&self) {\n        self.server.disconnect_client();\n    }\n\n    pub fn is_running(&self) -> bool {\n        self.server.is_running()\n    }\n\n    pub fn is_connected(&self) -> bool {\n        self.server.is_connected()\n    }\n\n    pub fn on_connect(&self, callback: impl Fn(String) + Send + Sync + 'static) -> s::CallbackHandle {\n        self.server.on_connect(callback)\n    }\n\n    pub fn on_disconnect(&self, callback: impl Fn() + Send + Sync + 'static) -> s::CallbackHandle {\n        self.server.on_disconnect(callback)\n    }\n\n    pub fn on_client_message(&self, callback: impl Fn(String) + Send + Sync + 'static) -> s::CallbackHandle {\n        self.server.on_client_message(callback)\n    }\n}\n"@
}

fn write_variant_lines(out: &mut String, vs: &Vec<(String, i32)>)
    ensures
        final(out)@ == old(out)@ + variant_lines(crate::catalog::variants_view(vs@)),
{
    let ghost start = out@;
    let ghost vv = crate::catalog::variants_view(vs@);
    let mut i: usize = 0;
    proof {
        assert(vv.subrange(0, 0) =~= Seq::<(Seq<char>, i32)>::empty());
        assert(out@ =~= start + variant_lines(vv.subrange(0, 0)));
    }
    while i < vs.len()
        invariant
            i <= vs@.len(),
            vv == crate::catalog::variants_view(vs@),
            start == old(out)@,
            out@ == start + variant_lines(vv.subrange(0, i as int)),
        decreases vs@.len() - i,
    {
        out.append("    ");
        out.append(vs[i].0.as_str());
        out.append(" = ");
        push_signed_decimal(out, vs[i].1 as i64);
        out.append(",\n");
        proof {
            let sub = vv.subrange(0, i + 1);
            assert(sub.drop_last() =~= vv.subrange(0, i as int));
            assert(sub.last() == vv[i as int]);
            assert(out@ =~= start + variant_lines(sub));
        }
        i += 1;
    }
    proof {
        assert(vv.subrange(0, vv.len() as int) =~= vv);
    }
}

fn rust_enums(enums: &Vec<(&String, &Vec<(String, i32)>)>) -> (r: String)
    ensures
        r@ == rust_enums_text(crate::catalog::enum_refs_view(enums@)),
{
    let ghost tv = crate::catalog::enum_refs_view(enums@);
    let mut out = text("// Generated by build.rs, do not edit\n");
    let ghost start = out@;
    let mut i: usize = 0;
    proof {
        assert(tv.subrange(0, 0) =~= Seq::<(Seq<char>, Seq<(Seq<char>, i32)>)>::empty());
        assert(out@ =~= start + rust_enum_blocks(tv.subrange(0, 0)));
    }
    while i < enums.len()
        invariant
            i <= enums@.len(),
            tv == crate::catalog::enum_refs_view(enums@),
            start == "// Generated by build.rs, do not edit\n"@,
            out@ == start + rust_enum_blocks(tv.subrange(0, i as int)),
        decreases enums@.len() - i,
    {
        let (name, variants) = enums[i];
        out.append("\n#[egui_states::typed]\n#[derive(Clone, Copy, Debug, PartialEq, Eq, Hash)]\npub enum ");
        out.append(name.as_str());
        out.append(" {\n");
        write_variant_lines(&mut out, variants);
        out.append("}\n");
        proof {
            let sub = tv.subrange(0, i + 1);
            assert(sub.drop_last() =~= tv.subrange(0, i as int));
            assert(sub.last() == tv[i as int]);
            assert(out@ =~= start + rust_enum_blocks(sub));
        }
        i += 1;
    }
    proof {
        assert(tv.subrange(0, tv.len() as int) =~= tv);
    }
    out
}

fn write_struct_field_lines(out: &mut String, fs: &Vec<(String, ObjectType)>)
    ensures
        final(out)@ == old(out)@ + struct_field_lines(fs@),
{
    let ghost start = out@;
    let mut i: usize = 0;
    proof {
        assert(fs@.subrange(0, 0) =~= Seq::<(String, ObjectType)>::empty());
        assert(out@ =~= start + struct_field_lines(fs@.subrange(0, 0)));
    }
    while i < fs.len()
        invariant
            i <= fs@.len(),
            start == old(out)@,
            out@ == start + struct_field_lines(fs@.subrange(0, i as int)),
        decreases fs@.len() - i,
    {
        out.append("    pub ");
        out.append(fs[i].0.as_str());
        out.append(": ");
        let t = type_to_rust_type(&fs[i].1, RustTypeContext::Structs);
        out.append(t.as_str());
        out.append(",\n");
        proof {
            let sub = fs@.subrange(0, i + 1);
            assert(sub.drop_last() =~= fs@.subrange(0, i as int));
            assert(sub.last() == fs@[i as int]);
            assert(out@ =~= start + struct_field_lines(sub));
        }
        i += 1;
    }
    proof {
        assert(fs@.subrange(0, fs@.len() as int) =~= fs@);
    }
}

fn rust_structs(structs: &Vec<(&String, &Vec<(String, ObjectType)>)>) -> (r: String)
    ensures
        r@ == rust_structs_text(crate::catalog::struct_refs_view(structs@)),
{
    let ghost tv = crate::catalog::struct_refs_view(structs@);
    let order = declaration_order(structs);
    let ghost ov = crate::catalog::names_view(order@);
    let mut out = text("// Generated by build.rs, do not edit\n");
    let ghost start = out@;
    let mut i: usize = 0;
    proof {
        assert(ov.subrange(0, 0) =~= Seq::<Seq<char>>::empty());
        assert(out@ =~= start + rust_struct_blocks(ov.subrange(0, 0), tv));
    }
    while i < order.len()
        invariant
            i <= order@.len(),
            tv == crate::catalog::struct_refs_view(structs@),
            ov == crate::catalog::names_view(order@),
            start == "// Generated by build.rs, do not edit\n"@,
            out@ == start + rust_struct_blocks(ov.subrange(0, i as int), tv),
        decreases order@.len() - i,
    {
        let name = order[i];
        let ghost before = out@;
        match struct_fields_of(structs, name) {
            Some(fields) => {
                out.append("\n#[egui_states::typed]\n#[derive(Clone, Debug, PartialEq)]\npub struct ");
                out.append(name.as_str());
                out.append(" {\n");
                write_struct_field_lines(&mut out, fields);
                out.append("}\n");
            },
            None => {},
        }
        proof {
            let sub = ov.subrange(0, i + 1);
            assert(sub.drop_last() =~= ov.subrange(0, i as int));
            assert(sub.last() == name@);
            assert(out@ =~= start + rust_struct_blocks(sub, tv));
        }
        i += 1;
    }
    proof {
        assert(ov.subrange(0, ov.len() as int) =~= ov);
    }
    out
}

/// Whether the root state is a class whose classes pass
/// [`validate_states`].
pub open spec fn states_valid(states: StateType) -> bool {
    states matches StateType::SubState(_, c, ch) && defs_valid(class_defs(c@, ch@, true))
}

/// Whether bindings can be generated for the states under the root class
/// `states`: they are valid and their enums and structs are each defined
/// one way ([`catalog_of`]).
pub open spec fn bindings_valid(states: StateType) -> bool {
    states_valid(states) && catalog_of(leaf_states(states)) is Ok
}

/// `a`, `b` and `c` are the states, enums and structs modules of the Rust
/// bindings of `states`.
pub open spec fn rust_files(states: StateType, version_hash: u64, a: Seq<char>, b: Seq<char>, c: Seq<char>) -> bool {
    let tables = catalog_of(leaf_states(states))->Ok_0;
    &&& a == rust_states_text(states->SubState_1@, states->SubState_2@, version_hash)
    &&& b == rust_enums_text(tables.0)
    &&& c == rust_structs_text(tables.1)
}

/// The bindings are fixed by the states and the version hash: two
/// renderings of the same states give the same three files, byte for byte.
pub proof fn lemma_rust_files_fixed(
    states: StateType,
    version_hash: u64,
    a: Seq<char>,
    b: Seq<char>,
    c: Seq<char>,
    a2: Seq<char>,
    b2: Seq<char>,
    c2: Seq<char>,
)
    requires
        rust_files(states, version_hash, a, b, c),
        rust_files(states, version_hash, a2, b2, c2),
    ensures
        a == a2 && b == b2 && c == c2,
{
}

/// Renders the typed Rust server bindings of the states under the root
/// class `states`: the states module, the enums module and the structs
/// module. The states must pass [`validate_states`] and their enums and
/// structs must each be defined one way ([`catalog_of`]); otherwise the
/// error is returned.
pub fn render_rust(states: &StateType, version_hash: u64) -> (res: Result<(String, String, String), String>)
    requires
        renders_state(*states),
    ensures
        res is Ok <==> bindings_valid(*states),
        res matches Ok((a, b, c)) ==> rust_files(*states, version_hash, a@, b@, c@),
        !states_valid(*states) ==> (res matches Err(e) && e@ == validation_error(*states)),
        states_valid(*states) ==> (catalog_of(leaf_states(*states)) matches Err(m) ==> res matches Err(e) && e@ == m),
{
    match validate_states(states) {
        Ok(()) => {},
        Err(e) => {
            return Err(e);
        },
    }
    let (root, children) = match states {
        StateType::SubState(_, c, ch) => (c, ch),
        _ => {
            return Err(text("Root state must be a SubState"));
        },
    };
    let mut leaves: Vec<&StateType> = Vec::new();
    proof {
        assert(refs_view(leaves@) =~= Seq::<StateType>::empty());
    }
    collect_leaves(states, &mut leaves);
    proof {
        assert(refs_view(leaves@) =~= leaf_states(*states));
    }
    let (enums, structs) = match catalog(&leaves) {
        Ok(t) => t,
        Err(e) => {
            return Err(e);
        },
    };
    let enums_output = rust_enums(&enums);
    let structs_output = rust_structs(&structs);
    let mut out = text(
        "// Generated by build.rs, do not edit\npub mod enums;\npub mod structs;\n\nuse egui_states::server as s;\n",
    );
    let mut used: Vec<&String> = Vec::new();
    proof {
        assert(crate::catalog::names_view(used@) =~= Seq::<Seq<char>>::empty());
    }
    write_sub_classes(&mut out, children, &mut used);
    write_struct_decl(&mut out, root, children);
    out.append("\nimpl ");
    out.append(root.as_str());
    out.append(
        " {\n    pub fn new(server: &s::StateServer) -> s::Result<Self> {\n        let parent = \"root\";\n        Ok(Self {\n",
    );
    write_init_lines(&mut out, children);
    out.append("        })\n    }\n}\n\n");
    out.append("pub struct StatesServer {\n    server: s::StateServer,\n    pub states: ");
    out.append(root.as_str());
    out.append(",\n    pub logging: s::LoggingSignal,\n}\n\n");
    out.append("impl StatesServer {\n    pub const VERSION_HASH: u64 = ");
    push_decimal(&mut out, version_hash);
    out.append(";\n\n    pub fn new(port: u16) -> s::Result<Self> {\n        Self::with_options(s::ServerOptions::new(port))\n    }\n\n    pub fn with_options(options: s::ServerOptions) -> s::Result<Self> {\n        let server = s::StateServer::with_options(options)?;\n        let states = ");
    out.append(root.as_str());
    out.append("::new(&server)?;\n        server.finalize()?;\n        let logging = s::LoggingSignal::new(&server);\n        Ok(Self { server, states, logging })\n    }\n\n    pub fn state_server(&self) -> &s::StateServer {\n        &self.server\n    }\n\n    pub fn start(&self) -> s::Result<()> {\n        self.server.start()\n    }\n\n    pub fn stop(&self) {\n        self.server.stop();\n    }\n\n    pub fn update(&self, duration: Option<f32>) -> s::Result<()> {\n        self.server.update(duration)\n    }\n\n    pub fn disconnect_client(&self) {\n        self.server.disconnect_client();\n    }\n\n    pub fn is_running(&self) -> bool {\n        self.server.is_running()\n    }\n\n    pub fn is_connected(&self) -> bool {\n        self.server.is_connected()\n    }\n\n    pub fn on_connect(&self, callback: impl Fn(String) + Send + Sync + 'static) -> s::CallbackHandle {\n        self.server.on_connect(callback)\n    }\n\n    pub fn on_disconnect(&self, callback: impl Fn() + Send + Sync + 'static) -> s::CallbackHandle {\n        self.server.on_disconnect(callback)\n    }\n\n    pub fn on_client_message(&self, callback: impl Fn(String) + Send + Sync + 'static) -> s::CallbackHandle {\n        self.server.on_client_message(callback)\n    }\n}\n");
    proof {
        assert(out@ =~= rust_states_text(root@, children@, version_hash));
    }
    Ok((out, enums_output, structs_output))
}

/// Whether every initial value in `states` and its sub-states has the
/// shape of its type (see [`renders_state`]).
pub fn rust_inits_fit(states: &StateType) -> (r: bool)
    ensures
        r == renders_state(*states),
    decreases states,
{
    match states {
        StateType::SubState(_, _, children) => {
            let mut i: usize = 0;
            proof {
                assert(children@.subrange(0, 0) =~= Seq::<StateType>::empty());
            }
            while i < children.len()
                invariant
                    i <= children@.len(),
                    *states == StateType::SubState(states->SubState_0, states->SubState_1, *children),
                    renders_all(children@.subrange(0, i as int)),
                decreases children@.len() - i,
            {
                proof {
                    assert(decreases_to!(*states => (*states)->SubState_2));
                    assert(decreases_to!(*children => children@));
                    assert(decreases_to!(children@ => children@[i as int]));
                    let sub = children@.subrange(0, i + 1);
                    assert(sub.drop_last() =~= children@.subrange(0, i as int));
                    assert(sub.last() == children@[i as int]);
                }
                if !rust_inits_fit(&children[i]) {
                    proof {
                        lemma_renders_prefix(children@, (i + 1) as nat);
                    }
                    return false;
                }
                i += 1;
            }
            proof {
                assert(children@.subrange(0, children@.len() as int) =~= children@);
            }
            true
        },
        StateType::Value(_, t, i, _) => rust_value_fits(i, t),
        StateType::Static(_, t, i) => rust_value_fits(i, t),
        _ => true,
    }
}

proof fn lemma_renders_prefix(ss: Seq<StateType>, n: nat)
    requires
        n <= ss.len(),
        !renders_all(ss.subrange(0, n as int)),
    ensures
        !renders_all(ss),
    decreases ss.len() - n,
{
    if n < ss.len() {
        let sub = ss.subrange(0, (n + 1) as int);
        assert(sub.drop_last() =~= ss.subrange(0, n as int));
        lemma_renders_prefix(ss, n + 1);
    } else {
        assert(ss.subrange(0, n as int) =~= ss);
    }
}

/// The files of the typed Rust server bindings of the states under the
/// root class `states`, each with its name, as [`render_rust`] renders them;
/// writing them out is left to the caller. As the bindings are built, the
/// states are validated, then their enums and structs collected, then
/// their initial values written, and the first failure is returned.
pub fn generate_rust(states: &StateType, version_hash: u64) -> (res: Result<Vec<(String, String)>, String>)
    ensures
        res is Ok <==> bindings_valid(*states) && renders_state(*states),
        res matches Ok(files) ==> files@.len() == 3 && files@[0].0@ == "mod.rs"@ && files@[1].0@ == "enums.rs"@
            && files@[2].0@ == "structs.rs"@ && rust_files(*states, version_hash, files@[0].1@, files@[1].1@, files@[2].1@),
        !states_valid(*states) ==> (res matches Err(e) && e@ == validation_error(*states)),
        states_valid(*states) ==> (catalog_of(leaf_states(*states)) matches Err(m) ==> res matches Err(e) && e@ == m),
        bindings_valid(*states) && !renders_state(*states) ==> (res matches Err(e) && e@ == "Mismatched InitValue and ObjectType"@),
{
    match validate_states(states) {
        Ok(()) => {},
        Err(e) => {
            return Err(e);
        },
    }
    let mut leaves: Vec<&StateType> = Vec::new();
    proof {
        assert(refs_view(leaves@) =~= Seq::<StateType>::empty());
    }
    collect_leaves(states, &mut leaves);
    proof {
        assert(refs_view(leaves@) =~= leaf_states(*states));
    }
    match catalog(&leaves) {
        Ok(_) => {},
        Err(e) => {
            return Err(e);
        },
    }
    if !rust_inits_fit(states) {
        return Err(text("Mismatched InitValue and ObjectType"));
    }
    match render_rust(states, version_hash) {
        Ok((a, b, c)) => {
            let mut files: Vec<(String, String)> = Vec::new();
            files.push((text("mod.rs"), a));
            files.push((text("enums.rs"), b));
            files.push((text("structs.rs"), c));
            Ok(files)
        },
        Err(e) => Err(e),
    }
}

} // verus!
