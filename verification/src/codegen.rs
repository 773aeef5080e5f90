use vstd::prelude::*;

use crate::data_transport::DataType;
use crate::text::{decimal, push_decimal};

verus! {

/// The shape of a state's value type, as the generated bindings describe it.
#[derive(Debug)]
pub enum ObjectType {
    U8,
    U16,
    U32,
    U64,
    I8,
    I16,
    I32,
    I64,
    F32,
    F64,
    Bool,
    String,
    Empty,
    /// name and (variant, value) pairs
    Enum(String, Vec<(String, i32)>),
    /// name and (field, type) pairs
    Struct(String, Vec<(String, ObjectType)>),
    Tuple(Vec<ObjectType>),
    /// fixed size and element type
    List(usize, Box<ObjectType>),
    Vec(Box<ObjectType>),
    Dict(Box<ObjectType>, Box<ObjectType>),
    Option(Box<ObjectType>),
}

/// Where a Rust type name appears: in the states module, or in the structs
/// module next to it.
#[derive(Debug, Clone, Copy, PartialEq, Eq, Structural)]
pub enum RustTypeContext {
    States,
    Structs,
}

/// Name of the Rust type of the elements of a data buffer.
pub open spec fn data_rust_type(d: DataType) -> Seq<char> {
    match d {
        DataType::U8 => "u8"@,
        DataType::U16 => "u16"@,
        DataType::U32 => "u32"@,
        DataType::U64 => "u64"@,
        DataType::I8 => "i8"@,
        DataType::I16 => "i16"@,
        DataType::I32 => "i32"@,
        DataType::I64 => "i64"@,
        DataType::F32 => "f32"@,
        DataType::F64 => "f64"@,
    }
}

/// Name of the Rust type of the elements of a data buffer.
pub fn data_type_to_rust_type(data_type: &DataType) -> (s: &'static str)
    ensures
        s@ == data_rust_type(*data_type),
{
    match data_type {
        DataType::U8 => "u8",
        DataType::U16 => "u16",
        DataType::U32 => "u32",
        DataType::U64 => "u64",
        DataType::I8 => "i8",
        DataType::I16 => "i16",
        DataType::I32 => "i32",
        DataType::I64 => "i64",
        DataType::F32 => "f32",
        DataType::F64 => "f64",
    }
}

/// Name of the numpy dtype of the elements of a data buffer.
pub open spec fn data_dtype(d: DataType) -> Seq<char> {
    match d {
        DataType::U8 => "np.uint8"@,
        DataType::U16 => "np.uint16"@,
        DataType::U32 => "np.uint32"@,
        DataType::U64 => "np.uint64"@,
        DataType::I8 => "np.int8"@,
        DataType::I16 => "np.int16"@,
        DataType::I32 => "np.int32"@,
        DataType::I64 => "np.int64"@,
        DataType::F32 => "np.float32"@,
        DataType::F64 => "np.float64"@,
    }
}

/// Name of the numpy dtype of the elements of a data buffer.
pub fn data_type_to_dtype(data_type: &DataType) -> (s: &'static str)
    ensures
        s@ == data_dtype(*data_type),
{
    match data_type {
        DataType::U8 => "np.uint8",
        DataType::U16 => "np.uint16",
        DataType::U32 => "np.uint32",
        DataType::U64 => "np.uint64",
        DataType::I8 => "np.int8",
        DataType::I16 => "np.int16",
        DataType::I32 => "np.int32",
        DataType::I64 => "np.int64",
        DataType::F32 => "np.float32",
        DataType::F64 => "np.float64",
    }
}

/// The lower-case form of an ASCII upper-case letter; other characters
/// are kept.
pub open spec fn ascii_lower(c: char) -> char {
    if c == 'U' {
        'u'
    } else if c == 'I' {
        'i'
    } else if c == 'F' {
        'f'
    } else {
        c
    }
}

/// The numpy family of an element kind, by the first letter of the data
/// type's name: unsigned, signed or floating point.
pub open spec fn dtype_family(kind: char) -> Seq<char> {
    if kind == 'U' {
        seq!['u', 'i', 'n', 't']
    } else if kind == 'I' {
        seq!['i', 'n', 't']
    } else {
        seq!['f', 'l', 'o', 'a', 't']
    }
}

proof fn lemma_bits_text(d: DataType)
    ensures
        d.spec_item_size() == 1 ==> decimal(8 * d.spec_item_size()) == seq!['8'],
        d.spec_item_size() == 2 ==> decimal(8 * d.spec_item_size()) == seq!['1', '6'],
        d.spec_item_size() == 4 ==> decimal(8 * d.spec_item_size()) == seq!['3', '2'],
        d.spec_item_size() == 8 ==> decimal(8 * d.spec_item_size()) == seq!['6', '4'],
{
    assert(decimal(8) == seq!['8']);
    assert(decimal(1) == seq!['1']);
    assert(decimal(3) == seq!['3']);
    assert(decimal(6) == seq!['6']);
    assert(decimal(16) =~= seq!['1', '6']);
    assert(decimal(32) =~= seq!['3', '2']);
    assert(decimal(64) =~= seq!['6', '4']);
}

/// The element type named for a data buffer is the one the buffer's data
/// type stands for: the data type's name in lower case, which is its kind
/// (`u` unsigned, `i` signed, `f` floating point) followed by the number of
/// bits of one element, eight times the element size.
pub proof fn lemma_data_rust_type_matches_elements(d: DataType)
    ensures
        data_rust_type(d) == d.spec_name().map_values(|c: char| ascii_lower(c)),
        data_rust_type(d) == seq![ascii_lower(d.spec_name()[0])] + decimal(8 * d.spec_item_size()),
{
    lemma_bits_text(d);
    match d {
        DataType::U8 => {
            reveal_strlit("u8");
            reveal_strlit("U8");
        },
        DataType::U16 => {
            reveal_strlit("u16");
            reveal_strlit("U16");
        },
        DataType::U32 => {
            reveal_strlit("u32");
            reveal_strlit("U32");
        },
        DataType::U64 => {
            reveal_strlit("u64");
            reveal_strlit("U64");
        },
        DataType::I8 => {
            reveal_strlit("i8");
            reveal_strlit("I8");
        },
        DataType::I16 => {
            reveal_strlit("i16");
            reveal_strlit("I16");
        },
        DataType::I32 => {
            reveal_strlit("i32");
            reveal_strlit("I32");
        },
        DataType::I64 => {
            reveal_strlit("i64");
            reveal_strlit("I64");
        },
        DataType::F32 => {
            reveal_strlit("f32");
            reveal_strlit("F32");
        },
        DataType::F64 => {
            reveal_strlit("f64");
            reveal_strlit("F64");
        },
    }
    assert(data_rust_type(d) =~= d.spec_name().map_values(|c: char| ascii_lower(c)));
    assert(data_rust_type(d) =~= seq![ascii_lower(d.spec_name()[0])] + decimal(8 * d.spec_item_size()));
}

/// The numpy dtype named for a data buffer has the buffer's element kind
/// (by the first letter of the data type's name) and the number of bits of
/// one element, eight times the element size.
pub proof fn lemma_data_dtype_matches_elements(d: DataType)
    ensures
        data_dtype(d) == seq!['n', 'p', '.'] + dtype_family(d.spec_name()[0]) + decimal(8 * d.spec_item_size()),
{
    lemma_bits_text(d);
    match d {
        DataType::U8 => {
            reveal_strlit("np.uint8");
            reveal_strlit("U8");
        },
        DataType::U16 => {
            reveal_strlit("np.uint16");
            reveal_strlit("U16");
        },
        DataType::U32 => {
            reveal_strlit("np.uint32");
            reveal_strlit("U32");
        },
        DataType::U64 => {
            reveal_strlit("np.uint64");
            reveal_strlit("U64");
        },
        DataType::I8 => {
            reveal_strlit("np.int8");
            reveal_strlit("I8");
        },
        DataType::I16 => {
            reveal_strlit("np.int16");
            reveal_strlit("I16");
        },
        DataType::I32 => {
            reveal_strlit("np.int32");
            reveal_strlit("I32");
        },
        DataType::I64 => {
            reveal_strlit("np.int64");
            reveal_strlit("I64");
        },
        DataType::F32 => {
            reveal_strlit("np.float32");
            reveal_strlit("F32");
        },
        DataType::F64 => {
            reveal_strlit("np.float64");
            reveal_strlit("F64");
        },
    }
    assert(data_dtype(d) =~= seq!['n', 'p', '.'] + dtype_family(d.spec_name()[0]) + decimal(8 * d.spec_item_size()));
}

/// The Rust type name of `t`.
pub open spec fn rust_type(t: ObjectType, ctx: RustTypeContext) -> Seq<char>
    decreases t, 0nat,
{
    match t {
        ObjectType::U8 => "u8"@,
        ObjectType::U16 => "u16"@,
        ObjectType::U32 => "u32"@,
        ObjectType::U64 => "u64"@,
        ObjectType::I8 => "i8"@,
        ObjectType::I16 => "i16"@,
        ObjectType::I32 => "i32"@,
        ObjectType::I64 => "i64"@,
        ObjectType::F32 => "f32"@,
        ObjectType::F64 => "f64"@,
        ObjectType::Bool => "bool"@,
        ObjectType::String => "String"@,
        ObjectType::Empty => "()"@,
        ObjectType::Enum(name, _) => match ctx {
            RustTypeContext::States => "enums::"@ + name@,
            RustTypeContext::Structs => "super::enums::"@ + name@,
        },
        ObjectType::Struct(name, _) => match ctx {
            RustTypeContext::States => "structs::"@ + name@,
            RustTypeContext::Structs => name@,
        },
        ObjectType::Tuple(elements) => if elements@.len() == 0 {
            "()"@
        } else if elements@.len() == 1 {
            "("@ + rust_type(elements@[0], ctx) + ",)"@
        } else {
            "("@ + rust_types_joined(elements@, ctx) + ")"@
        },
        ObjectType::List(size, element) => "["@ + rust_type(*element, ctx) + "; "@ + decimal(size as nat) + "]"@,
        ObjectType::Vec(element) => "Vec<"@ + rust_type(*element, ctx) + ">"@,
        ObjectType::Dict(key, value) => "std::collections::HashMap<"@ + rust_type(*key, ctx) + ", "@ + rust_type(
            *value,
            ctx,
        ) + ">"@,
        ObjectType::Option(element) => "Option<"@ + rust_type(*element, ctx) + ">"@,
    }
}

/// The Rust type names of `ts`, separated by `", "`.
pub open spec fn rust_types_joined(ts: Seq<ObjectType>, ctx: RustTypeContext) -> Seq<char>
    decreases ts, ts.len(),
{
    if ts.len() == 0 {
        Seq::empty()
    } else if ts.len() == 1 {
        rust_type(ts[0], ctx)
    } else {
        rust_types_joined(ts.drop_last(), ctx) + ", "@ + rust_type(ts.last(), ctx)
    }
}

pub(crate) fn text(s: &str) -> (r: String)
    ensures
        r@ == s@,
{
    String::from_str(s)
}

pub(crate) fn prefixed(first: &str, rest: &str) -> (r: String)
    ensures
        r@ == first@ + rest@,
{
    let mut r = String::from_str(first);
    r.append(rest);
    r
}

pub(crate) fn wrapped(first: &str, inner: String, last: &str) -> (r: String)
    ensures
        r@ == first@ + inner@ + last@,
{
    let mut r = String::from_str(first);
    r.append(inner.as_str());
    r.append(last);
    r
}

/// The Rust type name of `t`.
pub fn type_to_rust_type(t: &ObjectType, ctx: RustTypeContext) -> (s: String)
    ensures
        s@ == rust_type(*t, ctx),
    decreases t,
{
    match t {
        ObjectType::U8 => text("u8"),
        ObjectType::U16 => text("u16"),
        ObjectType::U32 => text("u32"),
        ObjectType::U64 => text("u64"),
        ObjectType::I8 => text("i8"),
        ObjectType::I16 => text("i16"),
        ObjectType::I32 => text("i32"),
        ObjectType::I64 => text("i64"),
        ObjectType::F32 => text("f32"),
        ObjectType::F64 => text("f64"),
        ObjectType::Bool => text("bool"),
        ObjectType::String => text("String"),
        ObjectType::Empty => text("()"),
        ObjectType::Enum(name, _) => match ctx {
            RustTypeContext::States => prefixed("enums::", name.as_str()),
            RustTypeContext::Structs => prefixed("super::enums::", name.as_str()),
        },
        ObjectType::Struct(name, _) => match ctx {
            RustTypeContext::States => prefixed("structs::", name.as_str()),
            RustTypeContext::Structs => text(name.as_str()),
        },
        ObjectType::Tuple(elements) => {
            if elements.len() == 0 {
                text("()")
            } else if elements.len() == 1 {
                wrapped("(", type_to_rust_type(&elements[0], ctx), ",)")
            } else {
                let mut joined = type_to_rust_type(&elements[0], ctx);
                let mut i: usize = 1;
                proof {
                    assert(elements@.subrange(0, 1).drop_last() =~= Seq::<ObjectType>::empty());
                    assert(elements@.subrange(0, 1)[0] == elements@[0]);
                }
                while i < elements.len()
                    invariant
                        1 <= i <= elements@.len(),
                        *t == ObjectType::Tuple(*elements),
                        joined@ == rust_types_joined(elements@.subrange(0, i as int), ctx),
                    decreases elements@.len() - i,
                {
                    proof {
                        assert(decreases_to!(*t => (*t)->Tuple_0));
                        assert(decreases_to!(*elements => elements@));
                        assert(decreases_to!(elements@ => elements@[i as int]));
                    }
                    let next = type_to_rust_type(&elements[i], ctx);
                    joined.append(", ");
                    joined.append(next.as_str());
                    proof {
                        let sub = elements@.subrange(0, i + 1);
                        assert(sub.drop_last() =~= elements@.subrange(0, i as int));
                        assert(sub.last() == elements@[i as int]);
                    }
                    i += 1;
                }
                proof {
                    assert(elements@.subrange(0, elements@.len() as int) =~= elements@);
                }
                wrapped("(", joined, ")")
            }
        },
        ObjectType::List(size, element) => {
            let mut s = wrapped("[", type_to_rust_type(element, ctx), "; ");
            push_decimal(&mut s, *size as u64);
            s.append("]");
            s
        },
        ObjectType::Vec(element) => wrapped("Vec<", type_to_rust_type(element, ctx), ">"),
        ObjectType::Dict(key, value) => {
            let mut s = wrapped("std::collections::HashMap<", type_to_rust_type(key, ctx), ", ");
            let v = type_to_rust_type(value, ctx);
            s.append(v.as_str());
            s.append(">");
            s
        },
        ObjectType::Option(element) => wrapped("Option<", type_to_rust_type(element, ctx), ">"),
    }
}

/// Where a Python type name appears: in the states module, or in the
/// structs module next to it.
#[derive(Debug, Clone, Copy, PartialEq, Eq, Structural)]
pub enum PythonTypeContext {
    States,
    Structs,
}

/// The Python annotation of `t`; a fixed-size list may carry a comment with
/// its size.
pub open spec fn python_type(t: ObjectType, list_comment: bool, ctx: PythonTypeContext) -> Seq<char>
    decreases t, 0nat,
{
    match t {
        ObjectType::U8 | ObjectType::U16 | ObjectType::U32 | ObjectType::U64 | ObjectType::I8 | ObjectType::I16
        | ObjectType::I32 | ObjectType::I64 => "int"@,
        ObjectType::F32 | ObjectType::F64 => "float"@,
        ObjectType::Bool => "bool"@,
        ObjectType::String => "str"@,
        ObjectType::Empty => Seq::empty(),
        ObjectType::Enum(name, _) => "enums."@ + name@,
        ObjectType::Struct(name, _) => match ctx {
            PythonTypeContext::States => "structs."@ + name@,
            PythonTypeContext::Structs => name@,
        },
        ObjectType::Tuple(elements) => "tuple["@ + python_types_joined(elements@, list_comment, ctx) + "]"@,
        ObjectType::List(size, element) => if list_comment {
            "list["@ + python_type(*element, list_comment, ctx) + "]  # fixed size "@ + decimal(size as nat)
        } else {
            "list["@ + python_type(*element, list_comment, ctx) + "]"@
        },
        ObjectType::Vec(element) => "list["@ + python_type(*element, list_comment, ctx) + "]"@,
        ObjectType::Dict(key, value) => "dict["@ + python_type(*key, list_comment, ctx) + ", "@ + python_type(
            *value,
            list_comment,
            ctx,
        ) + "]"@,
        ObjectType::Option(element) => python_type(*element, list_comment, ctx) + " | None"@,
    }
}

/// The Python annotations of `ts`, separated by `", "`.
pub open spec fn python_types_joined(ts: Seq<ObjectType>, list_comment: bool, ctx: PythonTypeContext) -> Seq<char>
    decreases ts, ts.len(),
{
    if ts.len() == 0 {
        Seq::empty()
    } else if ts.len() == 1 {
        python_type(ts[0], list_comment, ctx)
    } else {
        python_types_joined(ts.drop_last(), list_comment, ctx) + ", "@ + python_type(ts.last(), list_comment, ctx)
    }
}

/// The Python annotation of `t`.
pub fn type_info_to_python_type(t: &ObjectType, list_comment: bool, ctx: PythonTypeContext) -> (s: String)
    ensures
        s@ == python_type(*t, list_comment, ctx),
    decreases t,
{
    match t {
        ObjectType::U8 | ObjectType::U16 | ObjectType::U32 | ObjectType::U64 | ObjectType::I8 | ObjectType::I16
        | ObjectType::I32 | ObjectType::I64 => text("int"),
        ObjectType::F32 | ObjectType::F64 => text("float"),
        ObjectType::Bool => text("bool"),
        ObjectType::String => text("str"),
        ObjectType::Empty => String::new(),
        ObjectType::Enum(name, _) => prefixed("enums.", name.as_str()),
        ObjectType::Struct(name, _) => match ctx {
            PythonTypeContext::States => prefixed("structs.", name.as_str()),
            PythonTypeContext::Structs => text(name.as_str()),
        },
        ObjectType::Tuple(elements) => {
            let mut joined = String::new();
            let mut i: usize = 0;
            proof {
                assert(elements@.subrange(0, 0) =~= Seq::<ObjectType>::empty());
            }
            while i < elements.len()
                invariant
                    i <= elements@.len(),
                    *t == ObjectType::Tuple(*elements),
                    joined@ == python_types_joined(elements@.subrange(0, i as int), list_comment, ctx),
                decreases elements@.len() - i,
            {
                proof {
                    assert(decreases_to!(*t => (*t)->Tuple_0));
                    assert(decreases_to!(*elements => elements@));
                    assert(decreases_to!(elements@ => elements@[i as int]));
                }
                let next = type_info_to_python_type(&elements[i], list_comment, ctx);
                if i > 0 {
                    joined.append(", ");
                }
                joined.append(next.as_str());
                proof {
                    let sub = elements@.subrange(0, i + 1);
                    assert(sub.drop_last() =~= elements@.subrange(0, i as int));
                    assert(sub.last() == elements@[i as int]);
                    if i == 0 {
                        assert(joined@ =~= next@);
                    }
                }
                i += 1;
            }
            proof {
                assert(elements@.subrange(0, elements@.len() as int) =~= elements@);
            }
            wrapped("tuple[", joined, "]")
        },
        ObjectType::List(size, element) => {
            let inner = type_info_to_python_type(element, list_comment, ctx);
            if list_comment {
                let mut s = wrapped("list[", inner, "]  # fixed size ");
                push_decimal(&mut s, *size as u64);
                s
            } else {
                wrapped("list[", inner, "]")
            }
        },
        ObjectType::Vec(element) => wrapped("list[", type_info_to_python_type(element, list_comment, ctx), "]"),
        ObjectType::Dict(key, value) => {
            let mut s = wrapped("dict[", type_info_to_python_type(key, list_comment, ctx), ", ");
            let v = type_info_to_python_type(value, list_comment, ctx);
            s.append(v.as_str());
            s.append("]");
            s
        },
        ObjectType::Option(element) => {
            let mut s = type_info_to_python_type(element, list_comment, ctx);
            s.append(" | None");
            s
        },
    }
}

/// The runtime type descriptor of `t` in the generated Python bindings.
pub open spec fn py_descriptor(t: ObjectType) -> Seq<char>
    decreases t, 0nat,
{
    match t {
        ObjectType::U8 => "s.u8"@,
        ObjectType::U16 => "s.u16"@,
        ObjectType::U32 => "s.u32"@,
        ObjectType::U64 => "s.u64"@,
        ObjectType::I8 => "s.i8"@,
        ObjectType::I16 => "s.i16"@,
        ObjectType::I32 => "s.i32"@,
        ObjectType::I64 => "s.i64"@,
        ObjectType::F32 => "s.f32"@,
        ObjectType::F64 => "s.f64"@,
        ObjectType::Bool => "s.bo"@,
        ObjectType::String => "s.st"@,
        ObjectType::Empty => "s.emp"@,
        ObjectType::Enum(name, _) => "s.enu(enums."@ + name@ + ")"@,
        ObjectType::Struct(name, fields) => "s.cl(["@ + py_field_descriptors(fields@) + "], structs."@ + name@ + ")"@,
        ObjectType::Tuple(elements) => "s.tu(["@ + py_descriptors(elements@) + "])"@,
        ObjectType::List(size, element) => "s.li("@ + py_descriptor(*element) + ", "@ + decimal(size as nat) + ")"@,
        ObjectType::Vec(element) => "s.vec("@ + py_descriptor(*element) + ")"@,
        ObjectType::Dict(key, value) => "s.map("@ + py_descriptor(*key) + ", "@ + py_descriptor(*value) + ")"@,
        ObjectType::Option(element) => "s.opt("@ + py_descriptor(*element) + ")"@,
    }
}

/// The data type whose elements a numeric object type stands for: each
/// width and kind of number to the same one; `None` for any other type.
pub open spec fn numeric_data_type(t: ObjectType) -> Option<DataType> {
    match t {
        ObjectType::U8 => Some(DataType::U8),
        ObjectType::U16 => Some(DataType::U16),
        ObjectType::U32 => Some(DataType::U32),
        ObjectType::U64 => Some(DataType::U64),
        ObjectType::I8 => Some(DataType::I8),
        ObjectType::I16 => Some(DataType::I16),
        ObjectType::I32 => Some(DataType::I32),
        ObjectType::I64 => Some(DataType::I64),
        ObjectType::F32 => Some(DataType::F32),
        ObjectType::F64 => Some(DataType::F64),
        _ => None,
    }
}

/// A number is named alike wherever the bindings name it: its Rust type is
/// the element type of the data type of the same width and kind (in either
/// module), and its Python descriptor is that name under `s.`. So a number's
/// name follows its width and kind (see
/// [`lemma_data_rust_type_matches_elements`]).
pub proof fn lemma_number_names(t: ObjectType, ctx: RustTypeContext)
    requires
        numeric_data_type(t) is Some,
    ensures
        rust_type(t, ctx) == data_rust_type(numeric_data_type(t)->0),
        py_descriptor(t) == seq!['s', '.'] + data_rust_type(numeric_data_type(t)->0),
{
    match t {
        ObjectType::U8 => {
            reveal_strlit("u8");
            reveal_strlit("s.u8");
        },
        ObjectType::U16 => {
            reveal_strlit("u16");
            reveal_strlit("s.u16");
        },
        ObjectType::U32 => {
            reveal_strlit("u32");
            reveal_strlit("s.u32");
        },
        ObjectType::U64 => {
            reveal_strlit("u64");
            reveal_strlit("s.u64");
        },
        ObjectType::I8 => {
            reveal_strlit("i8");
            reveal_strlit("s.i8");
        },
        ObjectType::I16 => {
            reveal_strlit("i16");
            reveal_strlit("s.i16");
        },
        ObjectType::I32 => {
            reveal_strlit("i32");
            reveal_strlit("s.i32");
        },
        ObjectType::I64 => {
            reveal_strlit("i64");
            reveal_strlit("s.i64");
        },
        ObjectType::F32 => {
            reveal_strlit("f32");
            reveal_strlit("s.f32");
        },
        ObjectType::F64 => {
            reveal_strlit("f64");
            reveal_strlit("s.f64");
        },
        _ => {},
    }
    assert(py_descriptor(t) =~= seq!['s', '.'] + data_rust_type(numeric_data_type(t)->0));
}

/// The Python annotation of a number depends only on its kind: `float`
/// for a floating-point number (a data type whose name starts with `F`),
/// `int` for every integer of any width or sign.
pub proof fn lemma_number_annotations(t: ObjectType, list_comment: bool, ctx: PythonTypeContext)
    requires
        numeric_data_type(t) is Some,
    ensures
        python_type(t, list_comment, ctx) == if numeric_data_type(t)->0.spec_name()[0] == 'F' {
            "float"@
        } else {
            "int"@
        },
{
    match t {
        ObjectType::U8 => reveal_strlit("U8"),
        ObjectType::U16 => reveal_strlit("U16"),
        ObjectType::U32 => reveal_strlit("U32"),
        ObjectType::U64 => reveal_strlit("U64"),
        ObjectType::I8 => reveal_strlit("I8"),
        ObjectType::I16 => reveal_strlit("I16"),
        ObjectType::I32 => reveal_strlit("I32"),
        ObjectType::I64 => reveal_strlit("I64"),
        ObjectType::F32 => reveal_strlit("F32"),
        ObjectType::F64 => reveal_strlit("F64"),
        _ => {},
    }
}

/// The descriptors of `ts`, separated by `", "`.
pub open spec fn py_descriptors(ts: Seq<ObjectType>) -> Seq<char>
    decreases ts, ts.len(),
{
    if ts.len() == 0 {
        Seq::empty()
    } else if ts.len() == 1 {
        py_descriptor(ts[0])
    } else {
        py_descriptors(ts.drop_last()) + ", "@ + py_descriptor(ts.last())
    }
}

/// The descriptors of the fields' types, separated by `", "`.
pub open spec fn py_field_descriptors(fs: Seq<(String, ObjectType)>) -> Seq<char>
    decreases fs, fs.len(),
{
    if fs.len() == 0 {
        Seq::empty()
    } else if fs.len() == 1 {
        py_descriptor(fs[0].1)
    } else {
        py_field_descriptors(fs.drop_last()) + ", "@ + py_descriptor(fs.last().1)
    }
}

/// The runtime type descriptor of `t` in the generated Python bindings.
pub fn type_to_pytype(t: &ObjectType) -> (s: String)
    ensures
        s@ == py_descriptor(*t),
    decreases t,
{
    match t {
        ObjectType::U8 => text("s.u8"),
        ObjectType::U16 => text("s.u16"),
        ObjectType::U32 => text("s.u32"),
        ObjectType::U64 => text("s.u64"),
        ObjectType::I8 => text("s.i8"),
        ObjectType::I16 => text("s.i16"),
        ObjectType::I32 => text("s.i32"),
        ObjectType::I64 => text("s.i64"),
        ObjectType::F32 => text("s.f32"),
        ObjectType::F64 => text("s.f64"),
        ObjectType::Bool => text("s.bo"),
        ObjectType::String => text("s.st"),
        ObjectType::Empty => text("s.emp"),
        ObjectType::Enum(name, _) => wrapped("s.enu(enums.", text(name.as_str()), ")"),
        ObjectType::Struct(name, fields) => {
            let mut joined = String::new();
            let mut i: usize = 0;
            proof {
                assert(fields@.subrange(0, 0) =~= Seq::<(String, ObjectType)>::empty());
            }
            while i < fields.len()
                invariant
                    i <= fields@.len(),
                    *t == ObjectType::Struct(*name, *fields),
                    joined@ == py_field_descriptors(fields@.subrange(0, i as int)),
                decreases fields@.len() - i,
            {
                proof {
                    assert(decreases_to!(*t => (*t)->Struct_1));
                    assert(decreases_to!(*fields => fields@));
                    assert(decreases_to!(fields@ => fields@[i as int]));
                    assert(decreases_to!(fields@[i as int] => fields@[i as int].1));
                }
                let next = type_to_pytype(&fields[i].1);
                if i > 0 {
                    joined.append(", ");
                }
                joined.append(next.as_str());
                proof {
                    let sub = fields@.subrange(0, i + 1);
                    assert(sub.drop_last() =~= fields@.subrange(0, i as int));
                    assert(sub.last() == fields@[i as int]);
                    if i == 0 {
                        assert(joined@ =~= next@);
                    }
                }
                i += 1;
            }
            proof {
                assert(fields@.subrange(0, fields@.len() as int) =~= fields@);
            }
            let mut s = wrapped("s.cl([", joined, "], structs.");
            s.append(name.as_str());
            s.append(")");
            s
        },
        ObjectType::Tuple(elements) => {
            let mut joined = String::new();
            let mut i: usize = 0;
            proof {
                assert(elements@.subrange(0, 0) =~= Seq::<ObjectType>::empty());
            }
            while i < elements.len()
                invariant
                    i <= elements@.len(),
                    *t == ObjectType::Tuple(*elements),
                    joined@ == py_descriptors(elements@.subrange(0, i as int)),
                decreases elements@.len() - i,
            {
                proof {
                    assert(decreases_to!(*t => (*t)->Tuple_0));
                    assert(decreases_to!(*elements => elements@));
                    assert(decreases_to!(elements@ => elements@[i as int]));
                }
                let next = type_to_pytype(&elements[i]);
                if i > 0 {
                    joined.append(", ");
                }
                joined.append(next.as_str());
                proof {
                    let sub = elements@.subrange(0, i + 1);
                    assert(sub.drop_last() =~= elements@.subrange(0, i as int));
                    assert(sub.last() == elements@[i as int]);
                    if i == 0 {
                        assert(joined@ =~= next@);
                    }
                }
                i += 1;
            }
            proof {
                assert(elements@.subrange(0, elements@.len() as int) =~= elements@);
            }
            wrapped("s.tu([", joined, "])")
        },
        ObjectType::List(size, element) => {
            let mut s = wrapped("s.li(", type_to_pytype(element), ", ");
            push_decimal(&mut s, *size as u64);
            s.append(")");
            s
        },
        ObjectType::Vec(element) => wrapped("s.vec(", type_to_pytype(element), ")"),
        ObjectType::Dict(key, value) => {
            let mut s = wrapped("s.map(", type_to_pytype(key), ", ");
            let v = type_to_pytype(value);
            s.append(v.as_str());
            s.append(")");
            s
        },
        ObjectType::Option(element) => wrapped("s.opt(", type_to_pytype(element), ")"),
    }
}

/// How a floating-point value prints: `debug` as `Debug` prints it once
/// widened to `f64`, `display` as `Display` prints it in its own type.
/// Formatting floats is left to whoever builds the value.
#[derive(Debug)]
pub struct FloatText {
    pub debug: String,
    pub display: String,
}

/// The initial value of a state, as the generated bindings write it.
/// Floating-point values are kept as their bits and their printed forms.
#[derive(Debug)]
pub enum InitValue {
    U8(u8),
    U16(u16),
    U32(u32),
    U64(u64),
    I8(i8),
    I16(i16),
    I32(i32),
    I64(i64),
    /// the bits of an `f64` and how it prints
    F64(u64, FloatText),
    /// the bits of an `f32` and how it prints
    F32(u32, FloatText),
    String(String),
    Bool(bool),
    Enum(String),
    Option(Option<Box<InitValue>>),
    /// struct name and (field, value) pairs
    Struct(String, Vec<(String, InitValue)>),
    Tuple(Vec<InitValue>),
    List(Vec<InitValue>),
    Vec(Vec<InitValue>),
    /// (key, value) pairs
    Dict(Vec<(InitValue, InitValue)>),
}

/// Whether the bits of an `f64` are a NaN.
pub open spec fn f64_bits_nan(b: u64) -> bool {
    (b & 0x7ff0_0000_0000_0000u64) == 0x7ff0_0000_0000_0000u64 && (b & 0x000f_ffff_ffff_ffffu64) != 0
}

/// Whether the bits of an `f32` are a NaN.
pub open spec fn f32_bits_nan(b: u32) -> bool {
    (b & 0x7f80_0000u32) == 0x7f80_0000u32 && (b & 0x007f_ffffu32) != 0
}

/// Whether two initial values are the same definition: equal, where all
/// NaNs count as the same and other floats compare by their bits (so `0.0`
/// and `-0.0` differ).
pub open spec fn init_eq(a: InitValue, b: InitValue) -> bool
    decreases a, 0nat,
{
    match (a, b) {
        (InitValue::U8(x), InitValue::U8(y)) => x == y,
        (InitValue::U16(x), InitValue::U16(y)) => x == y,
        (InitValue::U32(x), InitValue::U32(y)) => x == y,
        (InitValue::U64(x), InitValue::U64(y)) => x == y,
        (InitValue::I8(x), InitValue::I8(y)) => x == y,
        (InitValue::I16(x), InitValue::I16(y)) => x == y,
        (InitValue::I32(x), InitValue::I32(y)) => x == y,
        (InitValue::I64(x), InitValue::I64(y)) => x == y,
        (InitValue::F64(x, _), InitValue::F64(y, _)) => (f64_bits_nan(x) && f64_bits_nan(y)) || x == y,
        (InitValue::F32(x, _), InitValue::F32(y, _)) => (f32_bits_nan(x) && f32_bits_nan(y)) || x == y,
        (InitValue::String(x), InitValue::String(y)) => x@ == y@,
        (InitValue::Bool(x), InitValue::Bool(y)) => x == y,
        (InitValue::Enum(x), InitValue::Enum(y)) => x@ == y@,
        (InitValue::Option(x), InitValue::Option(y)) => match (x, y) {
            (Some(p), Some(q)) => init_eq(*p, *q),
            (None, None) => true,
            _ => false,
        },
        (InitValue::Struct(n, x), InitValue::Struct(m, y)) => n@ == m@ && init_fields_eq(x@, y@),
        (InitValue::Tuple(x), InitValue::Tuple(y)) => init_seq_eq(x@, y@),
        (InitValue::List(x), InitValue::List(y)) => init_seq_eq(x@, y@),
        (InitValue::Vec(x), InitValue::Vec(y)) => init_seq_eq(x@, y@),
        (InitValue::Dict(x), InitValue::Dict(y)) => init_pairs_eq(x@, y@),
        _ => false,
    }
}

/// Two sequences of initial values of the same length, equal one by one.
pub open spec fn init_seq_eq(a: Seq<InitValue>, b: Seq<InitValue>) -> bool
    decreases a, a.len(),
{
    if a.len() == 0 {
        b.len() == 0
    } else {
        b.len() == a.len() && init_seq_eq(a.drop_last(), b.drop_last()) && init_eq(a.last(), b.last())
    }
}

/// Two sequences of named fields of the same length, with equal names and
/// values one by one.
pub open spec fn init_fields_eq(a: Seq<(String, InitValue)>, b: Seq<(String, InitValue)>) -> bool
    decreases a, a.len(),
{
    if a.len() == 0 {
        b.len() == 0
    } else {
        b.len() == a.len() && init_fields_eq(a.drop_last(), b.drop_last()) && a.last().0@ == b.last().0@ && init_eq(
            a.last().1,
            b.last().1,
        )
    }
}

/// Two sequences of (key, value) pairs of the same length, equal one by one.
pub open spec fn init_pairs_eq(a: Seq<(InitValue, InitValue)>, b: Seq<(InitValue, InitValue)>) -> bool
    decreases a, a.len(),
{
    if a.len() == 0 {
        b.len() == 0
    } else {
        b.len() == a.len() && init_pairs_eq(a.drop_last(), b.drop_last()) && init_eq(a.last().0, b.last().0)
            && init_eq(a.last().1, b.last().1)
    }
}

/// Equality of initial values is an equivalence: every value equals itself
/// (a NaN too), equality holds both ways, and it carries along a chain.
pub proof fn lemma_init_eq_equivalence(a: InitValue, b: InitValue, c: InitValue)
    ensures
        init_eq(a, a),
        init_eq(a, b) == init_eq(b, a),
        init_eq(a, b) && init_eq(b, c) ==> init_eq(a, c),
{
    lemma_init_eq_refl(a);
    lemma_init_eq_symm(a, b);
    lemma_init_eq_symm(b, a);
    lemma_init_eq_trans(a, b, c);
}

proof fn lemma_init_eq_refl(a: InitValue)
    ensures
        init_eq(a, a),
    decreases a, 0nat,
{
    match a {
        InitValue::Option(Some(p)) => {
            assert(decreases_to!(a => p));
            lemma_init_eq_refl(*p);
        },
        InitValue::Struct(_, f) => {
            assert(decreases_to!(a => f));
            lemma_fields_eq_refl(f@);
        },
        InitValue::Tuple(x) => {
            assert(decreases_to!(a => x));
            lemma_seq_eq_refl(x@);
        },
        InitValue::List(x) => {
            assert(decreases_to!(a => x));
            lemma_seq_eq_refl(x@);
        },
        InitValue::Vec(x) => {
            assert(decreases_to!(a => x));
            lemma_seq_eq_refl(x@);
        },
        InitValue::Dict(x) => {
            assert(decreases_to!(a => x));
            lemma_pairs_eq_refl(x@);
        },
        _ => {},
    }
}

proof fn lemma_seq_eq_refl(a: Seq<InitValue>)
    ensures
        init_seq_eq(a, a),
    decreases a, a.len(),
{
    if a.len() > 0 {
        assert(decreases_to!(a => a[a.len() - 1]));
        lemma_init_eq_refl(a.last());
        lemma_seq_eq_refl(a.drop_last());
    }
}

proof fn lemma_fields_eq_refl(a: Seq<(String, InitValue)>)
    ensures
        init_fields_eq(a, a),
    decreases a, a.len(),
{
    if a.len() > 0 {
        assert(decreases_to!(a => a[a.len() - 1]));
        assert(decreases_to!(a[a.len() - 1] => a[a.len() - 1].1));
        lemma_init_eq_refl(a.last().1);
        lemma_fields_eq_refl(a.drop_last());
    }
}

proof fn lemma_pairs_eq_refl(a: Seq<(InitValue, InitValue)>)
    ensures
        init_pairs_eq(a, a),
    decreases a, a.len(),
{
    if a.len() > 0 {
        assert(decreases_to!(a => a[a.len() - 1]));
        assert(decreases_to!(a[a.len() - 1] => a[a.len() - 1].0));
        assert(decreases_to!(a[a.len() - 1] => a[a.len() - 1].1));
        lemma_init_eq_refl(a.last().0);
        lemma_init_eq_refl(a.last().1);
        lemma_pairs_eq_refl(a.drop_last());
    }
}

proof fn lemma_init_eq_symm(a: InitValue, b: InitValue)
    ensures
        init_eq(a, b) ==> init_eq(b, a),
    decreases a, 0nat,
{
    match (a, b) {
        (InitValue::Option(Some(p)), InitValue::Option(Some(q))) => {
            assert(decreases_to!(a => p));
            lemma_init_eq_symm(*p, *q);
        },
        (InitValue::Struct(_, f), InitValue::Struct(_, g)) => {
            assert(decreases_to!(a => f));
            lemma_fields_eq_symm(f@, g@);
        },
        (InitValue::Tuple(x), InitValue::Tuple(y)) => {
            assert(decreases_to!(a => x));
            lemma_seq_eq_symm(x@, y@);
        },
        (InitValue::List(x), InitValue::List(y)) => {
            assert(decreases_to!(a => x));
            lemma_seq_eq_symm(x@, y@);
        },
        (InitValue::Vec(x), InitValue::Vec(y)) => {
            assert(decreases_to!(a => x));
            lemma_seq_eq_symm(x@, y@);
        },
        (InitValue::Dict(x), InitValue::Dict(y)) => {
            assert(decreases_to!(a => x));
            lemma_pairs_eq_symm(x@, y@);
        },
        _ => {},
    }
}

proof fn lemma_seq_eq_symm(a: Seq<InitValue>, b: Seq<InitValue>)
    ensures
        init_seq_eq(a, b) ==> init_seq_eq(b, a),
    decreases a, a.len(),
{
    if a.len() > 0 && b.len() == a.len() {
        assert(decreases_to!(a => a[a.len() - 1]));
        lemma_init_eq_symm(a.last(), b.last());
        lemma_seq_eq_symm(a.drop_last(), b.drop_last());
    }
}

proof fn lemma_fields_eq_symm(a: Seq<(String, InitValue)>, b: Seq<(String, InitValue)>)
    ensures
        init_fields_eq(a, b) ==> init_fields_eq(b, a),
    decreases a, a.len(),
{
    if a.len() > 0 && b.len() == a.len() {
        assert(decreases_to!(a => a[a.len() - 1]));
        assert(decreases_to!(a[a.len() - 1] => a[a.len() - 1].1));
        lemma_init_eq_symm(a.last().1, b.last().1);
        lemma_fields_eq_symm(a.drop_last(), b.drop_last());
    }
}

proof fn lemma_pairs_eq_symm(a: Seq<(InitValue, InitValue)>, b: Seq<(InitValue, InitValue)>)
    ensures
        init_pairs_eq(a, b) ==> init_pairs_eq(b, a),
    decreases a, a.len(),
{
    if a.len() > 0 && b.len() == a.len() {
        assert(decreases_to!(a => a[a.len() - 1]));
        assert(decreases_to!(a[a.len() - 1] => a[a.len() - 1].0));
        assert(decreases_to!(a[a.len() - 1] => a[a.len() - 1].1));
        lemma_init_eq_symm(a.last().0, b.last().0);
        lemma_init_eq_symm(a.last().1, b.last().1);
        lemma_pairs_eq_symm(a.drop_last(), b.drop_last());
    }
}

proof fn lemma_init_eq_trans(a: InitValue, b: InitValue, c: InitValue)
    ensures
        init_eq(a, b) && init_eq(b, c) ==> init_eq(a, c),
    decreases a, 0nat,
{
    match (a, b, c) {
        (InitValue::Option(Some(p)), InitValue::Option(Some(q)), InitValue::Option(Some(r))) => {
            assert(decreases_to!(a => p));
            lemma_init_eq_trans(*p, *q, *r);
        },
        (InitValue::Struct(_, f), InitValue::Struct(_, g), InitValue::Struct(_, h)) => {
            assert(decreases_to!(a => f));
            lemma_fields_eq_trans(f@, g@, h@);
        },
        (InitValue::Tuple(x), InitValue::Tuple(y), InitValue::Tuple(z)) => {
            assert(decreases_to!(a => x));
            lemma_seq_eq_trans(x@, y@, z@);
        },
        (InitValue::List(x), InitValue::List(y), InitValue::List(z)) => {
            assert(decreases_to!(a => x));
            lemma_seq_eq_trans(x@, y@, z@);
        },
        (InitValue::Vec(x), InitValue::Vec(y), InitValue::Vec(z)) => {
            assert(decreases_to!(a => x));
            lemma_seq_eq_trans(x@, y@, z@);
        },
        (InitValue::Dict(x), InitValue::Dict(y), InitValue::Dict(z)) => {
            assert(decreases_to!(a => x));
            lemma_pairs_eq_trans(x@, y@, z@);
        },
        _ => {},
    }
}

proof fn lemma_seq_eq_trans(a: Seq<InitValue>, b: Seq<InitValue>, c: Seq<InitValue>)
    ensures
        init_seq_eq(a, b) && init_seq_eq(b, c) ==> init_seq_eq(a, c),
    decreases a, a.len(),
{
    if a.len() > 0 && b.len() == a.len() && c.len() == a.len() {
        assert(decreases_to!(a => a[a.len() - 1]));
        lemma_init_eq_trans(a.last(), b.last(), c.last());
        lemma_seq_eq_trans(a.drop_last(), b.drop_last(), c.drop_last());
    }
}

proof fn lemma_fields_eq_trans(a: Seq<(String, InitValue)>, b: Seq<(String, InitValue)>, c: Seq<(String, InitValue)>)
    ensures
        init_fields_eq(a, b) && init_fields_eq(b, c) ==> init_fields_eq(a, c),
    decreases a, a.len(),
{
    if a.len() > 0 && b.len() == a.len() && c.len() == a.len() {
        assert(decreases_to!(a => a[a.len() - 1]));
        assert(decreases_to!(a[a.len() - 1] => a[a.len() - 1].1));
        lemma_init_eq_trans(a.last().1, b.last().1, c.last().1);
        lemma_fields_eq_trans(a.drop_last(), b.drop_last(), c.drop_last());
    }
}

proof fn lemma_pairs_eq_trans(
    a: Seq<(InitValue, InitValue)>,
    b: Seq<(InitValue, InitValue)>,
    c: Seq<(InitValue, InitValue)>,
)
    ensures
        init_pairs_eq(a, b) && init_pairs_eq(b, c) ==> init_pairs_eq(a, c),
    decreases a, a.len(),
{
    if a.len() > 0 && b.len() == a.len() && c.len() == a.len() {
        assert(decreases_to!(a => a[a.len() - 1]));
        assert(decreases_to!(a[a.len() - 1] => a[a.len() - 1].0));
        assert(decreases_to!(a[a.len() - 1] => a[a.len() - 1].1));
        lemma_init_eq_trans(a.last().0, b.last().0, c.last().0);
        lemma_init_eq_trans(a.last().1, b.last().1, c.last().1);
        lemma_pairs_eq_trans(a.drop_last(), b.drop_last(), c.drop_last());
    }
}

pub(crate) fn f64_nan(b: u64) -> (r: bool)
    ensures
        r == f64_bits_nan(b),
{
    (b & 0x7ff0_0000_0000_0000u64) == 0x7ff0_0000_0000_0000u64 && (b & 0x000f_ffff_ffff_ffffu64) != 0
}

pub(crate) fn f32_nan(b: u32) -> (r: bool)
    ensures
        r == f32_bits_nan(b),
{
    (b & 0x7f80_0000u32) == 0x7f80_0000u32 && (b & 0x007f_ffffu32) != 0
}

pub(crate) fn strings_eq(a: &String, b: &String) -> (r: bool)
    ensures
        r == (a@ == b@),
{
    a.eq(b)
}

impl InitValue {
    /// Whether two initial values are the same definition (see [`init_eq`]).
    pub fn equals(&self, other: &InitValue) -> (r: bool)
        ensures
            r == init_eq(*self, *other),
        decreases self,
    {
        match (self, other) {
            (InitValue::U8(x), InitValue::U8(y)) => *x == *y,
            (InitValue::U16(x), InitValue::U16(y)) => *x == *y,
            (InitValue::U32(x), InitValue::U32(y)) => *x == *y,
            (InitValue::U64(x), InitValue::U64(y)) => *x == *y,
            (InitValue::I8(x), InitValue::I8(y)) => *x == *y,
            (InitValue::I16(x), InitValue::I16(y)) => *x == *y,
            (InitValue::I32(x), InitValue::I32(y)) => *x == *y,
            (InitValue::I64(x), InitValue::I64(y)) => *x == *y,
            (InitValue::F64(x, _), InitValue::F64(y, _)) => (f64_nan(*x) && f64_nan(*y)) || *x == *y,
            (InitValue::F32(x, _), InitValue::F32(y, _)) => (f32_nan(*x) && f32_nan(*y)) || *x == *y,
            (InitValue::String(x), InitValue::String(y)) => strings_eq(x, y),
            (InitValue::Bool(x), InitValue::Bool(y)) => *x == *y,
            (InitValue::Enum(x), InitValue::Enum(y)) => strings_eq(x, y),
            (InitValue::Option(x), InitValue::Option(y)) => match (x, y) {
                (Some(p), Some(q)) => {
                    proof {
                        assert(decreases_to!(*self => (*self)->Option_0));
                    }
                    p.equals(q)
                },
                (None, None) => true,
                _ => false,
            },
            (InitValue::Struct(n, x), InitValue::Struct(m, y)) => {
                if !strings_eq(n, m) {
                    return false;
                }
                if x.len() != y.len() {
                    assert(!init_fields_eq(x@, y@));
                    return false;
                }
                let mut i: usize = 0;
                proof {
                    assert(x@.subrange(0, 0) =~= Seq::<(String, InitValue)>::empty());
                    assert(y@.subrange(0, 0) =~= Seq::<(String, InitValue)>::empty());
                }
                while i < x.len()
                    invariant
                        i <= x@.len(),
                        x@.len() == y@.len(),
                        *self == InitValue::Struct(*n, *x),
                        *other == InitValue::Struct(*m, *y),
                        n@ == m@,
                        init_fields_eq(x@.subrange(0, i as int), y@.subrange(0, i as int)),
                    decreases x@.len() - i,
                {
                    proof {
                        assert(decreases_to!(*self => (*self)->Struct_1));
                        assert(decreases_to!(*x => x@));
                        assert(decreases_to!(x@ => x@[i as int]));
                        assert(decreases_to!(x@[i as int] => x@[i as int].1));
                        let sx = x@.subrange(0, i + 1);
                        let sy = y@.subrange(0, i + 1);
                        assert(sx.drop_last() =~= x@.subrange(0, i as int));
                        assert(sy.drop_last() =~= y@.subrange(0, i as int));
                        assert(sx.last() == x@[i as int]);
                        assert(sy.last() == y@[i as int]);
                    }
                    if !strings_eq(&x[i].0, &y[i].0) || !x[i].1.equals(&y[i].1) {
                        proof {
                            assert(!init_fields_eq(x@.subrange(0, i + 1), y@.subrange(0, i + 1)));
                            lemma_fields_prefix(x@, y@, (i + 1) as nat);
                        }
                        return false;
                    }
                    i += 1;
                }
                proof {
                    assert(x@.subrange(0, x@.len() as int) =~= x@);
                    assert(y@.subrange(0, y@.len() as int) =~= y@);
                }
                true
            },
            (InitValue::Tuple(x), InitValue::Tuple(y)) => {
                proof {
                    assert(decreases_to!(*self => (*self)->Tuple_0));
                }
                values_eq(x, y)
            },
            (InitValue::List(x), InitValue::List(y)) => {
                proof {
                    assert(decreases_to!(*self => (*self)->List_0));
                }
                values_eq(x, y)
            },
            (InitValue::Vec(x), InitValue::Vec(y)) => {
                proof {
                    assert(decreases_to!(*self => (*self)->Vec_0));
                }
                values_eq(x, y)
            },
            (InitValue::Dict(x), InitValue::Dict(y)) => {
                if x.len() != y.len() {
                    assert(!init_pairs_eq(x@, y@));
                    return false;
                }
                let mut i: usize = 0;
                proof {
                    assert(x@.subrange(0, 0) =~= Seq::<(InitValue, InitValue)>::empty());
                    assert(y@.subrange(0, 0) =~= Seq::<(InitValue, InitValue)>::empty());
                }
                while i < x.len()
                    invariant
                        i <= x@.len(),
                        x@.len() == y@.len(),
                        *self == InitValue::Dict(*x),
                        *other == InitValue::Dict(*y),
                        init_pairs_eq(x@.subrange(0, i as int), y@.subrange(0, i as int)),
                    decreases x@.len() - i,
                {
                    proof {
                        assert(decreases_to!(*self => (*self)->Dict_0));
                        assert(decreases_to!(*x => x@));
                        assert(decreases_to!(x@ => x@[i as int]));
                        assert(decreases_to!(x@[i as int] => x@[i as int].0));
                        assert(decreases_to!(x@[i as int] => x@[i as int].1));
                        let sx = x@.subrange(0, i + 1);
                        let sy = y@.subrange(0, i + 1);
                        assert(sx.drop_last() =~= x@.subrange(0, i as int));
                        assert(sy.drop_last() =~= y@.subrange(0, i as int));
                        assert(sx.last() == x@[i as int]);
                        assert(sy.last() == y@[i as int]);
                    }
                    if !x[i].0.equals(&y[i].0) || !x[i].1.equals(&y[i].1) {
                        proof {
                            assert(!init_pairs_eq(x@.subrange(0, i + 1), y@.subrange(0, i + 1)));
                            lemma_pairs_prefix(x@, y@, (i + 1) as nat);
                        }
                        return false;
                    }
                    i += 1;
                }
                proof {
                    assert(x@.subrange(0, x@.len() as int) =~= x@);
                    assert(y@.subrange(0, y@.len() as int) =~= y@);
                }
                true
            },
            _ => false,
        }
    }
}

/// Sequences of initial values of the same length, equal one by one.
fn values_eq(x: &Vec<InitValue>, y: &Vec<InitValue>) -> (r: bool)
    ensures
        r == init_seq_eq(x@, y@),
    decreases x@,
{
    if x.len() != y.len() {
        assert(!init_seq_eq(x@, y@));
        return false;
    }
    let mut i: usize = 0;
    proof {
        assert(x@.subrange(0, 0) =~= Seq::<InitValue>::empty());
        assert(y@.subrange(0, 0) =~= Seq::<InitValue>::empty());
    }
    while i < x.len()
        invariant
            i <= x@.len(),
            x@.len() == y@.len(),
            init_seq_eq(x@.subrange(0, i as int), y@.subrange(0, i as int)),
        decreases x@.len() - i,
    {
        proof {
            assert(decreases_to!(x@ => x@[i as int]));
            let sx = x@.subrange(0, i + 1);
            let sy = y@.subrange(0, i + 1);
            assert(sx.drop_last() =~= x@.subrange(0, i as int));
            assert(sy.drop_last() =~= y@.subrange(0, i as int));
        }
        if !x[i].equals(&y[i]) {
            proof {
                assert(!init_seq_eq(x@.subrange(0, i + 1), y@.subrange(0, i + 1)));
                lemma_seq_prefix(x@, y@, (i + 1) as nat);
            }
            return false;
        }
        i += 1;
    }
    proof {
        assert(x@.subrange(0, x@.len() as int) =~= x@);
        assert(y@.subrange(0, y@.len() as int) =~= y@);
    }
    true
}

/// Sequences that are not equal up to `n` are not equal.
proof fn lemma_seq_prefix(a: Seq<InitValue>, b: Seq<InitValue>, n: nat)
    requires
        n <= a.len(),
        a.len() == b.len(),
        !init_seq_eq(a.subrange(0, n as int), b.subrange(0, n as int)),
    ensures
        !init_seq_eq(a, b),
    decreases a.len() - n,
{
    if n < a.len() {
        let sa = a.subrange(0, (n + 1) as int);
        let sb = b.subrange(0, (n + 1) as int);
        assert(sa.drop_last() =~= a.subrange(0, n as int));
        assert(sb.drop_last() =~= b.subrange(0, n as int));
        lemma_seq_prefix(a, b, n + 1);
    } else {
        assert(a.subrange(0, n as int) =~= a);
        assert(b.subrange(0, n as int) =~= b);
    }
}

proof fn lemma_fields_prefix(a: Seq<(String, InitValue)>, b: Seq<(String, InitValue)>, n: nat)
    requires
        n <= a.len(),
        a.len() == b.len(),
        !init_fields_eq(a.subrange(0, n as int), b.subrange(0, n as int)),
    ensures
        !init_fields_eq(a, b),
    decreases a.len() - n,
{
    if n < a.len() {
        let sa = a.subrange(0, (n + 1) as int);
        let sb = b.subrange(0, (n + 1) as int);
        assert(sa.drop_last() =~= a.subrange(0, n as int));
        assert(sb.drop_last() =~= b.subrange(0, n as int));
        lemma_fields_prefix(a, b, n + 1);
    } else {
        assert(a.subrange(0, n as int) =~= a);
        assert(b.subrange(0, n as int) =~= b);
    }
}

proof fn lemma_pairs_prefix(a: Seq<(InitValue, InitValue)>, b: Seq<(InitValue, InitValue)>, n: nat)
    requires
        n <= a.len(),
        a.len() == b.len(),
        !init_pairs_eq(a.subrange(0, n as int), b.subrange(0, n as int)),
    ensures
        !init_pairs_eq(a, b),
    decreases a.len() - n,
{
    if n < a.len() {
        let sa = a.subrange(0, (n + 1) as int);
        let sb = b.subrange(0, (n + 1) as int);
        assert(sa.drop_last() =~= a.subrange(0, n as int));
        assert(sb.drop_last() =~= b.subrange(0, n as int));
        lemma_pairs_prefix(a, b, n + 1);
    } else {
        assert(a.subrange(0, n as int) =~= a);
        assert(b.subrange(0, n as int) =~= b);
    }
}

/// Whether two lists of enum variants are the same: names and values one by
/// one.
pub open spec fn variants_eq(a: Seq<(String, i32)>, b: Seq<(String, i32)>) -> bool {
    &&& a.len() == b.len()
    &&& forall|i: int| #![trigger a[i]] 0 <= i < a.len() ==> a[i].0@ == b[i].0@ && a[i].1 == b[i].1
}

/// Whether two types are the same.
pub open spec fn obj_eq(a: ObjectType, b: ObjectType) -> bool
    decreases a, 0nat,
{
    match (a, b) {
        (ObjectType::U8, ObjectType::U8) => true,
        (ObjectType::U16, ObjectType::U16) => true,
        (ObjectType::U32, ObjectType::U32) => true,
        (ObjectType::U64, ObjectType::U64) => true,
        (ObjectType::I8, ObjectType::I8) => true,
        (ObjectType::I16, ObjectType::I16) => true,
        (ObjectType::I32, ObjectType::I32) => true,
        (ObjectType::I64, ObjectType::I64) => true,
        (ObjectType::F32, ObjectType::F32) => true,
        (ObjectType::F64, ObjectType::F64) => true,
        (ObjectType::Bool, ObjectType::Bool) => true,
        (ObjectType::String, ObjectType::String) => true,
        (ObjectType::Empty, ObjectType::Empty) => true,
        (ObjectType::Enum(n, v), ObjectType::Enum(m, w)) => n@ == m@ && variants_eq(v@, w@),
        (ObjectType::Struct(n, f), ObjectType::Struct(m, g)) => n@ == m@ && obj_fields_eq(f@, g@),
        (ObjectType::Tuple(x), ObjectType::Tuple(y)) => obj_seq_eq(x@, y@),
        (ObjectType::List(s, e), ObjectType::List(t, f)) => s == t && obj_eq(*e, *f),
        (ObjectType::Vec(e), ObjectType::Vec(f)) => obj_eq(*e, *f),
        (ObjectType::Dict(k, v), ObjectType::Dict(l, w)) => obj_eq(*k, *l) && obj_eq(*v, *w),
        (ObjectType::Option(e), ObjectType::Option(f)) => obj_eq(*e, *f),
        _ => false,
    }
}

/// Two sequences of types of the same length, equal one by one.
pub open spec fn obj_seq_eq(a: Seq<ObjectType>, b: Seq<ObjectType>) -> bool
    decreases a, a.len(),
{
    if a.len() == 0 {
        b.len() == 0
    } else {
        b.len() == a.len() && obj_seq_eq(a.drop_last(), b.drop_last()) && obj_eq(a.last(), b.last())
    }
}

/// Two sequences of typed fields of the same length, with equal names and
/// types one by one.
pub open spec fn obj_fields_eq(a: Seq<(String, ObjectType)>, b: Seq<(String, ObjectType)>) -> bool
    decreases a, a.len(),
{
    if a.len() == 0 {
        b.len() == 0
    } else {
        b.len() == a.len() && obj_fields_eq(a.drop_last(), b.drop_last()) && a.last().0@ == b.last().0@ && obj_eq(
            a.last().1,
            b.last().1,
        )
    }
}

fn variants_equal(a: &Vec<(String, i32)>, b: &Vec<(String, i32)>) -> (r: bool)
    ensures
        r == variants_eq(a@, b@),
{
    if a.len() != b.len() {
        return false;
    }
    let mut i: usize = 0;
    while i < a.len()
        invariant
            i <= a@.len(),
            a@.len() == b@.len(),
            forall|k: int| #![trigger a@[k]] 0 <= k < i ==> a@[k].0@ == b@[k].0@ && a@[k].1 == b@[k].1,
        decreases a@.len() - i,
    {
        if !strings_eq(&a[i].0, &b[i].0) || a[i].1 != b[i].1 {
            return false;
        }
        i += 1;
    }
    true
}

proof fn lemma_obj_seq_prefix(a: Seq<ObjectType>, b: Seq<ObjectType>, n: nat)
    requires
        n <= a.len(),
        a.len() == b.len(),
        !obj_seq_eq(a.subrange(0, n as int), b.subrange(0, n as int)),
    ensures
        !obj_seq_eq(a, b),
    decreases a.len() - n,
{
    if n < a.len() {
        let sa = a.subrange(0, (n + 1) as int);
        let sb = b.subrange(0, (n + 1) as int);
        assert(sa.drop_last() =~= a.subrange(0, n as int));
        assert(sb.drop_last() =~= b.subrange(0, n as int));
        lemma_obj_seq_prefix(a, b, n + 1);
    } else {
        assert(a.subrange(0, n as int) =~= a);
        assert(b.subrange(0, n as int) =~= b);
    }
}

proof fn lemma_obj_fields_prefix(a: Seq<(String, ObjectType)>, b: Seq<(String, ObjectType)>, n: nat)
    requires
        n <= a.len(),
        a.len() == b.len(),
        !obj_fields_eq(a.subrange(0, n as int), b.subrange(0, n as int)),
    ensures
        !obj_fields_eq(a, b),
    decreases a.len() - n,
{
    if n < a.len() {
        let sa = a.subrange(0, (n + 1) as int);
        let sb = b.subrange(0, (n + 1) as int);
        assert(sa.drop_last() =~= a.subrange(0, n as int));
        assert(sb.drop_last() =~= b.subrange(0, n as int));
        lemma_obj_fields_prefix(a, b, n + 1);
    } else {
        assert(a.subrange(0, n as int) =~= a);
        assert(b.subrange(0, n as int) =~= b);
    }
}

impl ObjectType {
    /// Whether two types are the same (see [`obj_eq`]).
    pub fn equals(&self, other: &ObjectType) -> (r: bool)
        ensures
            r == obj_eq(*self, *other),
        decreases self,
    {
        match (self, other) {
            (ObjectType::U8, ObjectType::U8) => true,
            (ObjectType::U16, ObjectType::U16) => true,
            (ObjectType::U32, ObjectType::U32) => true,
            (ObjectType::U64, ObjectType::U64) => true,
            (ObjectType::I8, ObjectType::I8) => true,
            (ObjectType::I16, ObjectType::I16) => true,
            (ObjectType::I32, ObjectType::I32) => true,
            (ObjectType::I64, ObjectType::I64) => true,
            (ObjectType::F32, ObjectType::F32) => true,
            (ObjectType::F64, ObjectType::F64) => true,
            (ObjectType::Bool, ObjectType::Bool) => true,
            (ObjectType::String, ObjectType::String) => true,
            (ObjectType::Empty, ObjectType::Empty) => true,
            (ObjectType::Enum(n, v), ObjectType::Enum(m, w)) => strings_eq(n, m) && variants_equal(v, w),
            (ObjectType::Struct(n, x), ObjectType::Struct(m, y)) => {
                if !strings_eq(n, m) {
                    return false;
                }
                proof {
                    assert(decreases_to!(*self => (*self)->Struct_1));
                }
                fields_equal(x, y)
            },
            (ObjectType::Tuple(x), ObjectType::Tuple(y)) => {
                if x.len() != y.len() {
                    assert(!obj_seq_eq(x@, y@));
                    return false;
                }
                let mut i: usize = 0;
                proof {
                    assert(x@.subrange(0, 0) =~= Seq::<ObjectType>::empty());
                    assert(y@.subrange(0, 0) =~= Seq::<ObjectType>::empty());
                }
                while i < x.len()
                    invariant
                        i <= x@.len(),
                        x@.len() == y@.len(),
                        *self == ObjectType::Tuple(*x),
                        *other == ObjectType::Tuple(*y),
                        obj_seq_eq(x@.subrange(0, i as int), y@.subrange(0, i as int)),
                    decreases x@.len() - i,
                {
                    proof {
                        assert(decreases_to!(*self => (*self)->Tuple_0));
                        assert(decreases_to!(*x => x@));
                        assert(decreases_to!(x@ => x@[i as int]));
                        let sx = x@.subrange(0, i + 1);
                        let sy = y@.subrange(0, i + 1);
                        assert(sx.drop_last() =~= x@.subrange(0, i as int));
                        assert(sy.drop_last() =~= y@.subrange(0, i as int));
                        assert(sx.last() == x@[i as int]);
                        assert(sy.last() == y@[i as int]);
                    }
                    if !x[i].equals(&y[i]) {
                        proof {
                            assert(!obj_seq_eq(x@.subrange(0, i + 1), y@.subrange(0, i + 1)));
                            lemma_obj_seq_prefix(x@, y@, (i + 1) as nat);
                        }
                        return false;
                    }
                    i += 1;
                }
                proof {
                    assert(x@.subrange(0, x@.len() as int) =~= x@);
                    assert(y@.subrange(0, y@.len() as int) =~= y@);
                }
                true
            },
            (ObjectType::List(s, e), ObjectType::List(t, f)) => *s == *t && e.equals(f),
            (ObjectType::Vec(e), ObjectType::Vec(f)) => e.equals(f),
            (ObjectType::Dict(k, v), ObjectType::Dict(l, w)) => k.equals(l) && v.equals(w),
            (ObjectType::Option(e), ObjectType::Option(f)) => e.equals(f),
            _ => false,
        }
    }
}

/// Whether two lists of typed fields are the same (see [`obj_fields_eq`]).
pub fn fields_equal(x: &Vec<(String, ObjectType)>, y: &Vec<(String, ObjectType)>) -> (r: bool)
    ensures
        r == obj_fields_eq(x@, y@),
    decreases x@,
{
    if x.len() != y.len() {
        assert(!obj_fields_eq(x@, y@));
        return false;
    }
    let mut i: usize = 0;
    proof {
        assert(x@.subrange(0, 0) =~= Seq::<(String, ObjectType)>::empty());
        assert(y@.subrange(0, 0) =~= Seq::<(String, ObjectType)>::empty());
    }
    while i < x.len()
        invariant
            i <= x@.len(),
            x@.len() == y@.len(),
            obj_fields_eq(x@.subrange(0, i as int), y@.subrange(0, i as int)),
        decreases x@.len() - i,
    {
        proof {
            assert(decreases_to!(x@ => x@[i as int]));
            assert(decreases_to!(x@[i as int] => x@[i as int].1));
            let sx = x@.subrange(0, i + 1);
            let sy = y@.subrange(0, i + 1);
            assert(sx.drop_last() =~= x@.subrange(0, i as int));
            assert(sy.drop_last() =~= y@.subrange(0, i as int));
            assert(sx.last() == x@[i as int]);
            assert(sy.last() == y@[i as int]);
        }
        if !strings_eq(&x[i].0, &y[i].0) || !x[i].1.equals(&y[i].1) {
            proof {
                assert(!obj_fields_eq(x@.subrange(0, i + 1), y@.subrange(0, i + 1)));
                lemma_obj_fields_prefix(x@, y@, (i + 1) as nat);
            }
            return false;
        }
        i += 1;
    }
    proof {
        assert(x@.subrange(0, x@.len() as int) =~= x@);
        assert(y@.subrange(0, y@.len() as int) =~= y@);
    }
    true
}

/// A state as the bindings generator sees it: its name and what it holds.
#[derive(Debug)]
pub enum StateType {
    /// name, type, initial value, whether changes are queued
    Value(String, ObjectType, InitValue, bool),
    ValueTake(String, ObjectType),
    Static(String, ObjectType, InitValue),
    Image(String),
    /// name, key type, value type
    ValueMap(String, ObjectType, ObjectType),
    ValueVec(String, ObjectType),
    /// name, type, whether signals are queued
    Signal(String, ObjectType, bool),
    Data(String, DataType),
    DataTake(String, DataType),
    DataMulti(String, DataType),
    DataMultiTake(String, DataType),
    /// name, state class, states of the class
    SubState(String, String, Vec<StateType>),
}

/// Whether two states are the same definition.
pub open spec fn state_eq(a: StateType, b: StateType) -> bool
    decreases a, 0nat,
{
    match (a, b) {
        (StateType::Value(n, t, i, q), StateType::Value(m, u, k, r)) => n@ == m@ && obj_eq(t, u) && init_eq(i, k)
            && q == r,
        (StateType::ValueTake(n, t), StateType::ValueTake(m, u)) => n@ == m@ && obj_eq(t, u),
        (StateType::Static(n, t, i), StateType::Static(m, u, k)) => n@ == m@ && obj_eq(t, u) && init_eq(i, k),
        (StateType::Image(n), StateType::Image(m)) => n@ == m@,
        (StateType::ValueMap(n, t, v), StateType::ValueMap(m, u, w)) => n@ == m@ && obj_eq(t, u) && obj_eq(v, w),
        (StateType::ValueVec(n, t), StateType::ValueVec(m, u)) => n@ == m@ && obj_eq(t, u),
        (StateType::Signal(n, t, q), StateType::Signal(m, u, r)) => n@ == m@ && obj_eq(t, u) && q == r,
        (StateType::Data(n, d), StateType::Data(m, e)) => n@ == m@ && d == e,
        (StateType::DataTake(n, d), StateType::DataTake(m, e)) => n@ == m@ && d == e,
        (StateType::DataMulti(n, d), StateType::DataMulti(m, e)) => n@ == m@ && d == e,
        (StateType::DataMultiTake(n, d), StateType::DataMultiTake(m, e)) => n@ == m@ && d == e,
        (StateType::SubState(n, c, x), StateType::SubState(m, d, y)) => n@ == m@ && c@ == d@ && states_eq(x@, y@),
        _ => false,
    }
}

/// Two sequences of states of the same length, equal one by one.
pub open spec fn states_eq(a: Seq<StateType>, b: Seq<StateType>) -> bool
    decreases a, a.len(),
{
    if a.len() == 0 {
        b.len() == 0
    } else {
        b.len() == a.len() && states_eq(a.drop_last(), b.drop_last()) && state_eq(a.last(), b.last())
    }
}

proof fn lemma_states_prefix(a: Seq<StateType>, b: Seq<StateType>, n: nat)
    requires
        n <= a.len(),
        a.len() == b.len(),
        !states_eq(a.subrange(0, n as int), b.subrange(0, n as int)),
    ensures
        !states_eq(a, b),
    decreases a.len() - n,
{
    if n < a.len() {
        let sa = a.subrange(0, (n + 1) as int);
        let sb = b.subrange(0, (n + 1) as int);
        assert(sa.drop_last() =~= a.subrange(0, n as int));
        assert(sb.drop_last() =~= b.subrange(0, n as int));
        lemma_states_prefix(a, b, n + 1);
    } else {
        assert(a.subrange(0, n as int) =~= a);
        assert(b.subrange(0, n as int) =~= b);
    }
}

impl StateType {
    /// The state's name.
    pub fn name(&self) -> (r: &String)
        ensures
            r == match *self {
                StateType::Value(n, ..) => n,
                StateType::ValueTake(n, ..) => n,
                StateType::Static(n, ..) => n,
                StateType::Image(n) => n,
                StateType::ValueMap(n, ..) => n,
                StateType::ValueVec(n, ..) => n,
                StateType::Signal(n, ..) => n,
                StateType::Data(n, ..) => n,
                StateType::DataTake(n, ..) => n,
                StateType::DataMulti(n, ..) => n,
                StateType::DataMultiTake(n, ..) => n,
                StateType::SubState(n, ..) => n,
            },
    {
        match self {
            StateType::Value(n, ..) | StateType::ValueTake(n, ..) | StateType::Static(n, ..) | StateType::Image(n)
            | StateType::ValueMap(n, ..) | StateType::ValueVec(n, ..) | StateType::Signal(n, ..) | StateType::Data(
                n,
                ..,
            ) | StateType::DataTake(n, ..) | StateType::DataMulti(n, ..) | StateType::DataMultiTake(n, ..)
            | StateType::SubState(n, ..) => n,
        }
    }

    /// Whether two states are the same definition (see [`state_eq`]).
    pub fn equals(&self, other: &StateType) -> (r: bool)
        ensures
            r == state_eq(*self, *other),
        decreases self,
    {
        match (self, other) {
            (StateType::Value(n, t, i, q), StateType::Value(m, u, k, r)) => strings_eq(n, m) && t.equals(u) && i.equals(k)
                && *q == *r,
            (StateType::ValueTake(n, t), StateType::ValueTake(m, u)) => strings_eq(n, m) && t.equals(u),
            (StateType::Static(n, t, i), StateType::Static(m, u, k)) => strings_eq(n, m) && t.equals(u) && i.equals(k),
            (StateType::Image(n), StateType::Image(m)) => strings_eq(n, m),
            (StateType::ValueMap(n, t, v), StateType::ValueMap(m, u, w)) => strings_eq(n, m) && t.equals(u) && v.equals(
                w,
            ),
            (StateType::ValueVec(n, t), StateType::ValueVec(m, u)) => strings_eq(n, m) && t.equals(u),
            (StateType::Signal(n, t, q), StateType::Signal(m, u, r)) => strings_eq(n, m) && t.equals(u) && *q == *r,
            (StateType::Data(n, d), StateType::Data(m, e)) => strings_eq(n, m) && *d == *e,
            (StateType::DataTake(n, d), StateType::DataTake(m, e)) => strings_eq(n, m) && *d == *e,
            (StateType::DataMulti(n, d), StateType::DataMulti(m, e)) => strings_eq(n, m) && *d == *e,
            (StateType::DataMultiTake(n, d), StateType::DataMultiTake(m, e)) => strings_eq(n, m) && *d == *e,
            (StateType::SubState(n, c, x), StateType::SubState(m, d, y)) => {
                if !strings_eq(n, m) || !strings_eq(c, d) {
                    return false;
                }
                proof {
                    assert(decreases_to!(*self => (*self)->SubState_2));
                }
                states_equal(x, y)
            },
            _ => false,
        }
    }
}

/// Sequences of states of the same length, equal one by one.
fn states_equal(x: &Vec<StateType>, y: &Vec<StateType>) -> (r: bool)
    ensures
        r == states_eq(x@, y@),
    decreases x@,
{
    if x.len() != y.len() {
        assert(!states_eq(x@, y@));
        return false;
    }
    let mut i: usize = 0;
    proof {
        assert(x@.subrange(0, 0) =~= Seq::<StateType>::empty());
        assert(y@.subrange(0, 0) =~= Seq::<StateType>::empty());
    }
    while i < x.len()
        invariant
            i <= x@.len(),
            x@.len() == y@.len(),
            states_eq(x@.subrange(0, i as int), y@.subrange(0, i as int)),
        decreases x@.len() - i,
    {
        proof {
            assert(decreases_to!(x@ => x@[i as int]));
            let sx = x@.subrange(0, i + 1);
            let sy = y@.subrange(0, i + 1);
            assert(sx.drop_last() =~= x@.subrange(0, i as int));
            assert(sy.drop_last() =~= y@.subrange(0, i as int));
            assert(sx.last() == x@[i as int]);
            assert(sy.last() == y@[i as int]);
        }
        if !x[i].equals(&y[i]) {
            proof {
                assert(!states_eq(x@.subrange(0, i + 1), y@.subrange(0, i + 1)));
                lemma_states_prefix(x@, y@, (i + 1) as nat);
            }
            return false;
        }
        i += 1;
    }
    proof {
        assert(x@.subrange(0, x@.len() as int) =~= x@);
        assert(y@.subrange(0, y@.len() as int) =~= y@);
    }
    true
}

/// A definition of a state class met while walking the states: the class,
/// whether it is the root, and its states.
pub type ClassDef = (Seq<char>, bool, Seq<StateType>);

/// The definitions met walking the class `class` with states `children`:
/// the class itself, then those of its sub-states in order, depth first.
pub open spec fn class_defs(class: Seq<char>, children: Seq<StateType>, root: bool) -> Seq<ClassDef>
    decreases children, 1nat,
{
    seq![(class, root, children)] + children_defs(children)
}

/// The definitions met walking the sub-states among `children`, in order.
pub open spec fn children_defs(children: Seq<StateType>) -> Seq<ClassDef>
    decreases children, 0nat,
{
    if children.len() == 0 {
        Seq::empty()
    } else {
        let last = children[children.len() - 1];
        children_defs(children.drop_last()) + match last {
            StateType::SubState(_, c, sub) => class_defs(c@, sub@, false),
            _ => Seq::empty(),
        }
    }
}

/// Class names that the generated bindings use themselves.
pub open spec fn reserved_class(class: Seq<char>) -> bool {
    class == "StatesServer"@ || class == "enums"@ || class == "structs"@ || class == "s"@
}

/// `i` is where the class `c` is first defined among `defs`.
pub open spec fn first_def(defs: Seq<ClassDef>, c: Seq<char>, i: int) -> bool {
    0 <= i < defs.len() && defs[i].0 == c && forall|k: int| 0 <= k < i ==> defs[k].0 != c
}

/// No class has a reserved name, and every definition of a class is the
/// same as its first one: the same root flag and the same states.
pub open spec fn defs_valid(defs: Seq<ClassDef>) -> bool {
    forall|j: int|
        0 <= j < defs.len() ==> !reserved_class(#[trigger] defs[j].0) && forall|i: int|
            first_def(defs, defs[j].0, i) ==> defs[i].1 == defs[j].1 && states_eq(defs[i].2, defs[j].2)
}

/// Whether the definition at `j` differs from the first definition of its
/// class.
pub open spec fn redefined(defs: Seq<ClassDef>, j: int) -> bool {
    exists|i: int| first_def(defs, defs[j].0, i) && !(defs[i].1 == defs[j].1 && states_eq(defs[i].2, defs[j].2))
}

/// The first problem met checking the definitions in order from `j` on: a
/// class with a name the bindings use themselves, or a class defined
/// otherwise than where it is first defined.
pub open spec fn def_problem(defs: Seq<ClassDef>, j: nat) -> Option<Seq<char>>
    decreases defs.len() - j,
{
    if j >= defs.len() {
        None
    } else if reserved_class(defs[j as int].0) {
        Some("State "@ + defs[j as int].0 + " conflicts with a generated symbol"@)
    } else if redefined(defs, j as int) {
        Some("State "@ + defs[j as int].0 + " defined multiple times with different fields"@)
    } else {
        def_problem(defs, j + 1)
    }
}

/// Why the states under the root `states` are refused: the root is not a
/// class, or the first problem among its definitions (see [`def_problem`]).
pub open spec fn validation_error(states: StateType) -> Seq<char> {
    match states {
        StateType::SubState(_, c, children) => def_problem(class_defs(c@, children@, true), 0)->0,
        _ => "Root state must be a SubState"@,
    }
}

/// The definitions a walk collects, as seen by the specification.
pub open spec fn defs_view(v: Seq<(&String, bool, &Vec<StateType>)>) -> Seq<ClassDef> {
    v.map_values(|d: (&String, bool, &Vec<StateType>)| (d.0@, d.1, d.2@))
}

fn collect_state_definitions<'a>(
    class: &'a String,
    children: &'a Vec<StateType>,
    root: bool,
    defs: &mut Vec<(&'a String, bool, &'a Vec<StateType>)>,
)
    ensures
        defs_view(final(defs)@) == defs_view(old(defs)@) + class_defs(class@, children@, root),
    decreases children@, 1nat,
{
    let ghost before = defs_view(defs@);
    defs.push((class, root, children));
    proof {
        assert(defs_view(defs@) =~= before + seq![(class@, root, children@)]);
        assert(children@.subrange(0, 0) =~= Seq::<StateType>::empty());
    }
    let mut i: usize = 0;
    while i < children.len()
        invariant
            i <= children@.len(),
            defs_view(defs@) == before + seq![(class@, root, children@)] + children_defs(children@.subrange(0, i as int)),
        decreases children@.len() - i,
    {
        let ghost mid = defs_view(defs@);
        proof {
            let sub = children@.subrange(0, i + 1);
            assert(sub.drop_last() =~= children@.subrange(0, i as int));
            assert(sub[sub.len() - 1] == children@[i as int]);
        }
        match &children[i] {
            StateType::SubState(_, c, sub) => {
                proof {
                    assert(decreases_to!(children@ => children@[i as int]));
                    assert(decreases_to!(children@[i as int] => children@[i as int]->SubState_2));
                }
                collect_state_definitions(c, sub, false, defs);
            },
            _ => {},
        }
        proof {
            assert(defs_view(defs@) =~= before + seq![(class@, root, children@)] + children_defs(
                children@.subrange(0, i + 1),
            ));
        }
        i += 1;
    }
    proof {
        assert(children@.subrange(0, children@.len() as int) =~= children@);
    }
}

fn is_reserved(class: &String) -> (r: bool)
    ensures
        r == reserved_class(class@),
{
    strings_eq(class, &String::from_str("StatesServer")) || strings_eq(class, &String::from_str("enums"))
        || strings_eq(class, &String::from_str("structs")) || strings_eq(class, &String::from_str("s"))
}

/// Checks the states of the root class: the root must be a class, no class
/// may have a name the bindings use themselves, and a class used more than
/// once must be defined the same way each time.
pub fn validate_states(states: &StateType) -> (res: Result<(), String>)
    ensures
        res is Ok <==> (states matches StateType::SubState(_, c, children) && defs_valid(
            class_defs(c@, children@, true),
        )),
        res matches Err(e) ==> e@ == validation_error(*states),
{
    let (root_name, children) = match states {
        StateType::SubState(_, c, children) => (c, children),
        _ => {
            return Err(String::from_str("Root state must be a SubState"));
        },
    };
    let mut defs: Vec<(&String, bool, &Vec<StateType>)> = Vec::new();
    proof {
        assert(defs_view(defs@) =~= Seq::<ClassDef>::empty());
    }
    collect_state_definitions(root_name, children, true, &mut defs);
    let ghost all = class_defs(root_name@, children@, true);
    proof {
        assert(defs_view(defs@) =~= all);
    }
    let mut j: usize = 0;
    while j < defs.len()
        invariant
            j <= defs@.len(),
            defs_view(defs@) == all,
            states matches StateType::SubState(_, c, ch) && all == class_defs(c@, ch@, true),
            def_problem(all, 0) == def_problem(all, j as nat),
            forall|jj: int|
                0 <= jj < j ==> !reserved_class(#[trigger] all[jj].0) && forall|i: int|
                    first_def(all, all[jj].0, i) ==> all[i].1 == all[jj].1 && states_eq(all[i].2, all[jj].2),
        decreases defs@.len() - j,
    {
        let (class, root, sts) = defs[j];
        proof {
            assert(all[j as int] == (class@, root, sts@));
        }
        if is_reserved(class) {
            proof {
                assert(reserved_class(all[j as int].0));
                assert(!defs_valid(all));
            }
            let mut e = String::from_str("State ");
            e.append(class.as_str());
            e.append(" conflicts with a generated symbol");
            return Err(e);
        }
        let mut i: usize = 0;
        while i < j
            invariant
                i <= j < defs@.len(),
                defs_view(defs@) == all,
                all[j as int] == (class@, root, sts@),
                forall|k: int| 0 <= k < i ==> all[k].0 != class@,
            ensures
                i <= j,
                all[i as int].0 == class@,
                forall|k: int| 0 <= k < i ==> all[k].0 != class@,
            decreases j - i,
        {
            let (c2, _, _) = defs[i];
            proof {
                assert(all[i as int].0 == c2@);
            }
            if strings_eq(c2, class) {
                break;
            }
            i += 1;
        }
        proof {
            assert(all[i as int].0 == class@);
            assert(first_def(all, class@, i as int));
        }
        let (_, root0, sts0) = defs[i];
        proof {
            assert(all[i as int] == (defs[i as int].0@, root0, sts0@));
        }
        if root0 != root || !states_equal(sts0, sts) {
            proof {
                assert(first_def(all, all[j as int].0, i as int));
                assert(!defs_valid(all));
                assert(redefined(all, j as int));
            }
            let mut e = String::from_str("State ");
            e.append(class.as_str());
            e.append(" defined multiple times with different fields");
            return Err(e);
        }
        proof {
            assert forall|i2: int| first_def(all, all[j as int].0, i2) implies all[i2].1 == all[j as int].1 && states_eq(
                all[i2].2,
                all[j as int].2,
            ) by {
                assert(i2 == i);
            }
            assert(!redefined(all, j as int));
            assert(def_problem(all, j as nat) == def_problem(all, (j + 1) as nat));
        }
        j += 1;
    }
    Ok(())
}

/// The Rust type of the field that holds a state in the generated server
/// bindings.
pub open spec fn field_type(st: StateType) -> Seq<char> {
    let ctx = RustTypeContext::States;
    match st {
        StateType::Value(_, t, _, _) => "s::Value<"@ + rust_type(t, ctx) + ">"@,
        StateType::ValueTake(_, t) => "s::ValueTake<"@ + rust_type(t, ctx) + ">"@,
        StateType::Static(_, t, _) => "s::Static<"@ + rust_type(t, ctx) + ">"@,
        StateType::Signal(_, t, _) => "s::Signal<"@ + rust_type(t, ctx) + ">"@,
        StateType::ValueVec(_, t) => "s::VecState<"@ + rust_type(t, ctx) + ">"@,
        StateType::ValueMap(_, k, v) => "s::MapState<"@ + rust_type(k, ctx) + ", "@ + rust_type(v, ctx) + ">"@,
        StateType::Data(_, d) => "s::Data<"@ + data_rust_type(d) + ">"@,
        StateType::DataTake(_, d) => "s::DataTake<"@ + data_rust_type(d) + ">"@,
        StateType::DataMulti(_, d) => "s::DataMulti<"@ + data_rust_type(d) + ">"@,
        StateType::DataMultiTake(_, d) => "s::DataMultiTake<"@ + data_rust_type(d) + ">"@,
        StateType::Image(_) => "s::Image"@,
        StateType::SubState(_, class, _) => class@,
    }
}

/// The Rust type of the field that holds a state in the generated server
/// bindings.
pub fn state_field_type(st: &StateType) -> (s: String)
    ensures
        s@ == field_type(*st),
{
    let ctx = RustTypeContext::States;
    match st {
        StateType::Value(_, t, _, _) => wrapped("s::Value<", type_to_rust_type(t, ctx), ">"),
        StateType::ValueTake(_, t) => wrapped("s::ValueTake<", type_to_rust_type(t, ctx), ">"),
        StateType::Static(_, t, _) => wrapped("s::Static<", type_to_rust_type(t, ctx), ">"),
        StateType::Signal(_, t, _) => wrapped("s::Signal<", type_to_rust_type(t, ctx), ">"),
        StateType::ValueVec(_, t) => wrapped("s::VecState<", type_to_rust_type(t, ctx), ">"),
        StateType::ValueMap(_, k, v) => {
            let mut s = wrapped("s::MapState<", type_to_rust_type(k, ctx), ", ");
            let value = type_to_rust_type(v, ctx);
            s.append(value.as_str());
            s.append(">");
            s
        },
        StateType::Data(_, d) => wrapped("s::Data<", text(data_type_to_rust_type(d)), ">"),
        StateType::DataTake(_, d) => wrapped("s::DataTake<", text(data_type_to_rust_type(d)), ">"),
        StateType::DataMulti(_, d) => wrapped("s::DataMulti<", text(data_type_to_rust_type(d)), ">"),
        StateType::DataMultiTake(_, d) => wrapped("s::DataMultiTake<", text(data_type_to_rust_type(d)), ">"),
        StateType::Image(_) => text("s::Image"),
        StateType::SubState(_, class, _) => text(class.as_str()),
    }
}

} // verus!
