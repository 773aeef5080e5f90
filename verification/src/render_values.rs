use vstd::prelude::*;

use crate::catalog::name_less;
use crate::codegen::{
    f32_bits_nan, f32_nan, f64_bits_nan, f64_nan, prefixed, rust_type, text, type_to_rust_type, wrapped, InitValue,
    ObjectType, RustTypeContext,
};
use crate::text::{decimal, push_decimal, push_signed_decimal, signed_decimal};
use vstd::string::StrSliceExecFns;

verus! {

/// What `Debug` prints for a string: the string in double quotes, with
/// quotes, backslashes and non-printable characters escaped.
pub uninterp spec fn debug_quoted(s: Seq<char>) -> Seq<char>;

/// `<str as Debug>::fmt`: the string quoted and escaped (see
/// [`debug_quoted`]).
#[verifier::external_body]
pub(crate) fn quoted(s: &str) -> (r: String)
    ensures
        r@ == debug_quoted(s@),
{
    format!("{:?}", s)
}

/// `items` separated by `", "`.
pub open spec fn join(items: Seq<Seq<char>>) -> Seq<char>
    decreases items.len(),
{
    if items.len() == 0 {
        Seq::empty()
    } else if items.len() == 1 {
        items[0]
    } else {
        join(items.drop_last()) + ", "@ + items.last()
    }
}

/// `s` with `x` put before the first item that does not sort before it.
pub open spec fn sorted_insert(s: Seq<Seq<char>>, x: Seq<char>) -> Seq<Seq<char>>
    decreases s.len(),
{
    if s.len() == 0 {
        seq![x]
    } else if name_less(s[0], x) {
        seq![s[0]] + sorted_insert(s.drop_first(), x)
    } else {
        seq![x] + s
    }
}

/// `s` sorted in the order of `String` (see [`name_less`]).
pub open spec fn sort_texts(s: Seq<Seq<char>>) -> Seq<Seq<char>>
    decreases s.len(),
{
    if s.len() == 0 {
        Seq::empty()
    } else {
        sorted_insert(sort_texts(s.drop_last()), s.last())
    }
}

/// Whether `a` sorts before `b` (see [`name_less`]).
fn text_lt(a: &String, b: &String) -> (r: bool)
    ensures
        r == name_less(a@, b@),
{
    let sa = a.as_str();
    let sb = b.as_str();
    let la = sa.unicode_len();
    let lb = sb.unicode_len();
    let mut i: usize = 0;
    proof {
        assert(a@.subrange(0, a@.len() as int) =~= a@);
        assert(b@.subrange(0, b@.len() as int) =~= b@);
    }
    while i < la && i < lb
        invariant
            i <= la == a@.len(),
            i <= lb == b@.len(),
            sa@ == a@,
            sb@ == b@,
            name_less(a@, b@) == name_less(a@.subrange(i as int, a@.len() as int), b@.subrange(i as int, b@.len() as int)),
        decreases la - i,
    {
        let ca = sa.get_char(i);
        let cb = sb.get_char(i);
        let ghost ra = a@.subrange(i as int, a@.len() as int);
        let ghost rb = b@.subrange(i as int, b@.len() as int);
        proof {
            assert(ra[0] == ca);
            assert(rb[0] == cb);
        }
        if ca != cb {
            return ca < cb;
        }
        proof {
            assert(ra.drop_first() =~= a@.subrange(i + 1, a@.len() as int));
            assert(rb.drop_first() =~= b@.subrange(i + 1, b@.len() as int));
        }
        i += 1;
    }
    proof {
        let ra = a@.subrange(i as int, a@.len() as int);
        let rb = b@.subrange(i as int, b@.len() as int);
        assert(ra.len() == la - i && rb.len() == lb - i);
    }
    i < lb
}

/// The texts of a list of strings.
pub open spec fn texts_view(v: Seq<String>) -> Seq<Seq<char>> {
    v.map_values(|s: String| s@)
}

/// Puts `x` into the sorted list `sorted` where it sorts.
fn insert_sorted(sorted: &mut Vec<String>, x: String)
    ensures
        texts_view(final(sorted)@) == sorted_insert(texts_view(old(sorted)@), x@),
{
    let ghost sv = texts_view(sorted@);
    let mut j: usize = 0;
    proof {
        assert(sv.subrange(0, 0) + sv.subrange(0, sv.len() as int) =~= sv);
    }
    while j < sorted.len() && text_lt(&sorted[j], &x)
        invariant
            j <= sorted@.len(),
            sv == texts_view(sorted@),
            sorted_insert(sv, x@) == sv.subrange(0, j as int) + sorted_insert(sv.subrange(j as int, sv.len() as int), x@),
        decreases sorted@.len() - j,
    {
        let ghost rest = sv.subrange(j as int, sv.len() as int);
        proof {
            assert(rest[0] == sv[j as int]);
            assert(rest.drop_first() =~= sv.subrange(j + 1, sv.len() as int));
            assert(sv.subrange(0, j + 1) =~= sv.subrange(0, j as int) + seq![rest[0]]);
        }
        j += 1;
    }
    let ghost rest = sv.subrange(j as int, sv.len() as int);
    proof {
        if j < sv.len() {
            assert(rest[0] == sv[j as int]);
        }
    }
    sorted.insert(j, x);
    proof {
        assert(texts_view(sorted@) =~= sv.subrange(0, j as int) + sorted_insert(rest, x@));
    }
}

/// `items` sorted in the order of `String`.
fn sort_strings(items: &Vec<String>) -> (r: Vec<String>)
    ensures
        texts_view(r@) == sort_texts(texts_view(items@)),
{
    let mut sorted: Vec<String> = Vec::new();
    let mut i: usize = 0;
    proof {
        assert(texts_view(items@).subrange(0, 0) =~= Seq::<Seq<char>>::empty());
        assert(texts_view(sorted@) =~= Seq::<Seq<char>>::empty());
    }
    while i < items.len()
        invariant
            i <= items@.len(),
            texts_view(sorted@) == sort_texts(texts_view(items@).subrange(0, i as int)),
        decreases items@.len() - i,
    {
        let x = items[i].clone();
        proof {
            let sub = texts_view(items@).subrange(0, i + 1);
            assert(sub.drop_last() =~= texts_view(items@).subrange(0, i as int));
            assert(sub.last() == x@);
        }
        insert_sorted(&mut sorted, x);
        i += 1;
    }
    proof {
        assert(texts_view(items@).subrange(0, items@.len() as int) =~= texts_view(items@));
    }
    sorted
}

/// `items` joined with `", "`.
fn join_strings(items: &Vec<String>) -> (r: String)
    ensures
        r@ == join(texts_view(items@)),
{
    let mut r = String::new();
    let mut i: usize = 0;
    proof {
        assert(texts_view(items@).subrange(0, 0) =~= Seq::<Seq<char>>::empty());
    }
    while i < items.len()
        invariant
            i <= items@.len(),
            r@ == join(texts_view(items@).subrange(0, i as int)),
        decreases items@.len() - i,
    {
        proof {
            let sub = texts_view(items@).subrange(0, i + 1);
            assert(sub.drop_last() =~= texts_view(items@).subrange(0, i as int));
            assert(sub.last() == items@[i as int]@);
        }
        if i > 0 {
            r.append(", ");
        } else {
            proof {
                assert(r@ =~= Seq::<char>::empty());
            }
        }
        r.append(items[i].as_str());
        proof {
            let sub = texts_view(items@).subrange(0, i + 1);
            if i == 0 {
                assert(r@ =~= sub[0]);
            }
        }
        i += 1;
    }
    proof {
        assert(texts_view(items@).subrange(0, items@.len() as int) =~= texts_view(items@));
    }
    r
}

/// How a float prints in Rust source: the named constant for NaN and the
/// infinities, otherwise its `Debug` text followed by the type suffix.
pub open spec fn rust_float(nan: bool, inf: bool, neg_inf: bool, debug: Seq<char>, suffix: Seq<char>) -> Seq<char> {
    if nan {
        suffix + "::NAN"@
    } else if inf {
        suffix + "::INFINITY"@
    } else if neg_inf {
        suffix + "::NEG_INFINITY"@
    } else {
        debug + suffix
    }
}

/// The number of pairs that zipping sequences of lengths `a` and `b` gives.
pub open spec fn zip_len(a: nat, b: nat) -> nat {
    if a <= b {
        a
    } else {
        b
    }
}

/// The Rust expression of the initial value `init` of type `t`; `None`
/// where the value does not have the shape of the type.
pub open spec fn rust_value(init: InitValue, t: ObjectType) -> Option<Seq<char>>
    decreases init, 0nat,
{
    match (init, t) {
        (InitValue::U8(v), ObjectType::U8) => Some(decimal(v as nat) + "u8"@),
        (InitValue::U16(v), ObjectType::U16) => Some(decimal(v as nat) + "u16"@),
        (InitValue::U32(v), ObjectType::U32) => Some(decimal(v as nat) + "u32"@),
        (InitValue::U64(v), ObjectType::U64) => Some(decimal(v as nat) + "u64"@),
        (InitValue::I8(v), ObjectType::I8) => Some(signed_decimal(v as int) + "i8"@),
        (InitValue::I16(v), ObjectType::I16) => Some(signed_decimal(v as int) + "i16"@),
        (InitValue::I32(v), ObjectType::I32) => Some(signed_decimal(v as int) + "i32"@),
        (InitValue::I64(v), ObjectType::I64) => Some(signed_decimal(v as int) + "i64"@),
        (InitValue::F32(b, f), ObjectType::F32) => Some(
            rust_float(f32_bits_nan(b), b == 0x7f80_0000u32, b == 0xff80_0000u32, f.debug@, "f32"@),
        ),
        (InitValue::F64(b, f), ObjectType::F64) => Some(
            rust_float(
                f64_bits_nan(b),
                b == 0x7ff0_0000_0000_0000u64,
                b == 0xfff0_0000_0000_0000u64,
                f.debug@,
                "f64"@,
            ),
        ),
        (InitValue::Bool(v), ObjectType::Bool) => Some(
            if v {
                "true"@
            } else {
                "false"@
            },
        ),
        (InitValue::String(v), ObjectType::String) => Some("String::from("@ + debug_quoted(v@) + ")"@),
        (InitValue::Enum(variant), ObjectType::Enum(name, _)) => Some("enums::"@ + name@ + "::"@ + variant@),
        (InitValue::Option(None), ObjectType::Option(e)) => Some(
            "None::<"@ + rust_type(*e, RustTypeContext::States) + ">"@,
        ),
        (InitValue::Option(Some(v)), ObjectType::Option(e)) => match rust_value(*v, *e) {
            Some(x) => Some("Some("@ + x + ")"@),
            None => None,
        },
        (InitValue::Tuple(vs), ObjectType::Tuple(ts)) => if vs@.len() == 0 {
            Some("()"@)
        } else if vs@.len() == 1 {
            if ts@.len() == 0 {
                None
            } else {
                match rust_value(vs@[0], ts@[0]) {
                    Some(x) => Some("("@ + x + ",)"@),
                    None => None,
                }
            }
        } else {
            match rust_zip(vs@, ts@, zip_len(vs@.len(), ts@.len())) {
                Some(x) => Some("("@ + x + ")"@),
                None => None,
            }
        },
        (InitValue::List(vs), ObjectType::List(_, e)) => match rust_all(vs@, *e) {
            Some(x) => Some("["@ + x + "]"@),
            None => None,
        },
        (InitValue::Vec(vs), ObjectType::Vec(e)) => if vs@.len() == 0 {
            Some("Vec::<"@ + rust_type(*e, RustTypeContext::States) + ">::new()"@)
        } else {
            match rust_all(vs@, *e) {
                Some(x) => Some("vec!["@ + x + "]"@),
                None => None,
            }
        },
        (InitValue::Dict(ps), ObjectType::Dict(k, v)) => match rust_entries(ps@, *k, *v) {
            Some(es) => Some(
                "std::collections::HashMap::<"@ + rust_type(*k, RustTypeContext::States) + ", "@ + rust_type(
                    *v,
                    RustTypeContext::States,
                ) + ">::from(["@ + join(sort_texts(es)) + "])"@,
            ),
            None => None,
        },
        (InitValue::Struct(name, fvs), ObjectType::Struct(_, fts)) => match rust_fields(
            fvs@,
            fts@,
            zip_len(fvs@.len(), fts@.len()),
        ) {
            Some(x) => Some("structs::"@ + name@ + " { "@ + x + " }"@),
            None => None,
        },
        _ => None,
    }
}

/// The first `n` values of `vs` with the types of `ts`, separated by
/// `", "`.
pub open spec fn rust_zip(vs: Seq<InitValue>, ts: Seq<ObjectType>, n: nat) -> Option<Seq<char>>
    decreases vs, n,
{
    if n == 0 || n > vs.len() || n > ts.len() {
        Some(Seq::empty())
    } else {
        match rust_zip(vs, ts, (n - 1) as nat) {
            Some(x) => match rust_value(vs[n - 1], ts[n - 1]) {
                Some(y) => Some(
                    if n == 1 {
                        y
                    } else {
                        x + ", "@ + y
                    },
                ),
                None => None,
            },
            None => None,
        }
    }
}

/// The values `vs`, all of type `e`, separated by `", "`.
pub open spec fn rust_all(vs: Seq<InitValue>, e: ObjectType) -> Option<Seq<char>>
    decreases vs, vs.len(),
{
    if vs.len() == 0 {
        Some(Seq::empty())
    } else {
        match rust_all(vs.drop_last(), e) {
            Some(x) => match rust_value(vs.last(), e) {
                Some(y) => Some(
                    if vs.len() == 1 {
                        y
                    } else {
                        x + ", "@ + y
                    },
                ),
                None => None,
            },
            None => None,
        }
    }
}

/// The entries `ps` of a map with keys of type `k` and values of type `v`,
/// each as `(key, value)`, in order.
pub open spec fn rust_entries(ps: Seq<(InitValue, InitValue)>, k: ObjectType, v: ObjectType) -> Option<Seq<Seq<char>>>
    decreases ps, ps.len(),
{
    if ps.len() == 0 {
        Some(Seq::empty())
    } else {
        match rust_entries(ps.drop_last(), k, v) {
            Some(es) => match rust_value(ps.last().0, k) {
                Some(a) => match rust_value(ps.last().1, v) {
                    Some(b) => Some(es.push("("@ + a + ", "@ + b + ")"@)),
                    None => None,
                },
                None => None,
            },
            None => None,
        }
    }
}

/// The first `n` fields of a struct value, each as `field: value` with the
/// value of the type of the field in the same position, separated by
/// `", "`.
pub open spec fn rust_fields(fvs: Seq<(String, InitValue)>, fts: Seq<(String, ObjectType)>, n: nat) -> Option<Seq<char>>
    decreases fvs, n,
{
    if n == 0 || n > fvs.len() || n > fts.len() {
        Some(Seq::empty())
    } else {
        match rust_fields(fvs, fts, (n - 1) as nat) {
            Some(x) => match rust_value(fvs[n - 1].1, fts[n - 1].1) {
                Some(y) => {
                    let item = fvs[n - 1].0@ + ": "@ + y;
                    Some(
                        if n == 1 {
                            item
                        } else {
                            x + ", "@ + item
                        },
                    )
                },
                None => None,
            },
            None => None,
        }
    }
}

proof fn lemma_rust_zip_prefix(vs: Seq<InitValue>, ts: Seq<ObjectType>, n: nat, i: nat)
    requires
        i <= n <= vs.len(),
        n <= ts.len(),
        rust_zip(vs, ts, n) is Some,
    ensures
        rust_zip(vs, ts, i) is Some,
    decreases n - i,
{
    if i < n {
        lemma_rust_zip_prefix(vs, ts, (n - 1) as nat, i);
    }
}

proof fn lemma_rust_all_prefix(vs: Seq<InitValue>, e: ObjectType, i: nat)
    requires
        i <= vs.len(),
        rust_all(vs, e) is Some,
    ensures
        rust_all(vs.subrange(0, i as int), e) is Some,
    decreases vs.len() - i,
{
    if i < vs.len() {
        lemma_rust_all_prefix(vs.drop_last(), e, i);
        assert(vs.drop_last().subrange(0, i as int) =~= vs.subrange(0, i as int));
    } else {
        assert(vs.subrange(0, i as int) =~= vs);
    }
}

proof fn lemma_rust_entries_prefix(ps: Seq<(InitValue, InitValue)>, k: ObjectType, v: ObjectType, i: nat)
    requires
        i <= ps.len(),
        rust_entries(ps, k, v) is Some,
    ensures
        rust_entries(ps.subrange(0, i as int), k, v) is Some,
    decreases ps.len() - i,
{
    if i < ps.len() {
        lemma_rust_entries_prefix(ps.drop_last(), k, v, i);
        assert(ps.drop_last().subrange(0, i as int) =~= ps.subrange(0, i as int));
    } else {
        assert(ps.subrange(0, i as int) =~= ps);
    }
}

proof fn lemma_rust_fields_prefix(fvs: Seq<(String, InitValue)>, fts: Seq<(String, ObjectType)>, n: nat, i: nat)
    requires
        i <= n <= fvs.len(),
        n <= fts.len(),
        rust_fields(fvs, fts, n) is Some,
    ensures
        rust_fields(fvs, fts, i) is Some,
    decreases n - i,
{
    if i < n {
        lemma_rust_fields_prefix(fvs, fts, (n - 1) as nat, i);
    }
}

fn rust_float_text(nan: bool, inf: bool, neg_inf: bool, debug: &String, suffix: &str) -> (r: String)
    ensures
        r@ == rust_float(nan, inf, neg_inf, debug@, suffix@),
{
    if nan {
        prefixed(suffix, "::NAN")
    } else if inf {
        prefixed(suffix, "::INFINITY")
    } else if neg_inf {
        prefixed(suffix, "::NEG_INFINITY")
    } else {
        prefixed(debug.as_str(), suffix)
    }
}

fn unsigned_text(v: u64, suffix: &str) -> (r: String)
    ensures
        r@ == decimal(v as nat) + suffix@,
{
    let mut r = String::new();
    push_decimal(&mut r, v);
    r.append(suffix);
    proof {
        assert(r@ =~= decimal(v as nat) + suffix@);
    }
    r
}

fn signed_text(v: i64, suffix: &str) -> (r: String)
    ensures
        r@ == signed_decimal(v as int) + suffix@,
{
    let mut r = String::new();
    push_signed_decimal(&mut r, v);
    r.append(suffix);
    proof {
        assert(r@ =~= signed_decimal(v as int) + suffix@);
    }
    r
}

/// The Rust expression of the initial value `init` of type `t` (see
/// [`rust_value`]).
pub fn init_to_rust_value(init: &InitValue, t: &ObjectType) -> (s: String)
    requires
        rust_value(*init, *t) is Some,
    ensures
        s@ == rust_value(*init, *t)->0,
    decreases init,
{
    match (init, t) {
        (InitValue::U8(v), ObjectType::U8) => unsigned_text(*v as u64, "u8"),
        (InitValue::U16(v), ObjectType::U16) => unsigned_text(*v as u64, "u16"),
        (InitValue::U32(v), ObjectType::U32) => unsigned_text(*v as u64, "u32"),
        (InitValue::U64(v), ObjectType::U64) => unsigned_text(*v, "u64"),
        (InitValue::I8(v), ObjectType::I8) => signed_text(*v as i64, "i8"),
        (InitValue::I16(v), ObjectType::I16) => signed_text(*v as i64, "i16"),
        (InitValue::I32(v), ObjectType::I32) => signed_text(*v as i64, "i32"),
        (InitValue::I64(v), ObjectType::I64) => signed_text(*v, "i64"),
        (InitValue::F32(b, f), ObjectType::F32) => rust_float_text(
            f32_nan(*b),
            *b == 0x7f80_0000u32,
            *b == 0xff80_0000u32,
            &f.debug,
            "f32",
        ),
        (InitValue::F64(b, f), ObjectType::F64) => rust_float_text(
            f64_nan(*b),
            *b == 0x7ff0_0000_0000_0000u64,
            *b == 0xfff0_0000_0000_0000u64,
            &f.debug,
            "f64",
        ),
        (InitValue::Bool(v), ObjectType::Bool) => if *v {
            text("true")
        } else {
            text("false")
        },
        (InitValue::String(v), ObjectType::String) => wrapped("String::from(", quoted(v.as_str()), ")"),
        (InitValue::Enum(variant), ObjectType::Enum(name, _)) => {
            let mut r = prefixed("enums::", name.as_str());
            r.append("::");
            r.append(variant.as_str());
            r
        },
        (InitValue::Option(None), ObjectType::Option(e)) => wrapped(
            "None::<",
            type_to_rust_type(e, RustTypeContext::States),
            ">",
        ),
        (InitValue::Option(Some(v)), ObjectType::Option(e)) => {
            proof {
                assert(decreases_to!(*init => (*init)->Option_0));
            }
            wrapped("Some(", init_to_rust_value(v, e), ")")
        },
        (InitValue::Tuple(vs), ObjectType::Tuple(ts)) => {
            if vs.len() == 0 {
                text("()")
            } else if vs.len() == 1 {
                proof {
                    assert(decreases_to!(*init => (*init)->Tuple_0));
                    assert(decreases_to!(*vs => vs@));
                    assert(decreases_to!(vs@ => vs@[0]));
                }
                wrapped("(", init_to_rust_value(&vs[0], &ts[0]), ",)")
            } else {
                let n = if vs.len() <= ts.len() {
                    vs.len()
                } else {
                    ts.len()
                };
                let mut acc = String::new();
                let mut i: usize = 0;
                proof {
                    assert(acc@ =~= Seq::<char>::empty());
                }
                while i < n
                    invariant
                        i <= n == zip_len(vs@.len(), ts@.len()),
                        *init == InitValue::Tuple(*vs),
                        rust_zip(vs@, ts@, n as nat) is Some,
                        rust_zip(vs@, ts@, i as nat) == Some(acc@),
                    decreases n - i,
                {
                    proof {
                        if rust_zip(vs@, ts@, n as nat) is Some {
                            lemma_rust_zip_prefix(vs@, ts@, n as nat, (i + 1) as nat);
                        }
                        assert(decreases_to!(*init => (*init)->Tuple_0));
                        assert(decreases_to!(*vs => vs@));
                        assert(decreases_to!(vs@ => vs@[i as int]));
                    }
                    let y = init_to_rust_value(&vs[i], &ts[i]);
                    if i > 0 {
                        acc.append(", ");
                    }
                    acc.append(y.as_str());
                    proof {
                        if i == 0 {
                            assert(acc@ =~= y@);
                        }
                    }
                    i += 1;
                }
                wrapped("(", acc, ")")
            }
        },
        (InitValue::List(vs), ObjectType::List(_, e)) => {
            proof {
                assert(decreases_to!(*init => (*init)->List_0));
            }
            wrapped("[", all_rust_values(vs, e), "]")
        },
        (InitValue::Vec(vs), ObjectType::Vec(e)) => {
            if vs.len() == 0 {
                wrapped("Vec::<", type_to_rust_type(e, RustTypeContext::States), ">::new()")
            } else {
                proof {
                    assert(decreases_to!(*init => (*init)->Vec_0));
                }
                wrapped("vec![", all_rust_values(vs, e), "]")
            }
        },
        (InitValue::Dict(ps), ObjectType::Dict(k, v)) => {
            proof {
                assert(decreases_to!(*init => (*init)->Dict_0));
            }
            let entries = rust_entry_texts(ps, k, v);
            let sorted = sort_strings(&entries);
            let mut r = wrapped(
                "std::collections::HashMap::<",
                type_to_rust_type(k, RustTypeContext::States),
                ", ",
            );
            let vt = type_to_rust_type(v, RustTypeContext::States);
            r.append(vt.as_str());
            r.append(">::from([");
            let joined = join_strings(&sorted);
            r.append(joined.as_str());
            r.append("])");
            r
        },
        (InitValue::Struct(name, fvs), ObjectType::Struct(_, fts)) => {
            let n = if fvs.len() <= fts.len() {
                fvs.len()
            } else {
                fts.len()
            };
            let mut acc = String::new();
            let mut i: usize = 0;
            proof {
                assert(acc@ =~= Seq::<char>::empty());
            }
            while i < n
                invariant
                    i <= n == zip_len(fvs@.len(), fts@.len()),
                    *init == InitValue::Struct(*name, *fvs),
                    rust_fields(fvs@, fts@, n as nat) is Some,
                    rust_fields(fvs@, fts@, i as nat) == Some(acc@),
                decreases n - i,
            {
                proof {
                    lemma_rust_fields_prefix(fvs@, fts@, n as nat, (i + 1) as nat);
                    assert(decreases_to!(*init => (*init)->Struct_1));
                    assert(decreases_to!(*fvs => fvs@));
                    assert(decreases_to!(fvs@ => fvs@[i as int]));
                    assert(decreases_to!(fvs@[i as int] => fvs@[i as int].1));
                }
                let y = init_to_rust_value(&fvs[i].1, &fts[i].1);
                if i > 0 {
                    acc.append(", ");
                }
                let ghost before = acc@;
                acc.append(fvs[i].0.as_str());
                acc.append(": ");
                acc.append(y.as_str());
                proof {
                    if i == 0 {
                        assert(acc@ =~= fvs@[0].0@ + ": "@ + y@);
                    } else {
                        assert(acc@ =~= before + (fvs@[i as int].0@ + ": "@ + y@));
                    }
                }
                i += 1;
            }
            let mut r = prefixed("structs::", name.as_str());
            r.append(" { ");
            r.append(acc.as_str());
            r.append(" }");
            r
        },
        _ => {
            proof {
                assert(false);
            }
            String::new()
        },
    }
}

/// The values `vs`, all of type `e`, separated by `", "`.
fn all_rust_values(vs: &Vec<InitValue>, e: &ObjectType) -> (s: String)
    requires
        rust_all(vs@, *e) is Some,
    ensures
        s@ == rust_all(vs@, *e)->0,
    decreases vs@,
{
    let mut acc = String::new();
    let mut i: usize = 0;
    proof {
        assert(vs@.subrange(0, 0) =~= Seq::<InitValue>::empty());
        assert(acc@ =~= Seq::<char>::empty());
    }
    while i < vs.len()
        invariant
            i <= vs@.len(),
            rust_all(vs@, *e) is Some,
            rust_all(vs@.subrange(0, i as int), *e) == Some(acc@),
        decreases vs@.len() - i,
    {
        proof {
            lemma_rust_all_prefix(vs@, *e, (i + 1) as nat);
            let sub = vs@.subrange(0, i + 1);
            assert(sub.drop_last() =~= vs@.subrange(0, i as int));
            assert(sub.last() == vs@[i as int]);
            assert(decreases_to!(vs@ => vs@[i as int]));
        }
        let y = init_to_rust_value(&vs[i], e);
        if i > 0 {
            acc.append(", ");
        }
        acc.append(y.as_str());
        proof {
            if i == 0 {
                assert(acc@ =~= y@);
            }
        }
        i += 1;
    }
    proof {
        assert(vs@.subrange(0, vs@.len() as int) =~= vs@);
    }
    acc
}

/// The entries of a map value, each as `(key, value)`, in order.
fn rust_entry_texts(ps: &Vec<(InitValue, InitValue)>, k: &ObjectType, v: &ObjectType) -> (r: Vec<String>)
    requires
        rust_entries(ps@, *k, *v) is Some,
    ensures
        texts_view(r@) == rust_entries(ps@, *k, *v)->0,
    decreases ps@,
{
    let mut r: Vec<String> = Vec::new();
    let mut i: usize = 0;
    proof {
        assert(ps@.subrange(0, 0) =~= Seq::<(InitValue, InitValue)>::empty());
        assert(texts_view(r@) =~= Seq::<Seq<char>>::empty());
    }
    while i < ps.len()
        invariant
            i <= ps@.len(),
            rust_entries(ps@, *k, *v) is Some,
            rust_entries(ps@.subrange(0, i as int), *k, *v) == Some(texts_view(r@)),
        decreases ps@.len() - i,
    {
        proof {
            lemma_rust_entries_prefix(ps@, *k, *v, (i + 1) as nat);
            let sub = ps@.subrange(0, i + 1);
            assert(sub.drop_last() =~= ps@.subrange(0, i as int));
            assert(sub.last() == ps@[i as int]);
            assert(decreases_to!(ps@ => ps@[i as int]));
            assert(decreases_to!(ps@[i as int] => ps@[i as int].0));
            assert(decreases_to!(ps@[i as int] => ps@[i as int].1));
        }
        let a = init_to_rust_value(&ps[i].0, k);
        let b = init_to_rust_value(&ps[i].1, v);
        let mut entry = wrapped("(", a, ", ");
        entry.append(b.as_str());
        entry.append(")");
        let ghost before = texts_view(r@);
        r.push(entry);
        proof {
            assert(texts_view(r@) =~= before.push(entry@));
        }
        i += 1;
    }
    proof {
        assert(ps@.subrange(0, ps@.len() as int) =~= ps@);
    }
    r
}

/// The Python expression of the initial value `init` of type `t`; `None`
/// where the value does not have the shape of the type.
pub open spec fn py_value(init: InitValue, t: ObjectType) -> Option<Seq<char>>
    decreases init, 0nat,
{
    match (init, t) {
        (InitValue::U8(v), ObjectType::U8) => Some(decimal(v as nat)),
        (InitValue::U16(v), ObjectType::U16) => Some(decimal(v as nat)),
        (InitValue::U32(v), ObjectType::U32) => Some(decimal(v as nat)),
        (InitValue::U64(v), ObjectType::U64) => Some(decimal(v as nat)),
        (InitValue::I8(v), ObjectType::I8) => Some(signed_decimal(v as int)),
        (InitValue::I16(v), ObjectType::I16) => Some(signed_decimal(v as int)),
        (InitValue::I32(v), ObjectType::I32) => Some(signed_decimal(v as int)),
        (InitValue::I64(v), ObjectType::I64) => Some(signed_decimal(v as int)),
        (InitValue::F64(_, f), ObjectType::F64) => Some(f.display@),
        (InitValue::F32(_, f), ObjectType::F32) => Some(f.display@),
        (InitValue::String(v), ObjectType::String) => Some(debug_quoted(v@)),
        (InitValue::Bool(v), ObjectType::Bool) => Some(
            if v {
                "True"@
            } else {
                "False"@
            },
        ),
        (InitValue::Enum(variant), ObjectType::Enum(name, _)) => Some("enums."@ + name@ + "."@ + variant@),
        (InitValue::Option(o), ObjectType::Option(e)) => match o {
            Some(v) => py_value(*v, *e),
            None => Some("None"@),
        },
        (InitValue::Tuple(vs), ObjectType::Tuple(ts)) => match py_zip(vs@, ts@, zip_len(vs@.len(), ts@.len())) {
            Some(x) => Some(
                if x.len() == 0 {
                    "()"@
                } else if ts@.len() == 1 {
                    "("@ + x + ",)"@
                } else {
                    "("@ + x + ")"@
                },
            ),
            None => None,
        },
        (InitValue::List(vs), ObjectType::List(_, e)) => match py_all(vs@, *e) {
            Some(x) => Some("["@ + x + "]"@),
            None => None,
        },
        (InitValue::Vec(vs), ObjectType::Vec(e)) => match py_all(vs@, *e) {
            Some(x) => Some("["@ + x + "]"@),
            None => None,
        },
        (InitValue::Dict(ps), ObjectType::Dict(k, v)) => match py_pairs(ps@, *k, *v) {
            Some(x) => Some("{"@ + x + "}"@),
            None => None,
        },
        (InitValue::Struct(name, fvs), ObjectType::Struct(_, fts)) => match py_fields(
            fvs@,
            fts@,
            zip_len(fvs@.len(), fts@.len()),
        ) {
            Some(x) => Some("structs."@ + name@ + "("@ + x + ")"@),
            None => None,
        },
        _ => None,
    }
}

/// The first `n` values of `vs` with the types of `ts`, separated by
/// `", "`.
pub open spec fn py_zip(vs: Seq<InitValue>, ts: Seq<ObjectType>, n: nat) -> Option<Seq<char>>
    decreases vs, n,
{
    if n == 0 || n > vs.len() || n > ts.len() {
        Some(Seq::empty())
    } else {
        match py_zip(vs, ts, (n - 1) as nat) {
            Some(x) => match py_value(vs[n - 1], ts[n - 1]) {
                Some(y) => Some(
                    if n == 1 {
                        y
                    } else {
                        x + ", "@ + y
                    },
                ),
                None => None,
            },
            None => None,
        }
    }
}

/// The values `vs`, all of type `e`, separated by `", "`.
pub open spec fn py_all(vs: Seq<InitValue>, e: ObjectType) -> Option<Seq<char>>
    decreases vs, vs.len(),
{
    if vs.len() == 0 {
        Some(Seq::empty())
    } else {
        match py_all(vs.drop_last(), e) {
            Some(x) => match py_value(vs.last(), e) {
                Some(y) => Some(
                    if vs.len() == 1 {
                        y
                    } else {
                        x + ", "@ + y
                    },
                ),
                None => None,
            },
            None => None,
        }
    }
}

/// The entries `ps` of a map, each as `key: value`, separated by `", "`.
pub open spec fn py_pairs(ps: Seq<(InitValue, InitValue)>, k: ObjectType, v: ObjectType) -> Option<Seq<char>>
    decreases ps, ps.len(),
{
    if ps.len() == 0 {
        Some(Seq::empty())
    } else {
        match py_pairs(ps.drop_last(), k, v) {
            Some(x) => match py_value(ps.last().0, k) {
                Some(a) => match py_value(ps.last().1, v) {
                    Some(b) => {
                        let item = a + ": "@ + b;
                        Some(
                            if ps.len() == 1 {
                                item
                            } else {
                                x + ", "@ + item
                            },
                        )
                    },
                    None => None,
                },
                None => None,
            },
            None => None,
        }
    }
}

/// The values of the first `n` fields of a struct value, each with the type
/// of the field in the same position, separated by `", "`.
pub open spec fn py_fields(fvs: Seq<(String, InitValue)>, fts: Seq<(String, ObjectType)>, n: nat) -> Option<Seq<char>>
    decreases fvs, n,
{
    if n == 0 || n > fvs.len() || n > fts.len() {
        Some(Seq::empty())
    } else {
        match py_fields(fvs, fts, (n - 1) as nat) {
            Some(x) => match py_value(fvs[n - 1].1, fts[n - 1].1) {
                Some(y) => Some(
                    if n == 1 {
                        y
                    } else {
                        x + ", "@ + y
                    },
                ),
                None => None,
            },
            None => None,
        }
    }
}

proof fn lemma_py_zip_prefix(vs: Seq<InitValue>, ts: Seq<ObjectType>, n: nat, i: nat)
    requires
        i <= n <= vs.len(),
        n <= ts.len(),
        py_zip(vs, ts, n) is Some,
    ensures
        py_zip(vs, ts, i) is Some,
    decreases n - i,
{
    if i < n {
        lemma_py_zip_prefix(vs, ts, (n - 1) as nat, i);
    }
}

proof fn lemma_py_all_prefix(vs: Seq<InitValue>, e: ObjectType, i: nat)
    requires
        i <= vs.len(),
        py_all(vs, e) is Some,
    ensures
        py_all(vs.subrange(0, i as int), e) is Some,
    decreases vs.len() - i,
{
    if i < vs.len() {
        lemma_py_all_prefix(vs.drop_last(), e, i);
        assert(vs.drop_last().subrange(0, i as int) =~= vs.subrange(0, i as int));
    } else {
        assert(vs.subrange(0, i as int) =~= vs);
    }
}

proof fn lemma_py_pairs_prefix(ps: Seq<(InitValue, InitValue)>, k: ObjectType, v: ObjectType, i: nat)
    requires
        i <= ps.len(),
        py_pairs(ps, k, v) is Some,
    ensures
        py_pairs(ps.subrange(0, i as int), k, v) is Some,
    decreases ps.len() - i,
{
    if i < ps.len() {
        lemma_py_pairs_prefix(ps.drop_last(), k, v, i);
        assert(ps.drop_last().subrange(0, i as int) =~= ps.subrange(0, i as int));
    } else {
        assert(ps.subrange(0, i as int) =~= ps);
    }
}

proof fn lemma_py_fields_prefix(fvs: Seq<(String, InitValue)>, fts: Seq<(String, ObjectType)>, n: nat, i: nat)
    requires
        i <= n <= fvs.len(),
        n <= fts.len(),
        py_fields(fvs, fts, n) is Some,
    ensures
        py_fields(fvs, fts, i) is Some,
    decreases n - i,
{
    if i < n {
        lemma_py_fields_prefix(fvs, fts, (n - 1) as nat, i);
    }
}

fn decimal_text(v: u64) -> (r: String)
    ensures
        r@ == decimal(v as nat),
{
    let mut r = String::new();
    push_decimal(&mut r, v);
    proof {
        assert(r@ =~= decimal(v as nat));
    }
    r
}

fn signed_decimal_text(v: i64) -> (r: String)
    ensures
        r@ == signed_decimal(v as int),
{
    let mut r = String::new();
    push_signed_decimal(&mut r, v);
    proof {
        assert(r@ =~= signed_decimal(v as int));
    }
    r
}

/// The Python expression of the initial value `init` of type `t` (see
/// [`py_value`]).
pub fn init_to_python_value(init: &InitValue, t: &ObjectType) -> (s: String)
    requires
        py_value(*init, *t) is Some,
    ensures
        s@ == py_value(*init, *t)->0,
    decreases init,
{
    match (init, t) {
        (InitValue::U8(v), ObjectType::U8) => decimal_text(*v as u64),
        (InitValue::U16(v), ObjectType::U16) => decimal_text(*v as u64),
        (InitValue::U32(v), ObjectType::U32) => decimal_text(*v as u64),
        (InitValue::U64(v), ObjectType::U64) => decimal_text(*v),
        (InitValue::I8(v), ObjectType::I8) => signed_decimal_text(*v as i64),
        (InitValue::I16(v), ObjectType::I16) => signed_decimal_text(*v as i64),
        (InitValue::I32(v), ObjectType::I32) => signed_decimal_text(*v as i64),
        (InitValue::I64(v), ObjectType::I64) => signed_decimal_text(*v),
        (InitValue::F64(_, f), ObjectType::F64) => text(f.display.as_str()),
        (InitValue::F32(_, f), ObjectType::F32) => text(f.display.as_str()),
        (InitValue::String(v), ObjectType::String) => quoted(v.as_str()),
        (InitValue::Bool(v), ObjectType::Bool) => if *v {
            text("True")
        } else {
            text("False")
        },
        (InitValue::Enum(variant), ObjectType::Enum(name, _)) => {
            let mut r = prefixed("enums.", name.as_str());
            r.append(".");
            r.append(variant.as_str());
            r
        },
        (InitValue::Option(o), ObjectType::Option(e)) => match o {
            Some(v) => {
                proof {
                    assert(decreases_to!(*init => (*init)->Option_0));
                }
                init_to_python_value(v, e)
            },
            None => text("None"),
        },
        (InitValue::Tuple(vs), ObjectType::Tuple(ts)) => {
            let n = if vs.len() <= ts.len() {
                vs.len()
            } else {
                ts.len()
            };
            let mut acc = String::new();
            let mut i: usize = 0;
            proof {
                assert(acc@ =~= Seq::<char>::empty());
            }
            while i < n
                invariant
                    i <= n == zip_len(vs@.len(), ts@.len()),
                    *init == InitValue::Tuple(*vs),
                    py_zip(vs@, ts@, n as nat) is Some,
                    py_zip(vs@, ts@, i as nat) == Some(acc@),
                decreases n - i,
            {
                proof {
                    lemma_py_zip_prefix(vs@, ts@, n as nat, (i + 1) as nat);
                    assert(decreases_to!(*init => (*init)->Tuple_0));
                    assert(decreases_to!(*vs => vs@));
                    assert(decreases_to!(vs@ => vs@[i as int]));
                }
                let y = init_to_python_value(&vs[i], &ts[i]);
                if i > 0 {
                    acc.append(", ");
                }
                acc.append(y.as_str());
                proof {
                    if i == 0 {
                        assert(acc@ =~= y@);
                    }
                }
                i += 1;
            }
            if acc.as_str().is_empty() {
                text("()")
            } else if ts.len() == 1 {
                wrapped("(", acc, ",)")
            } else {
                wrapped("(", acc, ")")
            }
        },
        (InitValue::List(vs), ObjectType::List(_, e)) => {
            proof {
                assert(decreases_to!(*init => (*init)->List_0));
            }
            wrapped("[", all_python_values(vs, e), "]")
        },
        (InitValue::Vec(vs), ObjectType::Vec(e)) => {
            proof {
                assert(decreases_to!(*init => (*init)->Vec_0));
            }
            wrapped("[", all_python_values(vs, e), "]")
        },
        (InitValue::Dict(ps), ObjectType::Dict(k, v)) => {
            proof {
                assert(decreases_to!(*init => (*init)->Dict_0));
            }
            wrapped("{", python_pairs(ps, k, v), "}")
        },
        (InitValue::Struct(name, fvs), ObjectType::Struct(_, fts)) => {
            let n = if fvs.len() <= fts.len() {
                fvs.len()
            } else {
                fts.len()
            };
            let mut acc = String::new();
            let mut i: usize = 0;
            proof {
                assert(acc@ =~= Seq::<char>::empty());
            }
            while i < n
                invariant
                    i <= n == zip_len(fvs@.len(), fts@.len()),
                    *init == InitValue::Struct(*name, *fvs),
                    py_fields(fvs@, fts@, n as nat) is Some,
                    py_fields(fvs@, fts@, i as nat) == Some(acc@),
                decreases n - i,
            {
                proof {
                    lemma_py_fields_prefix(fvs@, fts@, n as nat, (i + 1) as nat);
                    assert(decreases_to!(*init => (*init)->Struct_1));
                    assert(decreases_to!(*fvs => fvs@));
                    assert(decreases_to!(fvs@ => fvs@[i as int]));
                    assert(decreases_to!(fvs@[i as int] => fvs@[i as int].1));
                }
                let y = init_to_python_value(&fvs[i].1, &fts[i].1);
                if i > 0 {
                    acc.append(", ");
                }
                acc.append(y.as_str());
                proof {
                    if i == 0 {
                        assert(acc@ =~= y@);
                    }
                }
                i += 1;
            }
            let mut r = prefixed("structs.", name.as_str());
            r.append("(");
            r.append(acc.as_str());
            r.append(")");
            r
        },
        _ => {
            proof {
                assert(false);
            }
            String::new()
        },
    }
}

/// The values `vs`, all of type `e`, separated by `", "`.
fn all_python_values(vs: &Vec<InitValue>, e: &ObjectType) -> (s: String)
    requires
        py_all(vs@, *e) is Some,
    ensures
        s@ == py_all(vs@, *e)->0,
    decreases vs@,
{
    let mut acc = String::new();
    let mut i: usize = 0;
    proof {
        assert(vs@.subrange(0, 0) =~= Seq::<InitValue>::empty());
        assert(acc@ =~= Seq::<char>::empty());
    }
    while i < vs.len()
        invariant
            i <= vs@.len(),
            py_all(vs@, *e) is Some,
            py_all(vs@.subrange(0, i as int), *e) == Some(acc@),
        decreases vs@.len() - i,
    {
        proof {
            lemma_py_all_prefix(vs@, *e, (i + 1) as nat);
            let sub = vs@.subrange(0, i + 1);
            assert(sub.drop_last() =~= vs@.subrange(0, i as int));
            assert(sub.last() == vs@[i as int]);
            assert(decreases_to!(vs@ => vs@[i as int]));
        }
        let y = init_to_python_value(&vs[i], e);
        if i > 0 {
            acc.append(", ");
        }
        acc.append(y.as_str());
        proof {
            if i == 0 {
                assert(acc@ =~= y@);
            }
        }
        i += 1;
    }
    proof {
        assert(vs@.subrange(0, vs@.len() as int) =~= vs@);
    }
    acc
}

/// The entries of a map value, each as `key: value`, separated by `", "`.
fn python_pairs(ps: &Vec<(InitValue, InitValue)>, k: &ObjectType, v: &ObjectType) -> (s: String)
    requires
        py_pairs(ps@, *k, *v) is Some,
    ensures
        s@ == py_pairs(ps@, *k, *v)->0,
    decreases ps@,
{
    let mut acc = String::new();
    let mut i: usize = 0;
    proof {
        assert(ps@.subrange(0, 0) =~= Seq::<(InitValue, InitValue)>::empty());
        assert(acc@ =~= Seq::<char>::empty());
    }
    while i < ps.len()
        invariant
            i <= ps@.len(),
            py_pairs(ps@, *k, *v) is Some,
            py_pairs(ps@.subrange(0, i as int), *k, *v) == Some(acc@),
        decreases ps@.len() - i,
    {
        proof {
            lemma_py_pairs_prefix(ps@, *k, *v, (i + 1) as nat);
            let sub = ps@.subrange(0, i + 1);
            assert(sub.drop_last() =~= ps@.subrange(0, i as int));
            assert(sub.last() == ps@[i as int]);
            assert(decreases_to!(ps@ => ps@[i as int]));
            assert(decreases_to!(ps@[i as int] => ps@[i as int].0));
            assert(decreases_to!(ps@[i as int] => ps@[i as int].1));
        }
        let a = init_to_python_value(&ps[i].0, k);
        let b = init_to_python_value(&ps[i].1, v);
        if i > 0 {
            acc.append(", ");
        }
        let ghost before = acc@;
        acc.append(a.as_str());
        acc.append(": ");
        acc.append(b.as_str());
        proof {
            if i == 0 {
                assert(acc@ =~= a@ + ": "@ + b@);
            } else {
                assert(acc@ =~= before + (a@ + ": "@ + b@));
            }
        }
        i += 1;
    }
    proof {
        assert(ps@.subrange(0, ps@.len() as int) =~= ps@);
    }
    acc
}

/// Whether `init` has the shape of `t` (see [`rust_value`]).
pub fn rust_value_fits(init: &InitValue, t: &ObjectType) -> (r: bool)
    ensures
        r == (rust_value(*init, *t) is Some),
    decreases init,
{
    match (init, t) {
        (InitValue::U8(_), ObjectType::U8) | (InitValue::U16(_), ObjectType::U16) | (InitValue::U32(_), ObjectType::U32)
        | (InitValue::U64(_), ObjectType::U64) | (InitValue::I8(_), ObjectType::I8) | (InitValue::I16(_), ObjectType::I16)
        | (InitValue::I32(_), ObjectType::I32) | (InitValue::I64(_), ObjectType::I64) | (InitValue::F32(..), ObjectType::F32)
        | (InitValue::F64(..), ObjectType::F64) | (InitValue::Bool(_), ObjectType::Bool) | (
            InitValue::String(_),
            ObjectType::String,
        ) | (InitValue::Enum(_), ObjectType::Enum(..)) | (InitValue::Option(None), ObjectType::Option(_)) => true,
        (InitValue::Option(Some(v)), ObjectType::Option(e)) => {
            proof {
                assert(decreases_to!(*init => (*init)->Option_0));
            }
            rust_value_fits(v, e)
        },
        (InitValue::Tuple(vs), ObjectType::Tuple(ts)) => {
            if vs.len() == 1 {
                if ts.len() == 0 {
                    return false;
                }
                proof {
                    assert(decreases_to!(*init => (*init)->Tuple_0));
                    assert(decreases_to!(*vs => vs@));
                    assert(decreases_to!(vs@ => vs@[0]));
                }
                return rust_value_fits(&vs[0], &ts[0]);
            }
            let n = if vs.len() <= ts.len() {
                vs.len()
            } else {
                ts.len()
            };
            let mut i: usize = 0;
            while i < n
                invariant
                    i <= n == zip_len(vs@.len(), ts@.len()),
                    *init == InitValue::Tuple(*vs),
                    *t == ObjectType::Tuple(*ts),
                    vs@.len() != 1,
                    rust_zip(vs@, ts@, i as nat) is Some,
                decreases n - i,
            {
                proof {
                    assert(decreases_to!(*init => (*init)->Tuple_0));
                    assert(decreases_to!(*vs => vs@));
                    assert(decreases_to!(vs@ => vs@[i as int]));
                }
                if !rust_value_fits(&vs[i], &ts[i]) {
                    proof {
                        assert(rust_zip(vs@, ts@, (i + 1) as nat) is None);
                        if rust_zip(vs@, ts@, n as nat) is Some {
                            lemma_rust_zip_prefix(vs@, ts@, n as nat, (i + 1) as nat);
                        }
                    }
                    return false;
                }
                i += 1;
            }
            true
        },
        (InitValue::List(vs), ObjectType::List(_, e)) => {
            proof {
                assert(decreases_to!(*init => (*init)->List_0));
            }
            rust_value_fits_all(vs, e)
        },
        (InitValue::Vec(vs), ObjectType::Vec(e)) => {
            proof {
                assert(decreases_to!(*init => (*init)->Vec_0));
            }
            rust_value_fits_all(vs, e)
        },
        (InitValue::Dict(ps), ObjectType::Dict(k, v)) => {
            proof {
                assert(decreases_to!(*init => (*init)->Dict_0));
            }
            rust_value_fits_pairs(ps, k, v)
        },
        (InitValue::Struct(_, fvs), ObjectType::Struct(_, fts)) => {
            let n = if fvs.len() <= fts.len() {
                fvs.len()
            } else {
                fts.len()
            };
            let mut i: usize = 0;
            while i < n
                invariant
                    i <= n == zip_len(fvs@.len(), fts@.len()),
                    *init == InitValue::Struct(init->Struct_0, *fvs),
                    *t == ObjectType::Struct(t->Struct_0, *fts),
                    rust_fields(fvs@, fts@, i as nat) is Some,
                decreases n - i,
            {
                proof {
                    assert(decreases_to!(*init => (*init)->Struct_1));
                    assert(decreases_to!(*fvs => fvs@));
                    assert(decreases_to!(fvs@ => fvs@[i as int]));
                    assert(decreases_to!(fvs@[i as int] => fvs@[i as int].1));
                }
                if !rust_value_fits(&fvs[i].1, &fts[i].1) {
                    proof {
                        assert(rust_fields(fvs@, fts@, (i + 1) as nat) is None);
                        if rust_fields(fvs@, fts@, n as nat) is Some {
                            lemma_rust_fields_prefix(fvs@, fts@, n as nat, (i + 1) as nat);
                        }
                    }
                    return false;
                }
                i += 1;
            }
            true
        },
        _ => false,
    }
}

fn rust_value_fits_all(vs: &Vec<InitValue>, e: &ObjectType) -> (r: bool)
    ensures
        r == (rust_all(vs@, *e) is Some),
    decreases vs@,
{
    let mut i: usize = 0;
    proof {
        assert(vs@.subrange(0, 0) =~= Seq::<InitValue>::empty());
    }
    while i < vs.len()
        invariant
            i <= vs@.len(),
            rust_all(vs@.subrange(0, i as int), *e) is Some,
        decreases vs@.len() - i,
    {
        proof {
            let sub = vs@.subrange(0, i + 1);
            assert(sub.drop_last() =~= vs@.subrange(0, i as int));
            assert(sub.last() == vs@[i as int]);
            assert(decreases_to!(vs@ => vs@[i as int]));
        }
        if !rust_value_fits(&vs[i], e) {
            proof {
                if rust_all(vs@, *e) is Some {
                    lemma_rust_all_prefix(vs@, *e, (i + 1) as nat);
                }
            }
            return false;
        }
        i += 1;
    }
    proof {
        assert(vs@.subrange(0, vs@.len() as int) =~= vs@);
    }
    true
}

fn rust_value_fits_pairs(ps: &Vec<(InitValue, InitValue)>, k: &ObjectType, v: &ObjectType) -> (r: bool)
    ensures
        r == (rust_entries(ps@, *k, *v) is Some),
    decreases ps@,
{
    let mut i: usize = 0;
    proof {
        assert(ps@.subrange(0, 0) =~= Seq::<(InitValue, InitValue)>::empty());
    }
    while i < ps.len()
        invariant
            i <= ps@.len(),
            rust_entries(ps@.subrange(0, i as int), *k, *v) is Some,
        decreases ps@.len() - i,
    {
        proof {
            let sub = ps@.subrange(0, i + 1);
            assert(sub.drop_last() =~= ps@.subrange(0, i as int));
            assert(sub.last() == ps@[i as int]);
            assert(decreases_to!(ps@ => ps@[i as int]));
            assert(decreases_to!(ps@[i as int] => ps@[i as int].0));
            assert(decreases_to!(ps@[i as int] => ps@[i as int].1));
        }
        if !rust_value_fits(&ps[i].0, k) || !rust_value_fits(&ps[i].1, v) {
            proof {
                if rust_entries(ps@, *k, *v) is Some {
                    lemma_rust_entries_prefix(ps@, *k, *v, (i + 1) as nat);
                }
            }
            return false;
        }
        i += 1;
    }
    proof {
        assert(ps@.subrange(0, ps@.len() as int) =~= ps@);
    }
    true
}

/// Whether `init` has the shape of `t` (see [`py_value`]).
pub fn py_value_fits(init: &InitValue, t: &ObjectType) -> (r: bool)
    ensures
        r == (py_value(*init, *t) is Some),
    decreases init,
{
    match (init, t) {
        (InitValue::U8(_), ObjectType::U8) | (InitValue::U16(_), ObjectType::U16) | (InitValue::U32(_), ObjectType::U32)
        | (InitValue::U64(_), ObjectType::U64) | (InitValue::I8(_), ObjectType::I8) | (InitValue::I16(_), ObjectType::I16)
        | (InitValue::I32(_), ObjectType::I32) | (InitValue::I64(_), ObjectType::I64) | (InitValue::F32(..), ObjectType::F32)
        | (InitValue::F64(..), ObjectType::F64) | (InitValue::Bool(_), ObjectType::Bool) | (
            InitValue::String(_),
            ObjectType::String,
        ) | (InitValue::Enum(_), ObjectType::Enum(..)) | (InitValue::Option(None), ObjectType::Option(_)) => true,
        (InitValue::Option(Some(v)), ObjectType::Option(e)) => {
            proof {
                assert(decreases_to!(*init => (*init)->Option_0));
            }
            py_value_fits(v, e)
        },
        (InitValue::Tuple(vs), ObjectType::Tuple(ts)) => {

            let n = if vs.len() <= ts.len() {
                vs.len()
            } else {
                ts.len()
            };
            let mut i: usize = 0;
            while i < n
                invariant
                    i <= n == zip_len(vs@.len(), ts@.len()),
                    *init == InitValue::Tuple(*vs),
                    *t == ObjectType::Tuple(*ts),
                    py_zip(vs@, ts@, i as nat) is Some,
                decreases n - i,
            {
                proof {
                    assert(decreases_to!(*init => (*init)->Tuple_0));
                    assert(decreases_to!(*vs => vs@));
                    assert(decreases_to!(vs@ => vs@[i as int]));
                }
                if !py_value_fits(&vs[i], &ts[i]) {
                    proof {
                        assert(py_zip(vs@, ts@, (i + 1) as nat) is None);
                        if py_zip(vs@, ts@, n as nat) is Some {
                            lemma_py_zip_prefix(vs@, ts@, n as nat, (i + 1) as nat);
                        }
                    }
                    return false;
                }
                i += 1;
            }
            true
        },
        (InitValue::List(vs), ObjectType::List(_, e)) => {
            proof {
                assert(decreases_to!(*init => (*init)->List_0));
            }
            py_value_fits_all(vs, e)
        },
        (InitValue::Vec(vs), ObjectType::Vec(e)) => {
            proof {
                assert(decreases_to!(*init => (*init)->Vec_0));
            }
            py_value_fits_all(vs, e)
        },
        (InitValue::Dict(ps), ObjectType::Dict(k, v)) => {
            proof {
                assert(decreases_to!(*init => (*init)->Dict_0));
            }
            py_value_fits_pairs(ps, k, v)
        },
        (InitValue::Struct(_, fvs), ObjectType::Struct(_, fts)) => {
            let n = if fvs.len() <= fts.len() {
                fvs.len()
            } else {
                fts.len()
            };
            let mut i: usize = 0;
            while i < n
                invariant
                    i <= n == zip_len(fvs@.len(), fts@.len()),
                    *init == InitValue::Struct(init->Struct_0, *fvs),
                    *t == ObjectType::Struct(t->Struct_0, *fts),
                    py_fields(fvs@, fts@, i as nat) is Some,
                decreases n - i,
            {
                proof {
                    assert(decreases_to!(*init => (*init)->Struct_1));
                    assert(decreases_to!(*fvs => fvs@));
                    assert(decreases_to!(fvs@ => fvs@[i as int]));
                    assert(decreases_to!(fvs@[i as int] => fvs@[i as int].1));
                }
                if !py_value_fits(&fvs[i].1, &fts[i].1) {
                    proof {
                        assert(py_fields(fvs@, fts@, (i + 1) as nat) is None);
                        if py_fields(fvs@, fts@, n as nat) is Some {
                            lemma_py_fields_prefix(fvs@, fts@, n as nat, (i + 1) as nat);
                        }
                    }
                    return false;
                }
                i += 1;
            }
            true
        },
        _ => false,
    }
}

fn py_value_fits_all(vs: &Vec<InitValue>, e: &ObjectType) -> (r: bool)
    ensures
        r == (py_all(vs@, *e) is Some),
    decreases vs@,
{
    let mut i: usize = 0;
    proof {
        assert(vs@.subrange(0, 0) =~= Seq::<InitValue>::empty());
    }
    while i < vs.len()
        invariant
            i <= vs@.len(),
            py_all(vs@.subrange(0, i as int), *e) is Some,
        decreases vs@.len() - i,
    {
        proof {
            let sub = vs@.subrange(0, i + 1);
            assert(sub.drop_last() =~= vs@.subrange(0, i as int));
            assert(sub.last() == vs@[i as int]);
            assert(decreases_to!(vs@ => vs@[i as int]));
        }
        if !py_value_fits(&vs[i], e) {
            proof {
                if py_all(vs@, *e) is Some {
                    lemma_py_all_prefix(vs@, *e, (i + 1) as nat);
                }
            }
            return false;
        }
        i += 1;
    }
    proof {
        assert(vs@.subrange(0, vs@.len() as int) =~= vs@);
    }
    true
}

fn py_value_fits_pairs(ps: &Vec<(InitValue, InitValue)>, k: &ObjectType, v: &ObjectType) -> (r: bool)
    ensures
        r == (py_pairs(ps@, *k, *v) is Some),
    decreases ps@,
{
    let mut i: usize = 0;
    proof {
        assert(ps@.subrange(0, 0) =~= Seq::<(InitValue, InitValue)>::empty());
    }
    while i < ps.len()
        invariant
            i <= ps@.len(),
            py_pairs(ps@.subrange(0, i as int), *k, *v) is Some,
        decreases ps@.len() - i,
    {
        proof {
            let sub = ps@.subrange(0, i + 1);
            assert(sub.drop_last() =~= ps@.subrange(0, i as int));
            assert(sub.last() == ps@[i as int]);
            assert(decreases_to!(ps@ => ps@[i as int]));
            assert(decreases_to!(ps@[i as int] => ps@[i as int].0));
            assert(decreases_to!(ps@[i as int] => ps@[i as int].1));
        }
        if !py_value_fits(&ps[i].0, k) || !py_value_fits(&ps[i].1, v) {
            proof {
                if py_pairs(ps@, *k, *v) is Some {
                    lemma_py_pairs_prefix(ps@, *k, *v, (i + 1) as nat);
                }
            }
            return false;
        }
        i += 1;
    }
    proof {
        assert(ps@.subrange(0, ps@.len() as int) =~= ps@);
    }
    true
}


/// The number an integer initial value holds; `None` for any other value.
pub open spec fn init_integer(init: InitValue) -> Option<int> {
    match init {
        InitValue::U8(v) => Some(v as int),
        InitValue::U16(v) => Some(v as int),
        InitValue::U32(v) => Some(v as int),
        InitValue::U64(v) => Some(v as int),
        InitValue::I8(v) => Some(v as int),
        InitValue::I16(v) => Some(v as int),
        InitValue::I32(v) => Some(v as int),
        InitValue::I64(v) => Some(v as int),
        _ => None,
    }
}

/// An integer initial value is written as its number in both bindings: in
/// Python as the plain decimal number, and in Rust as the same digits with
/// the Rust name of its type as suffix, so the literal has exactly the type
/// of the state; a value of another type than the state's is refused by both.
pub proof fn lemma_integer_literals(init: InitValue, t: ObjectType)
    requires
        init_integer(init) is Some,
    ensures
        py_value(init, t) is Some <==> rust_value(init, t) is Some,
        py_value(init, t) is Some ==> py_value(init, t)->0 == signed_decimal(init_integer(init)->0) && rust_value(
            init,
            t,
        )->0 == py_value(init, t)->0 + rust_type(t, RustTypeContext::States),
{
}

} // verus!
