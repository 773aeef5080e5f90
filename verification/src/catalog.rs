use vstd::prelude::*;

use crate::codegen::{fields_equal, obj_fields_eq, ObjectType, StateType};
use vstd::string::StrSliceExecFns;

verus! {

/// Names are ordered lexicographically by their characters' code points,
/// which is the byte order of their UTF-8 encodings (the order of `String`).
pub open spec fn name_less(a: Seq<char>, b: Seq<char>) -> bool
    decreases a.len(),
{
    if b.len() == 0 {
        false
    } else if a.len() == 0 {
        true
    } else if a[0] != b[0] {
        a[0] < b[0]
    } else {
        name_less(a.drop_first(), b.drop_first())
    }
}

pub(crate) proof fn lemma_name_less_strict(a: Seq<char>, b: Seq<char>)
    ensures
        name_less(a, b) ==> a != b && !name_less(b, a),
    decreases a.len(),
{
    if a.len() > 0 && b.len() > 0 && a[0] == b[0] {
        lemma_name_less_strict(a.drop_first(), b.drop_first());
        if a == b {
            assert(a.drop_first() == b.drop_first());
        }
    }
}

pub(crate) proof fn lemma_name_less_total(a: Seq<char>, b: Seq<char>)
    ensures
        a != b ==> name_less(a, b) || name_less(b, a),
    decreases a.len(),
{
    if a.len() > 0 && b.len() > 0 && a[0] == b[0] {
        lemma_name_less_total(a.drop_first(), b.drop_first());
        if a.drop_first() == b.drop_first() {
            assert(a[0] == b[0]);
            assert(a =~= seq![a[0]] + a.drop_first());
            assert(b =~= seq![b[0]] + b.drop_first());
        }
    } else if a.len() == 0 && b.len() == 0 {
        assert(a =~= b);
    }
}

/// Whether `a` sorts before `b`.
pub(crate) fn name_lt(a: &String, b: &String) -> (r: bool)
    ensures
        r == name_less(a@, b@),
{
    let sa = a.as_str();
    let sb = b.as_str();
    let la = sa.unicode_len();
    let lb = sb.unicode_len();
    let mut i: usize = 0;
    proof {
        assert(a@.subrange(0, a@.len() as int) =~= a@);
        assert(b@.subrange(0, b@.len() as int) =~= b@);
    }
    while i < la && i < lb
        invariant
            i <= la == a@.len(),
            i <= lb == b@.len(),
            sa@ == a@,
            sb@ == b@,
            forall|k: int| 0 <= k < i ==> a@[k] == b@[k],
            name_less(a@, b@) == name_less(a@.subrange(i as int, a@.len() as int), b@.subrange(i as int, b@.len() as int)),
        decreases la - i,
    {
        let ca = sa.get_char(i);
        let cb = sb.get_char(i);
        let ghost ra = a@.subrange(i as int, a@.len() as int);
        let ghost rb = b@.subrange(i as int, b@.len() as int);
        proof {
            assert(ra[0] == ca);
            assert(rb[0] == cb);
        }
        if ca != cb {
            return ca < cb;
        }
        proof {
            assert(ra.drop_first() =~= a@.subrange(i + 1, a@.len() as int));
            assert(rb.drop_first() =~= b@.subrange(i + 1, b@.len() as int));
        }
        i += 1;
    }
    proof {
        let ra = a@.subrange(i as int, a@.len() as int);
        let rb = b@.subrange(i as int, b@.len() as int);
        assert(ra.len() == la - i && rb.len() == lb - i);
    }
    i < lb
}

/// An ordered table from names to values, as a sequence of entries sorted
/// by name with no name twice.
pub open spec fn table_sorted<V>(t: Seq<(Seq<char>, V)>) -> bool {
    forall|i: int, j: int| 0 <= i < j < t.len() ==> name_less(t[i].0, t[j].0)
}

/// `t` with `v` under `k`: the entry of `k` takes the new value when there
/// is one, otherwise a new entry goes where `k` sorts.
pub open spec fn table_insert<V>(t: Seq<(Seq<char>, V)>, k: Seq<char>, v: V) -> Seq<(Seq<char>, V)>
    decreases t.len(),
{
    if t.len() == 0 {
        seq![(k, v)]
    } else if t[0].0 == k {
        seq![(k, v)] + t.drop_first()
    } else if name_less(k, t[0].0) {
        seq![(k, v)] + t
    } else {
        seq![t[0]] + table_insert(t.drop_first(), k, v)
    }
}

/// The value under `k` in `t`, if any.
pub open spec fn table_get<V>(t: Seq<(Seq<char>, V)>, k: Seq<char>) -> Option<V>
    decreases t.len(),
{
    if t.len() == 0 {
        None
    } else if t[0].0 == k {
        Some(t[0].1)
    } else {
        table_get(t.drop_first(), k)
    }
}

/// The table's entries with the names viewed.
pub open spec fn table_view<V>(t: Seq<(&String, V)>) -> Seq<(Seq<char>, V)> {
    t.map_values(|e: (&String, V)| (e.0@, e.1))
}

proof fn lemma_table_insert_sorted<V>(t: Seq<(Seq<char>, V)>, k: Seq<char>, v: V)
    requires
        table_sorted(t),
    ensures
        table_sorted(table_insert(t, k, v)),
        forall|e| #[trigger] table_insert(t, k, v).contains(e) ==> e == (k, v) || t.contains(e),
    decreases t.len(),
{
    if t.len() == 0 {
    } else if t[0].0 == k {
        let r = table_insert(t, k, v);
        assert forall|i: int, j: int| 0 <= i < j < r.len() implies name_less(r[i].0, r[j].0) by {
            if i == 0 {
                assert(r[j] == t[j]);
                assert(name_less(t[0].0, t[j].0));
            } else {
                assert(r[i] == t[i] && r[j] == t[j]);
            }
        }
        assert forall|e| #[trigger] r.contains(e) implies e == (k, v) || t.contains(e) by {
            let i = choose|i: int| 0 <= i < r.len() && r[i] == e;
            if i > 0 {
                assert(r[i] == t[i]);
            }
        }
    } else if name_less(k, t[0].0) {
        let r = table_insert(t, k, v);
        assert forall|i: int, j: int| 0 <= i < j < r.len() implies name_less(r[i].0, r[j].0) by {
            if i == 0 {
                assert(r[j] == t[j - 1]);
                if j > 1 {
                    assert(name_less(t[0].0, t[j - 1].0));
                    lemma_name_less_trans(k, t[0].0, t[j - 1].0);
                }
            } else {
                assert(r[i] == t[i - 1] && r[j] == t[j - 1]);
            }
        }
        assert forall|e| #[trigger] r.contains(e) implies e == (k, v) || t.contains(e) by {
            let i = choose|i: int| 0 <= i < r.len() && r[i] == e;
            if i > 0 {
                assert(r[i] == t[i - 1]);
            }
        }
    } else {
        let rest = t.drop_first();
        assert(table_sorted(rest)) by {
            assert forall|i: int, j: int| 0 <= i < j < rest.len() implies name_less(rest[i].0, rest[j].0) by {
                assert(rest[i] == t[i + 1] && rest[j] == t[j + 1]);
            }
        }
        lemma_table_insert_sorted(rest, k, v);
        lemma_name_less_total(k, t[0].0);
        let r = table_insert(t, k, v);
        let ri = table_insert(rest, k, v);
        assert(r =~= seq![t[0]] + ri);
        assert forall|i: int, j: int| 0 <= i < j < r.len() implies name_less(r[i].0, r[j].0) by {
            if i == 0 {
                assert(r[j] == ri[j - 1]);
                assert(ri.contains(ri[j - 1]));
                if ri[j - 1] == (k, v) {
                } else {
                    assert(rest.contains(ri[j - 1]));
                    let m = choose|m: int| 0 <= m < rest.len() && rest[m] == ri[j - 1];
                    assert(rest[m] == t[m + 1]);
                }
            } else {
                assert(r[i] == ri[i - 1] && r[j] == ri[j - 1]);
            }
        }
        assert forall|e| #[trigger] r.contains(e) implies e == (k, v) || t.contains(e) by {
            let i = choose|i: int| 0 <= i < r.len() && r[i] == e;
            if i > 0 {
                assert(ri[i - 1] == e);
                assert(ri.contains(e));
                if e != (k, v) {
                    let m = choose|m: int| 0 <= m < rest.len() && rest[m] == e;
                    assert(t[m + 1] == e);
                }
            }
        }
    }
}

pub(crate) proof fn lemma_name_less_trans(a: Seq<char>, b: Seq<char>, c: Seq<char>)
    requires
        name_less(a, b),
        name_less(b, c),
    ensures
        name_less(a, c),
    decreases a.len(),
{
    if a.len() > 0 && b.len() > 0 && c.len() > 0 && a[0] == b[0] && b[0] == c[0] {
        lemma_name_less_trans(a.drop_first(), b.drop_first(), c.drop_first());
    }
}

/// Puts `v` under `k` in the sorted table `t`.
#[verifier::spinoff_prover]
fn table_put<'a, V>(t: &mut Vec<(&'a String, V)>, k: &'a String, v: V)
    requires
        table_sorted(table_view(old(t)@)),
    ensures
        table_view(final(t)@) == table_insert(table_view(old(t)@), k@, v),
        table_sorted(table_view(final(t)@)),
{
    let ghost tv = table_view(t@);
    proof {
        lemma_table_insert_sorted(tv, k@, v);
    }
    let mut i: usize = 0;
    proof {
        assert(tv.subrange(0, 0) + tv.subrange(0, tv.len() as int) =~= tv);
    }
    while i < t.len() && name_lt(t[i].0, k)
        invariant
            i <= t@.len(),
            tv == table_view(t@),
            table_sorted(tv),
            table_insert(tv, k@, v) == tv.subrange(0, i as int) + table_insert(tv.subrange(i as int, tv.len() as int), k@, v),
        decreases t@.len() - i,
    {
        let ghost rest = tv.subrange(i as int, tv.len() as int);
        proof {
            assert(rest[0] == tv[i as int]);
            lemma_name_less_strict(rest[0].0, k@);
            assert(rest.drop_first() =~= tv.subrange(i + 1, tv.len() as int));
            assert(tv.subrange(0, i + 1) =~= tv.subrange(0, i as int) + seq![rest[0]]);
        }
        i += 1;
    }
    let ghost rest = tv.subrange(i as int, tv.len() as int);
    if i < t.len() && strings_same(t[i].0, k) {
        t.set(i, (k, v));
        proof {
            assert(rest[0] == tv[i as int]);
            assert(table_view(t@) =~= tv.subrange(0, i as int) + (seq![(k@, v)] + rest.drop_first()));
        }
    } else {
        proof {
            if i < tv.len() {
                assert(rest[0] == tv[i as int]);
                lemma_name_less_total(k@, rest[0].0);
            } else {
                assert(rest.len() == 0);
            }
        }
        t.insert(i, (k, v));
        proof {
            assert(table_view(t@) =~= tv.subrange(0, i as int) + (seq![(k@, v)] + rest));
        }
    }
}

/// The value under `k` in the sorted table `t`, if any.
fn table_find<'a, V: Copy>(t: &Vec<(&'a String, V)>, k: &String) -> (r: Option<V>)
    ensures
        r == table_get(table_view(t@), k@),
{
    let ghost tv = table_view(t@);
    let mut i: usize = 0;
    proof {
        assert(tv.subrange(0, tv.len() as int) =~= tv);
    }
    while i < t.len()
        invariant
            i <= t@.len(),
            tv == table_view(t@),
            table_get(tv, k@) == table_get(tv.subrange(i as int, tv.len() as int), k@),
        decreases t@.len() - i,
    {
        let ghost rest = tv.subrange(i as int, tv.len() as int);
        proof {
            assert(rest[0] == tv[i as int]);
            assert(rest.drop_first() =~= tv.subrange(i + 1, tv.len() as int));
        }
        if strings_same(t[i].0, k) {
            return Some(t[i].1);
        }
        i += 1;
    }
    None
}

fn strings_same(a: &String, b: &String) -> (r: bool)
    ensures
        r == (a@ == b@),
{
    a.eq(b)
}

/// The states that are not sub-states, in order, depth first.
pub open spec fn leaf_states(s: StateType) -> Seq<StateType>
    decreases s, 1nat,
{
    match s {
        StateType::SubState(_, _, children) => leaf_states_seq(children@),
        _ => seq![s],
    }
}

/// The states under `ss` that are not sub-states, in order, depth first.
pub open spec fn leaf_states_seq(ss: Seq<StateType>) -> Seq<StateType>
    decreases ss, 0nat,
{
    if ss.len() == 0 {
        Seq::empty()
    } else {
        leaf_states_seq(ss.drop_last()) + leaf_states(ss.last())
    }
}

/// The states a list of references points to.
pub open spec fn refs_view(v: Seq<&StateType>) -> Seq<StateType> {
    v.map_values(|r: &StateType| *r)
}

/// Appends the states under `s` that are not sub-states to `out`.
pub fn collect_leaves<'a>(s: &'a StateType, out: &mut Vec<&'a StateType>)
    ensures
        refs_view(final(out)@) == refs_view(old(out)@) + leaf_states(*s),
    decreases s,
{
    match s {
        StateType::SubState(_, _, children) => {
            let ghost before = refs_view(out@);
            let mut i: usize = 0;
            proof {
                assert(children@.subrange(0, 0) =~= Seq::<StateType>::empty());
                assert(refs_view(out@) =~= before + leaf_states_seq(children@.subrange(0, 0)));
            }
            while i < children.len()
                invariant
                    i <= children@.len(),
                    *s == StateType::SubState(s->SubState_0, s->SubState_1, *children),
                    refs_view(out@) == before + leaf_states_seq(children@.subrange(0, i as int)),
                decreases children@.len() - i,
            {
                proof {
                    assert(decreases_to!(*s => (*s)->SubState_2));
                    assert(decreases_to!(*children => children@));
                    assert(decreases_to!(children@ => children@[i as int]));
                }
                collect_leaves(&children[i], out);
                proof {
                    let sub = children@.subrange(0, i + 1);
                    assert(sub.drop_last() =~= children@.subrange(0, i as int));
                    assert(sub.last() == children@[i as int]);
                    assert(refs_view(out@) =~= before + leaf_states_seq(sub));
                }
                i += 1;
            }
            proof {
                assert(children@.subrange(0, children@.len() as int) =~= children@);
            }
        },
        _ => {
            let ghost before = refs_view(out@);
            out.push(s);
            proof {
                assert(refs_view(out@) =~= before + seq![*s]);
            }
        },
    }
}

/// The variants of an enum with their names viewed.
pub open spec fn variants_view(v: Seq<(String, i32)>) -> Seq<(Seq<char>, i32)> {
    v.map_values(|p: (String, i32)| (p.0@, p.1))
}

/// An enum met in a type: its name and variants.
pub type EnumDef = (Seq<char>, Seq<(Seq<char>, i32)>);

/// A struct met in a type: its name and fields.
pub type StructDef = (Seq<char>, Seq<(String, ObjectType)>);

/// The enums met walking `t`, in order.
pub open spec fn enum_defs(t: ObjectType) -> Seq<EnumDef>
    decreases t, 0nat,
{
    match t {
        ObjectType::Enum(name, variants) => seq![(name@, variants_view(variants@))],
        ObjectType::Struct(_, fields) => enum_defs_fields(fields@),
        ObjectType::Tuple(elements) => enum_defs_seq(elements@),
        ObjectType::List(_, e) => enum_defs(*e),
        ObjectType::Option(e) => enum_defs(*e),
        ObjectType::Vec(e) => enum_defs(*e),
        ObjectType::Dict(k, v) => enum_defs(*k) + enum_defs(*v),
        _ => Seq::empty(),
    }
}

/// The enums met walking the types `ts` in order.
pub open spec fn enum_defs_seq(ts: Seq<ObjectType>) -> Seq<EnumDef>
    decreases ts, ts.len(),
{
    if ts.len() == 0 {
        Seq::empty()
    } else {
        enum_defs_seq(ts.drop_last()) + enum_defs(ts.last())
    }
}

/// The enums met walking the types of the fields `fs` in order.
pub open spec fn enum_defs_fields(fs: Seq<(String, ObjectType)>) -> Seq<EnumDef>
    decreases fs, fs.len(),
{
    if fs.len() == 0 {
        Seq::empty()
    } else {
        enum_defs_fields(fs.drop_last()) + enum_defs(fs.last().1)
    }
}

/// The structs met walking `t`, in order: a struct before those in its
/// fields.
pub open spec fn struct_defs(t: ObjectType) -> Seq<StructDef>
    decreases t, 0nat,
{
    match t {
        ObjectType::Struct(name, fields) => seq![(name@, fields@)] + struct_defs_fields(fields@),
        ObjectType::Tuple(elements) => struct_defs_seq(elements@),
        ObjectType::List(_, e) => struct_defs(*e),
        ObjectType::Option(e) => struct_defs(*e),
        ObjectType::Vec(e) => struct_defs(*e),
        ObjectType::Dict(k, v) => struct_defs(*k) + struct_defs(*v),
        _ => Seq::empty(),
    }
}

/// The structs met walking the types `ts` in order.
pub open spec fn struct_defs_seq(ts: Seq<ObjectType>) -> Seq<StructDef>
    decreases ts, ts.len(),
{
    if ts.len() == 0 {
        Seq::empty()
    } else {
        struct_defs_seq(ts.drop_last()) + struct_defs(ts.last())
    }
}

/// The structs met walking the types of the fields `fs` in order.
pub open spec fn struct_defs_fields(fs: Seq<(String, ObjectType)>) -> Seq<StructDef>
    decreases fs, fs.len(),
{
    if fs.len() == 0 {
        Seq::empty()
    } else {
        struct_defs_fields(fs.drop_last()) + struct_defs(fs.last().1)
    }
}

/// Enum definitions collected by reference, viewed.
pub open spec fn enum_refs_view(v: Seq<(&String, &Vec<(String, i32)>)>) -> Seq<EnumDef> {
    v.map_values(|e: (&String, &Vec<(String, i32)>)| (e.0@, variants_view(e.1@)))
}

/// Struct definitions collected by reference, viewed.
pub open spec fn struct_refs_view(v: Seq<(&String, &Vec<(String, ObjectType)>)>) -> Seq<StructDef> {
    v.map_values(|e: (&String, &Vec<(String, ObjectType)>)| (e.0@, e.1@))
}

/// Appends the enums met walking `t` to `out`.
fn collect_enum_defs<'a>(t: &'a ObjectType, out: &mut Vec<(&'a String, &'a Vec<(String, i32)>)>)
    ensures
        enum_refs_view(final(out)@) == enum_refs_view(old(out)@) + enum_defs(*t),
    decreases t,
{
    let ghost before = enum_refs_view(out@);
    match t {
        ObjectType::Enum(name, variants) => {
            out.push((name, variants));
            proof {
                assert(enum_refs_view(out@) =~= before + enum_defs(*t));
            }
        },
        ObjectType::Struct(_, fields) => {
            let mut i: usize = 0;
            proof {
                assert(fields@.subrange(0, 0) =~= Seq::<(String, ObjectType)>::empty());
                assert(enum_refs_view(out@) =~= before + enum_defs_fields(fields@.subrange(0, 0)));
            }
            while i < fields.len()
                invariant
                    i <= fields@.len(),
                    *t == ObjectType::Struct(t->Struct_0, *fields),
                    enum_refs_view(out@) == before + enum_defs_fields(fields@.subrange(0, i as int)),
                decreases fields@.len() - i,
            {
                proof {
                    assert(decreases_to!(*t => (*t)->Struct_1));
                    assert(decreases_to!(*fields => fields@));
                    assert(decreases_to!(fields@ => fields@[i as int]));
                    assert(decreases_to!(fields@[i as int] => fields@[i as int].1));
                }
                collect_enum_defs(&fields[i].1, out);
                proof {
                    let sub = fields@.subrange(0, i + 1);
                    assert(sub.drop_last() =~= fields@.subrange(0, i as int));
                    assert(sub.last() == fields@[i as int]);
                    assert(enum_refs_view(out@) =~= before + enum_defs_fields(sub));
                }
                i += 1;
            }
            proof {
                assert(fields@.subrange(0, fields@.len() as int) =~= fields@);
            }
        },
        ObjectType::Tuple(elements) => {
            let mut i: usize = 0;
            proof {
                assert(elements@.subrange(0, 0) =~= Seq::<ObjectType>::empty());
                assert(enum_refs_view(out@) =~= before + enum_defs_seq(elements@.subrange(0, 0)));
            }
            while i < elements.len()
                invariant
                    i <= elements@.len(),
                    *t == ObjectType::Tuple(*elements),
                    enum_refs_view(out@) == before + enum_defs_seq(elements@.subrange(0, i as int)),
                decreases elements@.len() - i,
            {
                proof {
                    assert(decreases_to!(*t => (*t)->Tuple_0));
                    assert(decreases_to!(*elements => elements@));
                    assert(decreases_to!(elements@ => elements@[i as int]));
                }
                collect_enum_defs(&elements[i], out);
                proof {
                    let sub = elements@.subrange(0, i + 1);
                    assert(sub.drop_last() =~= elements@.subrange(0, i as int));
                    assert(sub.last() == elements@[i as int]);
                    assert(enum_refs_view(out@) =~= before + enum_defs_seq(sub));
                }
                i += 1;
            }
            proof {
                assert(elements@.subrange(0, elements@.len() as int) =~= elements@);
            }
        },
        ObjectType::List(_, e) => {
            collect_enum_defs(e, out);
        },
        ObjectType::Option(e) => {
            collect_enum_defs(e, out);
        },
        ObjectType::Vec(e) => {
            collect_enum_defs(e, out);
        },
        ObjectType::Dict(k, v) => {
            collect_enum_defs(k, out);
            collect_enum_defs(v, out);
            proof {
                assert(enum_refs_view(out@) =~= before + enum_defs(*t));
            }
        },
        _ => {
            proof {
                assert(enum_refs_view(out@) =~= before + enum_defs(*t));
            }
        },
    }
}

/// Appends the structs met walking `t` to `out`.
fn collect_struct_defs<'a>(t: &'a ObjectType, out: &mut Vec<(&'a String, &'a Vec<(String, ObjectType)>)>)
    ensures
        struct_refs_view(final(out)@) == struct_refs_view(old(out)@) + struct_defs(*t),
    decreases t,
{
    let ghost before = struct_refs_view(out@);
    match t {
        ObjectType::Struct(name, fields) => {
            out.push((name, fields));
            let ghost start = struct_refs_view(out@);
            proof {
                assert(start =~= before + seq![(name@, fields@)]);
            }
            let mut i: usize = 0;
            proof {
                assert(fields@.subrange(0, 0) =~= Seq::<(String, ObjectType)>::empty());
                assert(struct_refs_view(out@) =~= start + struct_defs_fields(fields@.subrange(0, 0)));
            }
            while i < fields.len()
                invariant
                    i <= fields@.len(),
                    *t == ObjectType::Struct(*name, *fields),
                    struct_refs_view(out@) == start + struct_defs_fields(fields@.subrange(0, i as int)),
                decreases fields@.len() - i,
            {
                proof {
                    assert(decreases_to!(*t => (*t)->Struct_1));
                    assert(decreases_to!(*fields => fields@));
                    assert(decreases_to!(fields@ => fields@[i as int]));
                    assert(decreases_to!(fields@[i as int] => fields@[i as int].1));
                }
                collect_struct_defs(&fields[i].1, out);
                proof {
                    let sub = fields@.subrange(0, i + 1);
                    assert(sub.drop_last() =~= fields@.subrange(0, i as int));
                    assert(sub.last() == fields@[i as int]);
                    assert(struct_refs_view(out@) =~= start + struct_defs_fields(sub));
                }
                i += 1;
            }
            proof {
                assert(fields@.subrange(0, fields@.len() as int) =~= fields@);
                assert(struct_refs_view(out@) =~= before + struct_defs(*t));
            }
        },
        ObjectType::Tuple(elements) => {
            let mut i: usize = 0;
            proof {
                assert(elements@.subrange(0, 0) =~= Seq::<ObjectType>::empty());
                assert(struct_refs_view(out@) =~= before + struct_defs_seq(elements@.subrange(0, 0)));
            }
            while i < elements.len()
                invariant
                    i <= elements@.len(),
                    *t == ObjectType::Tuple(*elements),
                    struct_refs_view(out@) == before + struct_defs_seq(elements@.subrange(0, i as int)),
                decreases elements@.len() - i,
            {
                proof {
                    assert(decreases_to!(*t => (*t)->Tuple_0));
                    assert(decreases_to!(*elements => elements@));
                    assert(decreases_to!(elements@ => elements@[i as int]));
                }
                collect_struct_defs(&elements[i], out);
                proof {
                    let sub = elements@.subrange(0, i + 1);
                    assert(sub.drop_last() =~= elements@.subrange(0, i as int));
                    assert(sub.last() == elements@[i as int]);
                    assert(struct_refs_view(out@) =~= before + struct_defs_seq(sub));
                }
                i += 1;
            }
            proof {
                assert(elements@.subrange(0, elements@.len() as int) =~= elements@);
            }
        },
        ObjectType::List(_, e) => {
            collect_struct_defs(e, out);
        },
        ObjectType::Option(e) => {
            collect_struct_defs(e, out);
        },
        ObjectType::Vec(e) => {
            collect_struct_defs(e, out);
        },
        ObjectType::Dict(k, v) => {
            collect_struct_defs(k, out);
            collect_struct_defs(v, out);
            proof {
                assert(struct_refs_view(out@) =~= before + struct_defs(*t));
            }
        },
        _ => {
            proof {
                assert(struct_refs_view(out@) =~= before + struct_defs(*t));
            }
        },
    }
}

/// The enums collected so far, sorted by name.
pub type EnumTable = Seq<(Seq<char>, Seq<(Seq<char>, i32)>)>;

/// The structs collected so far, sorted by name.
pub type StructTable = Seq<(Seq<char>, Seq<(String, ObjectType)>)>;

/// Adds an enum met to the table; an enum met before with other variants
/// is an error.
pub open spec fn add_enum(t: EnumTable, d: EnumDef) -> Result<EnumTable, Seq<char>> {
    if table_get(t, d.0) is Some && table_get(t, d.0)->0 != d.1 {
        Err("Enum "@ + d.0 + " defined multiple times with different variants"@)
    } else {
        Ok(table_insert(t, d.0, d.1))
    }
}

/// Adds the enums `defs` to the table in order, stopping at the first error.
pub open spec fn enum_fold(t: EnumTable, defs: Seq<EnumDef>) -> Result<EnumTable, Seq<char>>
    decreases defs.len(),
{
    if defs.len() == 0 {
        Ok(t)
    } else {
        match enum_fold(t, defs.drop_last()) {
            Ok(t1) => add_enum(t1, defs.last()),
            Err(e) => Err(e),
        }
    }
}

/// Adds a struct met to the table; a struct met before with other fields is
/// an error.
pub open spec fn add_struct(t: StructTable, d: StructDef) -> Result<StructTable, Seq<char>> {
    if table_get(t, d.0) is Some && !obj_fields_eq(table_get(t, d.0)->0, d.1) {
        Err("Struct "@ + d.0 + " defined multiple times with different fields"@)
    } else {
        Ok(table_insert(t, d.0, d.1))
    }
}

/// Adds the structs `defs` to the table in order, stopping at the first
/// error.
pub open spec fn struct_fold(t: StructTable, defs: Seq<StructDef>) -> Result<StructTable, Seq<char>>
    decreases defs.len(),
{
    if defs.len() == 0 {
        Ok(t)
    } else {
        match struct_fold(t, defs.drop_last()) {
            Ok(t1) => add_struct(t1, defs.last()),
            Err(e) => Err(e),
        }
    }
}

/// The value types a state carries.
pub open spec fn leaf_types(s: StateType) -> Seq<ObjectType> {
    match s {
        StateType::Value(_, t, _, _) => seq![t],
        StateType::Static(_, t, _) => seq![t],
        StateType::ValueMap(_, k, v) => seq![k, v],
        StateType::ValueVec(_, t) => seq![t],
        StateType::Signal(_, t, _) => seq![t],
        StateType::ValueTake(_, t) => seq![t],
        _ => Seq::empty(),
    }
}

/// The enums and structs of the types of the states `leaves`, each table
/// sorted by name; the first enum or struct met again with another
/// definition is an error. For each state its enums are collected before
/// its structs.
pub open spec fn catalog_of(leaves: Seq<StateType>) -> Result<(EnumTable, StructTable), Seq<char>>
    decreases leaves.len(),
{
    if leaves.len() == 0 {
        Ok((Seq::empty(), Seq::empty()))
    } else {
        match catalog_of(leaves.drop_last()) {
            Ok((e, s)) => match enum_fold(e, enum_defs_seq(leaf_types(leaves.last()))) {
                Ok(e2) => match struct_fold(s, struct_defs_seq(leaf_types(leaves.last()))) {
                    Ok(s2) => Ok((e2, s2)),
                    Err(m) => Err(m),
                },
                Err(m) => Err(m),
            },
            Err(m) => Err(m),
        }
    }
}

/// The enum table of a table holding variants by reference.
pub open spec fn enum_values_view(t: Seq<(Seq<char>, &Vec<(String, i32)>)>) -> EnumTable {
    t.map_values(|e: (Seq<char>, &Vec<(String, i32)>)| (e.0, variants_view(e.1@)))
}

/// The struct table of a table holding fields by reference.
pub open spec fn struct_values_view(t: Seq<(Seq<char>, &Vec<(String, ObjectType)>)>) -> StructTable {
    t.map_values(|e: (Seq<char>, &Vec<(String, ObjectType)>)| (e.0, e.1@))
}

proof fn lemma_insert_enum_values(t: Seq<(Seq<char>, &Vec<(String, i32)>)>, k: Seq<char>, v: &Vec<(String, i32)>)
    ensures
        enum_values_view(table_insert(t, k, v)) == table_insert(enum_values_view(t), k, variants_view(v@)),
    decreases t.len(),
{
    let tv = enum_values_view(t);
    if t.len() == 0 {
        assert(enum_values_view(table_insert(t, k, v)) =~= seq![(k, variants_view(v@))]);
    } else {
        assert(tv[0].0 == t[0].0);
        assert(enum_values_view(t.drop_first()) =~= tv.drop_first());
        if t[0].0 == k {
            assert(enum_values_view(table_insert(t, k, v)) =~= seq![(k, variants_view(v@))] + tv.drop_first());
        } else if name_less(k, t[0].0) {
            assert(enum_values_view(table_insert(t, k, v)) =~= seq![(k, variants_view(v@))] + tv);
        } else {
            lemma_insert_enum_values(t.drop_first(), k, v);
            assert(enum_values_view(table_insert(t, k, v)) =~= seq![tv[0]] + enum_values_view(
                table_insert(t.drop_first(), k, v),
            ));
        }
    }
}

proof fn lemma_insert_struct_values(t: Seq<(Seq<char>, &Vec<(String, ObjectType)>)>, k: Seq<char>, v: &Vec<(String, ObjectType)>)
    ensures
        struct_values_view(table_insert(t, k, v)) == table_insert(struct_values_view(t), k, v@),
    decreases t.len(),
{
    let tv = struct_values_view(t);
    if t.len() == 0 {
        assert(struct_values_view(table_insert(t, k, v)) =~= seq![(k, v@)]);
    } else {
        assert(tv[0].0 == t[0].0);
        assert(struct_values_view(t.drop_first()) =~= tv.drop_first());
        if t[0].0 == k {
            assert(struct_values_view(table_insert(t, k, v)) =~= seq![(k, v@)] + tv.drop_first());
        } else if name_less(k, t[0].0) {
            assert(struct_values_view(table_insert(t, k, v)) =~= seq![(k, v@)] + tv);
        } else {
            lemma_insert_struct_values(t.drop_first(), k, v);
            assert(struct_values_view(table_insert(t, k, v)) =~= seq![tv[0]] + struct_values_view(
                table_insert(t.drop_first(), k, v),
            ));
        }
    }
}

proof fn lemma_get_enum_values(t: Seq<(Seq<char>, &Vec<(String, i32)>)>, k: Seq<char>)
    ensures
        table_get(enum_values_view(t), k) == match table_get(t, k) {
            Some(v) => Some(variants_view(v@)),
            None => None,
        },
    decreases t.len(),
{
    if t.len() > 0 {
        lemma_get_enum_values(t.drop_first(), k);
        assert(enum_values_view(t.drop_first()) =~= enum_values_view(t).drop_first());
    }
}

proof fn lemma_get_struct_values(t: Seq<(Seq<char>, &Vec<(String, ObjectType)>)>, k: Seq<char>)
    ensures
        table_get(struct_values_view(t), k) == match table_get(t, k) {
            Some(v) => Some(v@),
            None => None,
        },
    decreases t.len(),
{
    if t.len() > 0 {
        lemma_get_struct_values(t.drop_first(), k);
        assert(struct_values_view(t.drop_first()) =~= struct_values_view(t).drop_first());
    }
}

fn variants_same(a: &Vec<(String, i32)>, b: &Vec<(String, i32)>) -> (r: bool)
    ensures
        r == (variants_view(a@) == variants_view(b@)),
{
    if a.len() != b.len() {
        proof {
            assert(variants_view(a@).len() != variants_view(b@).len());
        }
        return false;
    }
    let mut i: usize = 0;
    while i < a.len()
        invariant
            i <= a@.len() == b@.len(),
            forall|k: int| 0 <= k < i ==> #[trigger] variants_view(a@)[k] == variants_view(b@)[k],
        decreases a@.len() - i,
    {
        if !strings_same(&a[i].0, &b[i].0) || a[i].1 != b[i].1 {
            proof {
                assert(variants_view(a@)[i as int] != variants_view(b@)[i as int]);
            }
            return false;
        }
        i += 1;
    }
    proof {
        assert(variants_view(a@) =~= variants_view(b@));
    }
    true
}

/// Adds the enums `defs` to the sorted table `table` in order, stopping at
/// the first error.
fn add_enums<'a>(table: &mut Vec<(&'a String, &'a Vec<(String, i32)>)>, defs: &Vec<(&'a String, &'a Vec<(String, i32)>)>) -> (res: Result<(), String>)
    requires
        table_sorted(table_view(old(table)@)),
    ensures
        table_sorted(table_view(final(table)@)),
        match enum_fold(enum_refs_view(old(table)@), enum_refs_view(defs@)) {
            Ok(t) => res is Ok && enum_refs_view(final(table)@) == t,
            Err(m) => res matches Err(e) && e@ == m,
        },
{
    let ghost start = enum_refs_view(table@);
    let mut i: usize = 0;
    proof {
        assert(enum_refs_view(defs@).subrange(0, 0) =~= Seq::<EnumDef>::empty());
    }
    while i < defs.len()
        invariant
            i <= defs@.len(),
            table_sorted(table_view(table@)),
            start == enum_refs_view(old(table)@),
            enum_fold(start, enum_refs_view(defs@).subrange(0, i as int)) == Ok::<EnumTable, Seq<char>>(enum_refs_view(table@)),
        decreases defs@.len() - i,
    {
        let (name, variants) = defs[i];
        let ghost d = enum_refs_view(defs@)[i as int];
        let ghost sub = enum_refs_view(defs@).subrange(0, i + 1);
        proof {
            assert(d == (name@, variants_view(variants@)));
            assert(sub.drop_last() =~= enum_refs_view(defs@).subrange(0, i as int));
            assert(sub.last() == d);
            lemma_get_enum_values(table_view(table@), name@);
            assert(enum_refs_view(table@) =~= enum_values_view(table_view(table@)));
        }
        match table_find(table, name) {
            Some(prev) => {
                if !variants_same(prev, variants) {
                    let mut e = String::from_str("Enum ");
                    e.append(name.as_str());
                    e.append(" defined multiple times with different variants");
                    proof {
                        assert(enum_fold(start, sub) == Err::<EnumTable, Seq<char>>(e@));
                        lemma_fold_enum_err(start, enum_refs_view(defs@), (i + 1) as nat);

                    }
                    return Err(e);
                }
            },
            None => {},
        }
        let ghost before = table@;
        table_put(table, name, variants);
        proof {
            lemma_insert_enum_values(table_view(before), name@, variants);
            assert(enum_refs_view(before) =~= enum_values_view(table_view(before)));
            assert(enum_refs_view(table@) =~= enum_values_view(table_view(table@)));
        }
        i += 1;
    }
    proof {
        assert(enum_refs_view(defs@).subrange(0, defs@.len() as int) =~= enum_refs_view(defs@));
    }
    Ok(())
}

proof fn lemma_fold_enum_err(t: EnumTable, defs: Seq<EnumDef>, n: nat)
    requires
        n <= defs.len(),
        enum_fold(t, defs.subrange(0, n as int)) is Err,
    ensures
        enum_fold(t, defs) == enum_fold(t, defs.subrange(0, n as int)),
    decreases defs.len() - n,
{
    if n < defs.len() {
        let sub = defs.subrange(0, (n + 1) as int);
        assert(sub.drop_last() =~= defs.subrange(0, n as int));
        lemma_fold_enum_err(t, defs, n + 1);
    } else {
        assert(defs.subrange(0, n as int) =~= defs);
    }
}

proof fn lemma_fold_struct_err(t: StructTable, defs: Seq<StructDef>, n: nat)
    requires
        n <= defs.len(),
        struct_fold(t, defs.subrange(0, n as int)) is Err,
    ensures
        struct_fold(t, defs) == struct_fold(t, defs.subrange(0, n as int)),
    decreases defs.len() - n,
{
    if n < defs.len() {
        let sub = defs.subrange(0, (n + 1) as int);
        assert(sub.drop_last() =~= defs.subrange(0, n as int));
        lemma_fold_struct_err(t, defs, n + 1);
    } else {
        assert(defs.subrange(0, n as int) =~= defs);
    }
}

/// Adds the structs `defs` to the sorted table `table` in order, stopping
/// at the first error.
fn add_structs<'a>(table: &mut Vec<(&'a String, &'a Vec<(String, ObjectType)>)>, defs: &Vec<(&'a String, &'a Vec<(String, ObjectType)>)>) -> (res: Result<(), String>)
    requires
        table_sorted(table_view(old(table)@)),
    ensures
        table_sorted(table_view(final(table)@)),
        match struct_fold(struct_refs_view(old(table)@), struct_refs_view(defs@)) {
            Ok(t) => res is Ok && struct_refs_view(final(table)@) == t,
            Err(m) => res matches Err(e) && e@ == m,
        },
{
    let ghost start = struct_refs_view(table@);
    let mut i: usize = 0;
    proof {
        assert(struct_refs_view(defs@).subrange(0, 0) =~= Seq::<StructDef>::empty());
    }
    while i < defs.len()
        invariant
            i <= defs@.len(),
            table_sorted(table_view(table@)),
            start == struct_refs_view(old(table)@),
            struct_fold(start, struct_refs_view(defs@).subrange(0, i as int)) == Ok::<StructTable, Seq<char>>(struct_refs_view(table@)),
        decreases defs@.len() - i,
    {
        let (name, fields) = defs[i];
        let ghost d = struct_refs_view(defs@)[i as int];
        let ghost sub = struct_refs_view(defs@).subrange(0, i + 1);
        proof {
            assert(d == (name@, fields@));
            assert(sub.drop_last() =~= struct_refs_view(defs@).subrange(0, i as int));
            assert(sub.last() == d);
            lemma_get_struct_values(table_view(table@), name@);
            assert(struct_refs_view(table@) =~= struct_values_view(table_view(table@)));
        }
        match table_find(table, name) {
            Some(prev) => {
                if !fields_equal(prev, fields) {
                    let mut e = String::from_str("Struct ");
                    e.append(name.as_str());
                    e.append(" defined multiple times with different fields");
                    proof {
                        assert(struct_fold(start, sub) == Err::<StructTable, Seq<char>>(e@));
                        lemma_fold_struct_err(start, struct_refs_view(defs@), (i + 1) as nat);
                    }
                    return Err(e);
                }
            },
            None => {},
        }
        let ghost before = table@;
        table_put(table, name, fields);
        proof {
            lemma_insert_struct_values(table_view(before), name@, fields);
            assert(struct_refs_view(before) =~= struct_values_view(table_view(before)));
            assert(struct_refs_view(table@) =~= struct_values_view(table_view(table@)));
        }
        i += 1;
    }
    proof {
        assert(struct_refs_view(defs@).subrange(0, defs@.len() as int) =~= struct_refs_view(defs@));
    }
    Ok(())
}

/// The types a list of references points to.
pub open spec fn type_refs_view(v: Seq<&ObjectType>) -> Seq<ObjectType> {
    v.map_values(|r: &ObjectType| *r)
}

/// The value types the state `s` carries.
fn leaf_type_refs(s: &StateType) -> (r: Vec<&ObjectType>)
    ensures
        type_refs_view(r@) == leaf_types(*s),
{
    let mut r: Vec<&ObjectType> = Vec::new();
    match s {
        StateType::Value(_, t, _, _) => r.push(t),
        StateType::Static(_, t, _) => r.push(t),
        StateType::ValueMap(_, k, v) => {
            r.push(k);
            r.push(v);
        },
        StateType::ValueVec(_, t) => r.push(t),
        StateType::Signal(_, t, _) => r.push(t),
        StateType::ValueTake(_, t) => r.push(t),
        _ => {},
    }
    proof {
        assert(type_refs_view(r@) =~= leaf_types(*s));
    }
    r
}

/// The enums and structs of the types of the states `leaves`, each sorted
/// by name (see [`catalog_of`]).
pub fn catalog<'a>(leaves: &Vec<&'a StateType>) -> (res: Result<
    (Vec<(&'a String, &'a Vec<(String, i32)>)>, Vec<(&'a String, &'a Vec<(String, ObjectType)>)>),
    String,
>)
    ensures
        match catalog_of(refs_view(leaves@)) {
            Ok((e, s)) => res matches Ok((x, y)) && enum_refs_view(x@) == e && struct_refs_view(y@) == s,
            Err(m) => res matches Err(err) && err@ == m,
        },
{
    let mut enums: Vec<(&'a String, &'a Vec<(String, i32)>)> = Vec::new();
    let mut structs: Vec<(&'a String, &'a Vec<(String, ObjectType)>)> = Vec::new();
    let mut i: usize = 0;
    proof {
        assert(refs_view(leaves@).subrange(0, 0) =~= Seq::<StateType>::empty());
        assert(enum_refs_view(enums@) =~= Seq::<EnumDef>::empty());
        assert(struct_refs_view(structs@) =~= Seq::<StructDef>::empty());
    }
    while i < leaves.len()
        invariant
            i <= leaves@.len(),
            table_sorted(table_view(enums@)),
            table_sorted(table_view(structs@)),
            catalog_of(refs_view(leaves@).subrange(0, i as int)) == Ok::<(EnumTable, StructTable), Seq<char>>(
                (enum_refs_view(enums@), struct_refs_view(structs@)),
            ),
        decreases leaves@.len() - i,
    {
        let leaf: &'a StateType = leaves[i];
        let types = leaf_type_refs(leaf);
        let mut edefs: Vec<(&'a String, &'a Vec<(String, i32)>)> = Vec::new();
        let mut sdefs: Vec<(&'a String, &'a Vec<(String, ObjectType)>)> = Vec::new();
        let mut j: usize = 0;
        proof {
            assert(type_refs_view(types@).subrange(0, 0) =~= Seq::<ObjectType>::empty());
            assert(enum_refs_view(edefs@) =~= Seq::<EnumDef>::empty());
            assert(struct_refs_view(sdefs@) =~= Seq::<StructDef>::empty());
        }
        while j < types.len()
            invariant
                j <= types@.len(),
                enum_refs_view(edefs@) == enum_defs_seq(type_refs_view(types@).subrange(0, j as int)),
                struct_refs_view(sdefs@) == struct_defs_seq(type_refs_view(types@).subrange(0, j as int)),
            decreases types@.len() - j,
        {
            let t: &'a ObjectType = types[j];
            collect_enum_defs(t, &mut edefs);
            collect_struct_defs(t, &mut sdefs);
            proof {
                let sub = type_refs_view(types@).subrange(0, j + 1);
                assert(sub.drop_last() =~= type_refs_view(types@).subrange(0, j as int));
                assert(sub.last() == *t);
            }
            j += 1;
        }
        proof {
            assert(type_refs_view(types@).subrange(0, types@.len() as int) =~= type_refs_view(types@));
            let sub = refs_view(leaves@).subrange(0, i + 1);
            assert(sub.drop_last() =~= refs_view(leaves@).subrange(0, i as int));
            assert(sub.last() == *leaf);
        }
        match add_enums(&mut enums, &edefs) {
            Ok(()) => {},
            Err(e) => {
                proof {
                    lemma_catalog_err(refs_view(leaves@), (i + 1) as nat);
                }
                return Err(e);
            },
        }
        match add_structs(&mut structs, &sdefs) {
            Ok(()) => {},
            Err(e) => {
                proof {
                    lemma_catalog_err(refs_view(leaves@), (i + 1) as nat);
                }
                return Err(e);
            },
        }
        i += 1;
    }
    proof {
        assert(refs_view(leaves@).subrange(0, leaves@.len() as int) =~= refs_view(leaves@));
    }
    Ok((enums, structs))
}

proof fn lemma_catalog_err(leaves: Seq<StateType>, n: nat)
    requires
        n <= leaves.len(),
        catalog_of(leaves.subrange(0, n as int)) is Err,
    ensures
        catalog_of(leaves) == catalog_of(leaves.subrange(0, n as int)),
    decreases leaves.len() - n,
{
    if n < leaves.len() {
        let sub = leaves.subrange(0, (n + 1) as int);
        assert(sub.drop_last() =~= leaves.subrange(0, n as int));
        lemma_catalog_err(leaves, n + 1);
    } else {
        assert(leaves.subrange(0, n as int) =~= leaves);
    }
}

/// The fields of the struct `name` in the struct table `table`, if it is
/// there.
pub fn struct_fields_of<'a>(table: &Vec<(&'a String, &'a Vec<(String, ObjectType)>)>, name: &String) -> (r: Option<
    &'a Vec<(String, ObjectType)>,
>)
    ensures
        match table_get(struct_refs_view(table@), name@) {
            Some(fs) => r matches Some(x) && x@ == fs,
            None => r is None,
        },
{
    proof {
        lemma_get_struct_values(table_view(table@), name@);
        assert(struct_refs_view(table@) =~= struct_values_view(table_view(table@)));
    }
    table_find(table, name)
}

/// The names in a list of name references.
pub open spec fn names_view(v: Seq<&String>) -> Seq<Seq<char>> {
    v.map_values(|n: &String| n@)
}

/// The structs met walking the fields `fs` that are structs themselves,
/// each before those of its own fields, added after `acc` when not in it
/// yet.
pub open spec fn order_fields(fs: Seq<(String, ObjectType)>, acc: Seq<Seq<char>>) -> Seq<Seq<char>>
    decreases fs, 0nat,
{
    if fs.len() == 0 {
        acc
    } else {
        let acc1 = order_fields(fs.drop_last(), acc);
        match fs.last().1 {
            ObjectType::Struct(n, sub) => if acc1.contains(n@) {
                acc1
            } else {
                order_fields(sub@, acc1.push(n@))
            },
            _ => acc1,
        }
    }
}

/// The structs of the table, each followed by the structs of its fields
/// that were not met yet; the order in which the bindings declare them is
/// the reverse.
pub open spec fn struct_order(t: StructTable) -> Seq<Seq<char>>
    decreases t.len(),
{
    if t.len() == 0 {
        Seq::empty()
    } else {
        let acc = struct_order(t.drop_last());
        if acc.contains(t.last().0) {
            acc
        } else {
            order_fields(t.last().1, acc.push(t.last().0))
        }
    }
}

fn contains_name(acc: &Vec<&String>, name: &String) -> (r: bool)
    ensures
        r == names_view(acc@).contains(name@),
{
    let mut i: usize = 0;
    while i < acc.len()
        invariant
            i <= acc@.len(),
            forall|k: int| 0 <= k < i ==> names_view(acc@)[k] != name@,
        decreases acc@.len() - i,
    {
        if strings_same(acc[i], name) {
            proof {
                assert(names_view(acc@)[i as int] == name@);
            }
            return true;
        }
        i += 1;
    }
    false
}

/// Adds the structs met walking the fields `fs` to `acc` (see
/// [`order_fields`]).
fn add_field_structs<'a>(fs: &'a Vec<(String, ObjectType)>, acc: &mut Vec<&'a String>)
    ensures
        names_view(final(acc)@) == order_fields(fs@, names_view(old(acc)@)),
    decreases fs@,
{
    let ghost start = names_view(acc@);
    let mut i: usize = 0;
    proof {
        assert(fs@.subrange(0, 0) =~= Seq::<(String, ObjectType)>::empty());
    }
    while i < fs.len()
        invariant
            i <= fs@.len(),
            start == names_view(old(acc)@),
            names_view(acc@) == order_fields(fs@.subrange(0, i as int), start),
        decreases fs@.len() - i,
    {
        proof {
            let sub = fs@.subrange(0, i + 1);
            assert(sub.drop_last() =~= fs@.subrange(0, i as int));
            assert(sub.last() == fs@[i as int]);
        }
        match &fs[i].1 {
            ObjectType::Struct(n, sub) => {
                if !contains_name(acc, n) {
                    let ghost before = names_view(acc@);
                    acc.push(n);
                    proof {
                        assert(names_view(acc@) =~= before.push(n@));
                        assert(decreases_to!(fs@ => fs@[i as int]));
                        assert(decreases_to!(fs@[i as int] => fs@[i as int].1));
                        assert(decreases_to!(fs@[i as int].1 => (fs@[i as int].1)->Struct_1));
                    }
                    add_field_structs(sub, acc);
                }
            },
            _ => {},
        }
        i += 1;
    }
    proof {
        assert(fs@.subrange(0, fs@.len() as int) =~= fs@);
    }
}

/// The structs of the table in the order the bindings declare them: the
/// reverse of [`struct_order`].
pub fn declaration_order<'a>(table: &Vec<(&'a String, &'a Vec<(String, ObjectType)>)>) -> (r: Vec<&'a String>)
    ensures
        names_view(r@) == struct_order(struct_refs_view(table@)).reverse(),
{
    let ghost tv = struct_refs_view(table@);
    let mut acc: Vec<&'a String> = Vec::new();
    let mut i: usize = 0;
    proof {
        assert(tv.subrange(0, 0) =~= Seq::<StructDef>::empty());
        assert(names_view(acc@) =~= Seq::<Seq<char>>::empty());
    }
    while i < table.len()
        invariant
            i <= table@.len(),
            tv == struct_refs_view(table@),
            names_view(acc@) == struct_order(tv.subrange(0, i as int)),
        decreases table@.len() - i,
    {
        let (name, fields) = table[i];
        proof {
            let sub = tv.subrange(0, i + 1);
            assert(sub.drop_last() =~= tv.subrange(0, i as int));
            assert(sub.last() == (name@, fields@));
        }
        if !contains_name(&acc, name) {
            let ghost before = names_view(acc@);
            acc.push(name);
            proof {
                assert(names_view(acc@) =~= before.push(name@));
            }
            add_field_structs(fields, &mut acc);
        }
        i += 1;
    }
    proof {
        assert(tv.subrange(0, table@.len() as int) =~= tv);
    }
    let mut r: Vec<&'a String> = Vec::new();
    let mut j: usize = acc.len();
    let ghost all = names_view(acc@);
    proof {
        assert(names_view(r@) =~= all.subrange(j as int, all.len() as int).reverse());
    }
    while j > 0
        invariant
            j <= acc@.len(),
            all == names_view(acc@),
            names_view(r@) == all.subrange(j as int, all.len() as int).reverse(),
        decreases j,
    {
        j -= 1;
        let ghost before = names_view(r@);
        r.push(acc[j]);
        proof {
            assert(names_view(r@) =~= before.push(all[j as int]));
            assert(all.subrange(j as int, all.len() as int).reverse() =~= all.subrange(j + 1, all.len() as int).reverse().push(
                all[j as int],
            ));
        }
    }
    proof {
        assert(all.subrange(0, all.len() as int) =~= all);
    }
    r
}

} // verus!
