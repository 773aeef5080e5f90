use vstd::prelude::*;

use crate::catalog::{
    catalog, catalog_of, collect_leaves, declaration_order, leaf_states, names_view, refs_view, struct_fields_of,
    struct_order, table_get, type_refs_view, EnumTable, StructTable,
};
use crate::codegen::{
    validation_error, data_dtype, data_type_to_dtype, obj_eq, py_descriptor, python_type, text, type_info_to_python_type,
    type_to_pytype, validate_states, ObjectType, PythonTypeContext, StateType,
};
use crate::render_rust::{bindings_valid, states_valid};
use crate::render_values::{init_to_python_value, py_value, py_value_fits};
use crate::text::{decimal, push_decimal, push_signed_decimal, signed_decimal};
use vstd::string::StrSliceExecFns;

verus! {

/// Where the generated Python bindings find the runtime type descriptor of
/// a state: one index into the list of types, or two for a map (key and
/// value).
#[derive(Clone, Copy, Debug, PartialEq, Eq, Structural)]
pub enum TypeIndex {
    Single(usize),
    Pair(usize, usize),
}

/// The first position of a type equal to `t` in `list`.
pub open spec fn type_position(list: Seq<ObjectType>, t: ObjectType) -> Option<nat>
    decreases list.len(),
{
    if list.len() == 0 {
        None
    } else {
        match type_position(list.drop_last(), t) {
            Some(i) => Some(i),
            None => if obj_eq(list.last(), t) {
                Some((list.len() - 1) as nat)
            } else {
                None
            },
        }
    }
}

/// `list` with `t` added unless an equal type is in it, and the position
/// of `t`.
pub open spec fn intern(list: Seq<ObjectType>, t: ObjectType) -> (Seq<ObjectType>, nat) {
    match type_position(list, t) {
        Some(i) => (list, i),
        None => (list.push(t), list.len()),
    }
}

/// The type list and the name-to-index entries after the state `s`.
pub open spec fn py_index_step(
    acc: (Seq<ObjectType>, Seq<(Seq<char>, TypeIndex)>),
    s: StateType,
) -> (Seq<ObjectType>, Seq<(Seq<char>, TypeIndex)>) {
    match s {
        StateType::Value(n, t, _, _) => {
            let (l, i) = intern(acc.0, t);
            (l, acc.1.push((n@, TypeIndex::Single(i as usize))))
        },
        StateType::ValueTake(n, t) => {
            let (l, i) = intern(acc.0, t);
            (l, acc.1.push((n@, TypeIndex::Single(i as usize))))
        },
        StateType::Static(n, t, _) => {
            let (l, i) = intern(acc.0, t);
            (l, acc.1.push((n@, TypeIndex::Single(i as usize))))
        },
        StateType::Signal(n, t, _) => {
            let (l, i) = intern(acc.0, t);
            (l, acc.1.push((n@, TypeIndex::Single(i as usize))))
        },
        StateType::ValueVec(n, t) => {
            let (l, i) = intern(acc.0, t);
            (l, acc.1.push((n@, TypeIndex::Single(i as usize))))
        },
        StateType::ValueMap(n, k, v) => {
            let (l1, i) = intern(acc.0, k);
            let (l2, j) = intern(l1, v);
            (l2, acc.1.push((n@, TypeIndex::Pair(i as usize, j as usize))))
        },
        _ => acc,
    }
}

/// The distinct value types of the states `leaves` in the order met, and
/// for each state that has a type, its name with where its types are.
pub open spec fn py_type_info(leaves: Seq<StateType>) -> (Seq<ObjectType>, Seq<(Seq<char>, TypeIndex)>)
    decreases leaves.len(),
{
    if leaves.len() == 0 {
        (Seq::empty(), Seq::empty())
    } else {
        py_index_step(py_type_info(leaves.drop_last()), leaves.last())
    }
}

/// The index recorded last under `name`.
pub open spec fn index_lookup(entries: Seq<(Seq<char>, TypeIndex)>, name: Seq<char>) -> Option<TypeIndex>
    decreases entries.len(),
{
    if entries.len() == 0 {
        None
    } else if entries.last().0 == name {
        Some(entries.last().1)
    } else {
        index_lookup(entries.drop_last(), name)
    }
}

/// What follows the last `.` of a dotted name (all of it if it has none).
pub open spec fn last_segment(s: Seq<char>) -> Seq<char>
    decreases s.len(),
{
    if s.len() == 0 {
        s
    } else if s.last() == '.' {
        Seq::empty()
    } else {
        last_segment(s.drop_last()).push(s.last())
    }
}

/// What follows the last `.` of a dotted name.
pub fn last_name(name: &str) -> (r: String)
    ensures
        r@ == last_segment(name@),
{
    let n = name.unicode_len();
    let mut i: usize = n;
    proof {
        assert(name@.subrange(i as int, n as int) =~= Seq::<char>::empty());
        assert(name@.subrange(0, i as int) =~= name@);
    }
    while i > 0 && name.get_char(i - 1) != '.'
        invariant
            i <= n == name@.len(),
            last_segment(name@) == last_segment(name@.subrange(0, i as int)) + name@.subrange(i as int, n as int),
        decreases i,
    {
        proof {
            let pre = name@.subrange(0, i as int);
            assert(pre.drop_last() =~= name@.subrange(0, i - 1));
            assert(pre.last() == name@[i - 1]);
            assert(last_segment(pre) == last_segment(pre.drop_last()).push(pre.last()));
            assert(name@.subrange(i - 1, n as int) =~= seq![name@[i - 1]] + name@.subrange(i as int, n as int));
            assert(last_segment(pre.drop_last()).push(pre.last()) + name@.subrange(i as int, n as int)
                =~= last_segment(pre.drop_last()) + name@.subrange(i - 1, n as int));
        }
        i -= 1;
    }
    proof {
        let pre = name@.subrange(0, i as int);
        if i > 0 {
            assert(pre.last() == name@[i - 1]);
        }
        assert(last_segment(pre) =~= Seq::<char>::empty());
        assert(last_segment(name@) =~= name@.subrange(i as int, n as int));
    }
    text(name.substring_char(i, n))
}

proof fn lemma_position_extends(l: Seq<ObjectType>, n: nat, t: ObjectType)
    requires
        n <= l.len(),
        type_position(l.subrange(0, n as int), t) is Some,
    ensures
        type_position(l, t) == type_position(l.subrange(0, n as int), t),
    decreases l.len() - n,
{
    if n < l.len() {
        let sub = l.subrange(0, (n + 1) as int);
        assert(sub.drop_last() =~= l.subrange(0, n as int));
        lemma_position_extends(l, n + 1, t);
    } else {
        assert(l.subrange(0, n as int) =~= l);
    }
}

/// Where a type equal to `t` first is in `list`, if anywhere.
fn find_type(list: &Vec<&ObjectType>, t: &ObjectType) -> (r: Option<usize>)
    ensures
        match type_position(type_refs_view(list@), *t) {
            Some(i) => r matches Some(x) && x as nat == i,
            None => r is None,
        },
{
    let ghost lv = type_refs_view(list@);
    let mut i: usize = 0;
    proof {
        assert(lv.subrange(0, 0) =~= Seq::<ObjectType>::empty());
    }
    while i < list.len()
        invariant
            i <= list@.len(),
            lv == type_refs_view(list@),
            type_position(lv.subrange(0, i as int), *t) is None,
        decreases list@.len() - i,
    {
        let sub = Ghost(lv.subrange(0, i + 1));
        proof {
            assert(sub@.drop_last() =~= lv.subrange(0, i as int));
            assert(sub@.last() == *list@[i as int]);
        }
        if list[i].equals(t) {
            proof {
                assert(type_position(sub@, *t) == Some(i as nat));
                lemma_position_extends(lv, (i + 1) as nat, *t);
            }
            return Some(i);
        }
        i += 1;
    }
    proof {
        assert(lv.subrange(0, lv.len() as int) =~= lv);
    }
    None
}

/// Adds `t` to `list` unless an equal type is in it; returns its position.
fn intern_type<'a>(list: &mut Vec<&'a ObjectType>, t: &'a ObjectType) -> (i: usize)
    ensures
        (type_refs_view(final(list)@), i as nat) == intern(type_refs_view(old(list)@), *t),
{
    match find_type(list, t) {
        Some(i) => i,
        None => {
            let ghost before = type_refs_view(list@);
            let n = list.len();
            list.push(t);
            proof {
                assert(type_refs_view(list@) =~= before.push(*t));
            }
            n
        },
    }
}

/// Name-to-index entries with the names viewed.
pub open spec fn entries_view(v: Seq<(&String, TypeIndex)>) -> Seq<(Seq<char>, TypeIndex)> {
    v.map_values(|e: (&String, TypeIndex)| (e.0@, e.1))
}

/// The distinct value types of the states `leaves` and where each state
/// finds its types (see [`py_type_info`]).
pub fn process_type_info<'a>(leaves: &Vec<&'a StateType>) -> (r: (Vec<&'a ObjectType>, Vec<(&'a String, TypeIndex)>))
    ensures
        (type_refs_view(r.0@), entries_view(r.1@)) == py_type_info(refs_view(leaves@)),
{
    let mut types: Vec<&'a ObjectType> = Vec::new();
    let mut entries: Vec<(&'a String, TypeIndex)> = Vec::new();
    let ghost lv = refs_view(leaves@);
    let mut i: usize = 0;
    proof {
        assert(lv.subrange(0, 0) =~= Seq::<StateType>::empty());
        assert(type_refs_view(types@) =~= Seq::<ObjectType>::empty());
        assert(entries_view(entries@) =~= Seq::<(Seq<char>, TypeIndex)>::empty());
    }
    while i < leaves.len()
        invariant
            i <= leaves@.len(),
            lv == refs_view(leaves@),
            (type_refs_view(types@), entries_view(entries@)) == py_type_info(lv.subrange(0, i as int)),
        decreases leaves@.len() - i,
    {
        let leaf: &'a StateType = leaves[i];
        let ghost acc = (type_refs_view(types@), entries_view(entries@));
        proof {
            let sub = lv.subrange(0, i + 1);
            assert(sub.drop_last() =~= lv.subrange(0, i as int));
            assert(sub.last() == *leaf);
        }
        match leaf {
            StateType::Value(n, t, _, _) | StateType::ValueTake(n, t) | StateType::Static(n, t, _) | StateType::Signal(
                n,
                t,
                _,
            ) | StateType::ValueVec(n, t) => {
                let k = intern_type(&mut types, t);
                let ghost before = entries_view(entries@);
                entries.push((n, TypeIndex::Single(k)));
                proof {
                    assert(entries_view(entries@) =~= before.push((n@, TypeIndex::Single(k))));
                }
            },
            StateType::ValueMap(n, kt, vt) => {
                let k = intern_type(&mut types, kt);
                let v = intern_type(&mut types, vt);
                let ghost before = entries_view(entries@);
                entries.push((n, TypeIndex::Pair(k, v)));
                proof {
                    assert(entries_view(entries@) =~= before.push((n@, TypeIndex::Pair(k, v))));
                }
            },
            _ => {},
        }
        i += 1;
    }
    proof {
        assert(lv.subrange(0, lv.len() as int) =~= lv);
    }
    (types, entries)
}

/// The index recorded last under `name` (see [`index_lookup`]).
fn find_index(entries: &Vec<(&String, TypeIndex)>, name: &String) -> (r: Option<TypeIndex>)
    ensures
        r == index_lookup(entries_view(entries@), name@),
{
    let ghost ev = entries_view(entries@);
    let mut i: usize = entries.len();
    proof {
        assert(ev.subrange(0, ev.len() as int) =~= ev);
    }
    while i > 0
        invariant
            i <= entries@.len(),
            ev == entries_view(entries@),
            index_lookup(ev, name@) == index_lookup(ev.subrange(0, i as int), name@),
        decreases i,
    {
        let ghost pre = ev.subrange(0, i as int);
        proof {
            assert(pre.drop_last() =~= ev.subrange(0, i - 1));
            assert(pre.last() == ev[i - 1]);
        }
        if entries[i - 1].0.eq(name) {
            return Some(entries[i - 1].1);
        }
        i -= 1;
    }
    None
}

/// The single type index recorded for `name`.
pub open spec fn single_index(entries: Seq<(Seq<char>, TypeIndex)>, name: Seq<char>) -> Seq<char> {
    decimal(index_lookup(entries, name)->Some_0->Single_0 as nat)
}

/// Whether a state finds what its line in the bindings needs: its initial
/// value has the shape of its type, and the index recorded under its name
/// is of the kind its state needs.
pub open spec fn py_state_fits(st: StateType, entries: Seq<(Seq<char>, TypeIndex)>) -> bool {
    match st {
        StateType::Value(n, t, i, _) => py_value(i, t) is Some && index_lookup(entries, n@) matches Some(
            TypeIndex::Single(_),
        ),
        StateType::Static(n, t, i) => py_value(i, t) is Some && index_lookup(entries, n@) matches Some(
            TypeIndex::Single(_),
        ),
        StateType::ValueTake(n, _) => index_lookup(entries, n@) matches Some(TypeIndex::Single(_)),
        StateType::Signal(n, _, _) => index_lookup(entries, n@) matches Some(TypeIndex::Single(_)),
        StateType::ValueVec(n, _) => index_lookup(entries, n@) matches Some(TypeIndex::Single(_)),
        StateType::ValueMap(n, _, _) => index_lookup(entries, n@) matches Some(TypeIndex::Pair(_, _)),
        _ => true,
    }
}

/// Whether every state among `ss` and their sub-states fits (see
/// [`py_state_fits`]).
pub open spec fn py_fits_all(ss: Seq<StateType>, entries: Seq<(Seq<char>, TypeIndex)>) -> bool
    decreases ss, 0nat,
{
    if ss.len() == 0 {
        true
    } else {
        py_fits_all(ss.drop_last(), entries) && py_fits_state(ss.last(), entries)
    }
}

/// Whether `s` and its sub-states fit (see [`py_state_fits`]).
pub open spec fn py_fits_state(s: StateType, entries: Seq<(Seq<char>, TypeIndex)>) -> bool
    decreases s, 1nat,
{
    match s {
        StateType::SubState(_, _, children) => py_fits_all(children@, entries),
        _ => py_state_fits(s, entries),
    }
}

proof fn lemma_py_fits_all(ss: Seq<StateType>, entries: Seq<(Seq<char>, TypeIndex)>, i: int)
    requires
        py_fits_all(ss, entries),
        0 <= i < ss.len(),
    ensures
        py_fits_state(ss[i], entries),
    decreases ss.len(),
{
    if i < ss.len() - 1 {
        lemma_py_fits_all(ss.drop_last(), entries, i);
    }
}

/// `", True"` when queued.
pub open spec fn queue_arg(q: bool) -> Seq<char> {
    if q {
        ", True"@
    } else {
        Seq::empty()
    }
}

/// The line of the Python bindings that creates the state `st`.
pub open spec fn py_line(st: StateType, entries: Seq<(Seq<char>, TypeIndex)>) -> Seq<char> {
    let ctx = PythonTypeContext::States;
    match st {
        StateType::Value(n, t, i, q) => {
            let pt = python_type(t, false, ctx);
            "        self."@ + last_segment(n@) + ": s.Value["@ + pt + "] = s.Value["@ + pt + "]("@ + single_index(
                entries,
                n@,
            ) + ", "@ + py_value(i, t)->0 + queue_arg(q) + ")\n"@
        },
        StateType::ValueTake(n, t) => if t is Empty {
            "        self."@ + last_segment(n@) + ": s.ValueTakeEmpty = s.ValueTakeEmpty()\n"@
        } else {
            let pt = python_type(t, false, ctx);
            "        self."@ + last_segment(n@) + ": s.ValueTake["@ + pt + "] = s.ValueTake["@ + pt + "]("@
                + single_index(entries, n@) + ")\n"@
        },
        StateType::Static(n, t, i) => {
            let pt = python_type(t, false, ctx);
            "        self."@ + last_segment(n@) + ": s.Static["@ + pt + "] = s.Static["@ + pt + "]("@ + single_index(
                entries,
                n@,
            ) + ", "@ + py_value(i, t)->0 + ")\n"@
        },
        StateType::Signal(n, t, q) => if t is Empty {
            "        self."@ + last_segment(n@) + ": s.SignalEmpty = s.SignalEmpty("@ + (if q {
                "True"@
            } else {
                Seq::empty()
            }) + ")\n"@
        } else {
            let pt = python_type(t, false, ctx);
            "        self."@ + last_segment(n@) + ": s.Signal["@ + pt + "] = s.Signal["@ + pt + "]("@ + single_index(
                entries,
                n@,
            ) + queue_arg(q) + ")\n"@
        },
        StateType::ValueVec(n, t) => {
            let pt = python_type(t, false, ctx);
            "        self."@ + last_segment(n@) + ": s.Vec["@ + pt + "] = s.Vec["@ + pt + "]("@ + single_index(entries, n@)
                + ")\n"@
        },
        StateType::ValueMap(n, k, v) => {
            let kt = python_type(k, false, ctx);
            let vt = python_type(v, false, ctx);
            let ix = index_lookup(entries, n@)->Some_0;
            "        self."@ + last_segment(n@) + ": s.Map["@ + kt + ", "@ + vt + "] = s.Map["@ + kt + ", "@ + vt + "]("@
                + decimal(ix->Pair_0 as nat) + ", "@ + decimal(ix->Pair_1 as nat) + ")\n"@
        },
        StateType::Data(n, d) => "        self."@ + last_segment(n@) + ": s.Data["@ + data_dtype(d) + "] = s.Data("@
            + data_dtype(d) + ")\n"@,
        StateType::DataMulti(n, d) => "        self."@ + last_segment(n@) + ": s.DataMulti["@ + data_dtype(d)
            + "] = s.DataMulti("@ + data_dtype(d) + ")\n"@,
        StateType::DataTake(n, d) => "        self."@ + last_segment(n@) + ": s.DataTake["@ + data_dtype(d)
            + "] = s.DataTake("@ + data_dtype(d) + ")\n"@,
        StateType::DataMultiTake(n, d) => "        self."@ + last_segment(n@) + ": s.DataMultiTake["@ + data_dtype(d)
            + "] = s.DataMultiTake("@ + data_dtype(d) + ")\n"@,
        StateType::Image(n) => "        self."@ + last_segment(n@) + ": s.Image = s.Image()\n"@,
        StateType::SubState(n, c, _) => "        self."@ + last_segment(n@) + ": "@ + c@ + " = "@ + c@
            + "(parent + \"."@ + last_segment(n@) + "\")\n"@,
    }
}

fn push_index(out: &mut String, ix: usize)
    ensures
        final(out)@ == old(out)@ + decimal(ix as nat),
{
    push_decimal(out, ix as u64);
}

fn single(entries: &Vec<(&String, TypeIndex)>, name: &String) -> (k: usize)
    requires
        index_lookup(entries_view(entries@), name@) matches Some(TypeIndex::Single(_)),
    ensures
        decimal(k as nat) == single_index(entries_view(entries@), name@),
{
    match find_index(entries, name) {
        Some(TypeIndex::Single(k)) => k,
        _ => {
            proof {
                assert(false);
            }
            0
        },
    }
}

/// The line of the Python bindings that creates the state `st` (see
/// [`py_line`]).
pub fn state_to_line(st: &StateType, entries: &Vec<(&String, TypeIndex)>) -> (s: String)
    requires
        py_state_fits(*st, entries_view(entries@)),
    ensures
        s@ == py_line(*st, entries_view(entries@)),
{
    let ctx = PythonTypeContext::States;
    let ghost ev = entries_view(entries@);
    match st {
        StateType::Value(n, t, i, q) => {
            let name = last_name(n.as_str());
            let pt = type_info_to_python_type(t, false, ctx);
            let k = single(entries, n);
            let init = init_to_python_value(i, t);
            let mut r = text("        self.");
            r.append(name.as_str());
            r.append(": s.Value[");
            r.append(pt.as_str());
            r.append("] = s.Value[");
            r.append(pt.as_str());
            r.append("](");
            push_index(&mut r, k);
            r.append(", ");
            r.append(init.as_str());
            if *q {
                r.append(", True");
            }
            r.append(")\n");
            proof {
                assert(r@ =~= py_line(*st, ev));
            }
            r
        },
        StateType::ValueTake(n, t) => {
            let name = last_name(n.as_str());
            let pt = type_info_to_python_type(t, false, ctx);
            let k = single(entries, n);
            let mut r = text("        self.");
            r.append(name.as_str());
            match t {
                ObjectType::Empty => {
                    r.append(": s.ValueTakeEmpty = s.ValueTakeEmpty()\n");
                },
                _ => {
                    r.append(": s.ValueTake[");
                    r.append(pt.as_str());
                    r.append("] = s.ValueTake[");
                    r.append(pt.as_str());
                    r.append("](");
                    push_index(&mut r, k);
                    r.append(")\n");
                },
            }
            proof {
                assert(r@ =~= py_line(*st, ev));
            }
            r
        },
        StateType::Static(n, t, i) => {
            let name = last_name(n.as_str());
            let pt = type_info_to_python_type(t, false, ctx);
            let k = single(entries, n);
            let init = init_to_python_value(i, t);
            let mut r = text("        self.");
            r.append(name.as_str());
            r.append(": s.Static[");
            r.append(pt.as_str());
            r.append("] = s.Static[");
            r.append(pt.as_str());
            r.append("](");
            push_index(&mut r, k);
            r.append(", ");
            r.append(init.as_str());
            r.append(")\n");
            proof {
                assert(r@ =~= py_line(*st, ev));
            }
            r
        },
        StateType::Signal(n, t, q) => {
            let name = last_name(n.as_str());
            let pt = type_info_to_python_type(t, false, ctx);
            let k = single(entries, n);
            let mut r = text("        self.");
            r.append(name.as_str());
            match t {
                ObjectType::Empty => {
                    r.append(": s.SignalEmpty = s.SignalEmpty(");
                    if *q {
                        r.append("True");
                    }
                    r.append(")\n");
                },
                _ => {
                    r.append(": s.Signal[");
                    r.append(pt.as_str());
                    r.append("] = s.Signal[");
                    r.append(pt.as_str());
                    r.append("](");
                    push_index(&mut r, k);
                    if *q {
                        r.append(", True");
                    }
                    r.append(")\n");
                },
            }
            proof {
                assert(r@ =~= py_line(*st, ev));
            }
            r
        },
        StateType::ValueVec(n, t) => {
            let name = last_name(n.as_str());
            let pt = type_info_to_python_type(t, false, ctx);
            let k = single(entries, n);
            let mut r = text("        self.");
            r.append(name.as_str());
            r.append(": s.Vec[");
            r.append(pt.as_str());
            r.append("] = s.Vec[");
            r.append(pt.as_str());
            r.append("](");
            push_index(&mut r, k);
            r.append(")\n");
            proof {
                assert(r@ =~= py_line(*st, ev));
            }
            r
        },
        StateType::ValueMap(n, kt, vt) => {
            let name = last_name(n.as_str());
            let kp = type_info_to_python_type(kt, false, ctx);
            let vp = type_info_to_python_type(vt, false, ctx);
            let (a, b) = match find_index(entries, n) {
                Some(TypeIndex::Pair(a, b)) => (a, b),
                _ => {
                    proof {
                        assert(false);
                    }
                    (0, 0)
                },
            };
            let mut r = text("        self.");
            r.append(name.as_str());
            r.append(": s.Map[");
            r.append(kp.as_str());
            r.append(", ");
            r.append(vp.as_str());
            r.append("] = s.Map[");
            r.append(kp.as_str());
            r.append(", ");
            r.append(vp.as_str());
            r.append("](");
            push_index(&mut r, a);
            r.append(", ");
            push_index(&mut r, b);
            r.append(")\n");
            proof {
                assert(r@ =~= py_line(*st, ev));
            }
            r
        },
        StateType::Data(n, d) => dtype_line(n, ": s.Data[", "] = s.Data(", data_type_to_dtype(d)),
        StateType::DataMulti(n, d) => dtype_line(n, ": s.DataMulti[", "] = s.DataMulti(", data_type_to_dtype(d)),
        StateType::DataTake(n, d) => dtype_line(n, ": s.DataTake[", "] = s.DataTake(", data_type_to_dtype(d)),
        StateType::DataMultiTake(n, d) => dtype_line(
            n,
            ": s.DataMultiTake[",
            "] = s.DataMultiTake(",
            data_type_to_dtype(d),
        ),
        StateType::Image(n) => {
            let name = last_name(n.as_str());
            let mut r = text("        self.");
            r.append(name.as_str());
            r.append(": s.Image = s.Image()\n");
            r
        },
        StateType::SubState(n, c, _) => {
            let name = last_name(n.as_str());
            let mut r = text("        self.");
            r.append(name.as_str());
            r.append(": ");
            r.append(c.as_str());
            r.append(" = ");
            r.append(c.as_str());
            r.append("(parent + \".");
            r.append(name.as_str());
            r.append("\")\n");
            r
        },
    }
}

fn dtype_line(n: &String, a: &str, b: &str, d: &str) -> (r: String)
    ensures
        r@ == "        self."@ + last_segment(n@) + a@ + d@ + b@ + d@ + ")\n"@,
{
    let name = last_name(n.as_str());
    let mut r = text("        self.");
    r.append(name.as_str());
    r.append(a);
    r.append(d);
    r.append(b);
    r.append(d);
    r.append(")\n");
    r
}

/// The lines that create the states `ss`.
pub open spec fn py_lines(ss: Seq<StateType>, entries: Seq<(Seq<char>, TypeIndex)>) -> Seq<char>
    decreases ss.len(),
{
    if ss.len() == 0 {
        Seq::empty()
    } else {
        py_lines(ss.drop_last(), entries) + py_line(ss.last(), entries)
    }
}

/// A generated Python state class.
pub open spec fn py_class_text(class: Seq<char>, ss: Seq<StateType>, entries: Seq<(Seq<char>, TypeIndex)>) -> Seq<char> {
    "\n\nclass "@ + class + "(ISubStates):\n    def __init__(self, parent: str):\n"@ + if ss.len() == 0 {
        "        pass\n"@
    } else {
        py_lines(ss, entries)
    }
}

/// The text of the class `class` with states `ss`, preceded by those of the
/// classes under it not written yet (`used` lists the classes written),
/// and the classes written after it.
pub open spec fn py_write_class(
    class: Seq<char>,
    ss: Seq<StateType>,
    used: Seq<Seq<char>>,
    entries: Seq<(Seq<char>, TypeIndex)>,
) -> (Seq<char>, Seq<Seq<char>>)
    decreases ss, 1nat,
{
    let (t, u) = py_write_children(ss, used, entries);
    (t + py_class_text(class, ss, entries), u)
}

/// The text of the classes of the sub-states among `ss` not written yet
/// (`used` lists the classes written), in order, and the classes written
/// after them.
pub open spec fn py_write_children(ss: Seq<StateType>, used: Seq<Seq<char>>, entries: Seq<(Seq<char>, TypeIndex)>) -> (
    Seq<char>,
    Seq<Seq<char>>,
)
    decreases ss, 0nat,
{
    if ss.len() == 0 {
        (Seq::empty(), used)
    } else {
        let (t, u) = py_write_children(ss.drop_last(), used, entries);
        match ss.last() {
            StateType::SubState(_, c, sub) => if u.contains(c@) {
                (t, u)
            } else {
                let (t2, u2) = py_write_class(c@, sub@, u.push(c@), entries);
                (t + t2, u2)
            },
            _ => (t, u),
        }
    }
}

fn write_lines(out: &mut String, ss: &Vec<StateType>, entries: &Vec<(&String, TypeIndex)>)
    requires
        py_fits_all(ss@, entries_view(entries@)),
    ensures
        final(out)@ == old(out)@ + py_lines(ss@, entries_view(entries@)),
{
    let ghost ev = entries_view(entries@);
    let ghost start = out@;
    let mut i: usize = 0;
    proof {
        assert(ss@.subrange(0, 0) =~= Seq::<StateType>::empty());
        assert(out@ =~= start + py_lines(ss@.subrange(0, 0), ev));
    }
    while i < ss.len()
        invariant
            i <= ss@.len(),
            ev == entries_view(entries@),
            py_fits_all(ss@, ev),
            start == old(out)@,
            out@ == start + py_lines(ss@.subrange(0, i as int), ev),
        decreases ss@.len() - i,
    {
        proof {
            lemma_py_fits_all(ss@, ev, i as int);
            let sub = ss@.subrange(0, i + 1);
            assert(sub.drop_last() =~= ss@.subrange(0, i as int));
            assert(sub.last() == ss@[i as int]);
        }
        let line = state_to_line(&ss[i], entries);
        out.append(line.as_str());
        proof {
            assert(out@ =~= start + py_lines(ss@.subrange(0, i + 1), ev));
        }
        i += 1;
    }
    proof {
        assert(ss@.subrange(0, ss@.len() as int) =~= ss@);
    }
}

fn contains_class(used: &Vec<&String>, c: &String) -> (r: bool)
    ensures
        r == names_view(used@).contains(c@),
{
    let mut i: usize = 0;
    while i < used.len()
        invariant
            i <= used@.len(),
            forall|k: int| 0 <= k < i ==> names_view(used@)[k] != c@,
        decreases used@.len() - i,
    {
        if used[i].eq(c) {
            proof {
                assert(names_view(used@)[i as int] == c@);
            }
            return true;
        }
        i += 1;
    }
    false
}

/// Writes the class `class` with states `ss`, preceded by the classes under
/// it that `used` does not list yet (see [`py_write_class`]).
fn write_states<'a>(
    out: &mut String,
    class: &'a String,
    ss: &'a Vec<StateType>,
    entries: &Vec<(&String, TypeIndex)>,
    used: &mut Vec<&'a String>,
)
    requires
        py_fits_all(ss@, entries_view(entries@)),
    ensures
        final(out)@ == old(out)@ + py_write_class(class@, ss@, names_view(old(used)@), entries_view(entries@)).0,
        names_view(final(used)@) == py_write_class(class@, ss@, names_view(old(used)@), entries_view(entries@)).1,
    decreases ss@, 1nat,
{
    write_sub_states(out, ss, entries, used);
    let ghost mid = out@;
    out.append("\n\nclass ");
    out.append(class.as_str());
    out.append("(ISubStates):\n    def __init__(self, parent: str):\n");
    if ss.len() == 0 {
        out.append("        pass\n");
    } else {
        write_lines(out, ss, entries);
    }
    proof {
        assert(out@ =~= mid + py_class_text(class@, ss@, entries_view(entries@)));
    }
}

/// Writes the classes of the sub-states among `ss` that `used` does not list
/// yet (see [`py_write_children`]).
fn write_sub_states<'a>(
    out: &mut String,
    ss: &'a Vec<StateType>,
    entries: &Vec<(&String, TypeIndex)>,
    used: &mut Vec<&'a String>,
)
    requires
        py_fits_all(ss@, entries_view(entries@)),
    ensures
        final(out)@ == old(out)@ + py_write_children(ss@, names_view(old(used)@), entries_view(entries@)).0,
        names_view(final(used)@) == py_write_children(ss@, names_view(old(used)@), entries_view(entries@)).1,
    decreases ss@, 0nat,
{
    let ghost ev = entries_view(entries@);
    let ghost start = out@;
    let ghost used0 = names_view(used@);
    let mut i: usize = 0;
    proof {
        assert(ss@.subrange(0, 0) =~= Seq::<StateType>::empty());
        assert(out@ =~= start + py_write_children(ss@.subrange(0, 0), used0, ev).0);
    }
    while i < ss.len()
        invariant
            i <= ss@.len(),
            ev == entries_view(entries@),
            py_fits_all(ss@, ev),
            start == old(out)@,
            used0 == names_view(old(used)@),
            out@ == start + py_write_children(ss@.subrange(0, i as int), used0, ev).0,
            names_view(used@) == py_write_children(ss@.subrange(0, i as int), used0, ev).1,
        decreases ss@.len() - i,
    {
        proof {
            let sub = ss@.subrange(0, i + 1);
            assert(sub.drop_last() =~= ss@.subrange(0, i as int));
            assert(sub.last() == ss@[i as int]);
            lemma_py_fits_all(ss@, ev, i as int);
        }
        match &ss[i] {
            StateType::SubState(_, c, sub) => {
                if !contains_class(used, c) {
                    let ghost u = names_view(used@);
                    used.push(c);
                    proof {
                        assert(names_view(used@) =~= u.push(c@));
                        assert(decreases_to!(ss@ => ss@[i as int]));
                        assert(decreases_to!(ss@[i as int] => ss@[i as int]->SubState_2));
                    }
                    write_states(out, c, sub, entries, used);
                    proof {
                        assert(out@ =~= start + py_write_children(ss@.subrange(0, i + 1), used0, ev).0);
                    }
                }
            },
            _ => {},
        }
        i += 1;
    }
    proof {
        assert(ss@.subrange(0, ss@.len() as int) =~= ss@);
    }
}

/// The variant lines of a generated Python enum.
pub open spec fn py_variant_lines(vs: Seq<(Seq<char>, i32)>) -> Seq<char>
    decreases vs.len(),
{
    if vs.len() == 0 {
        Seq::empty()
    } else {
        py_variant_lines(vs.drop_last()) + "    "@ + vs.last().0 + " = "@ + signed_decimal(vs.last().1 as int) + "\n"@
    }
}

/// The enums of the table, each as a generated Python enum, in table
/// order.
pub open spec fn py_enum_blocks(t: EnumTable) -> Seq<char>
    decreases t.len(),
{
    if t.len() == 0 {
        Seq::empty()
    } else {
        py_enum_blocks(t.drop_last()) + "\n\nclass "@ + t.last().0 + "(IntEnum):\n"@ + py_variant_lines(t.last().1)
    }
}

/// The generated Python module of the enums of the table.
pub open spec fn py_enums_text(t: EnumTable) -> Seq<char> {
    "# Generated by build.rs, do not edit\n# ruff: noqa: D101\nfrom enum import IntEnum\n"@ + py_enum_blocks(t)
}

/// The field lines of a generated Python struct.
pub open spec fn py_struct_field_lines(fs: Seq<(String, ObjectType)>) -> Seq<char>
    decreases fs.len(),
{
    if fs.len() == 0 {
        Seq::empty()
    } else {
        py_struct_field_lines(fs.drop_last()) + "    "@ + fs.last().0@ + ": "@ + python_type(
            fs.last().1,
            true,
            PythonTypeContext::Structs,
        ) + "\n"@
    }
}

/// The structs named in `order`, each as a generated Python dataclass with
/// its fields from the table.
pub open spec fn py_struct_blocks(order: Seq<Seq<char>>, t: StructTable) -> Seq<char>
    decreases order.len(),
{
    if order.len() == 0 {
        Seq::empty()
    } else {
        py_struct_blocks(order.drop_last(), t) + match table_get(t, order.last()) {
            Some(fs) => "\n\n@dataclass\nclass "@ + order.last() + "(s._CustomStruct):\n"@ + if fs.len() == 0 {
                "    pass\n"@
            } else {
                py_struct_field_lines(fs)
            },
            None => Seq::empty(),
        }
    }
}

/// The generated Python module of the structs of the table, each declared
/// after the structs of its fields.
pub open spec fn py_structs_text(t: StructTable) -> Seq<char> {
    "# Generated by build.rs, do not edit\n# ruff: noqa: D101 E501 F401\nfrom __future__ import annotations\n\nfrom dataclasses import dataclass\n\nimport egui_states.structures as s\n\nfrom . import enums\n"@
        + py_struct_blocks(struct_order(t).reverse(), t)
}

/// The lines listing the runtime type descriptors of `types`.
pub open spec fn descriptor_lines(types: Seq<ObjectType>) -> Seq<char>
    decreases types.len(),
{
    if types.len() == 0 {
        Seq::empty()
    } else {
        descriptor_lines(types.drop_last()) + "            "@ + py_descriptor(types.last()) + ",\n"@
    }
}

/// The generated Python module of the states under the root class `root`
/// with states `children`, given the distinct types and where each state
/// finds its types.
pub open spec fn py_states_text(
    root: Seq<char>,
    children: Seq<StateType>,
    version_hash: u64,
    types: Seq<ObjectType>,
    entries: Seq<(Seq<char>, TypeIndex)>,
) -> Seq<char> {
    "# Generated by build.rs, do not edit\n# ruff: noqa: D101 D107 E501\nfrom __future__ import annotations\n\nfrom collections.abc import Callable\n\nimport numpy as np\n\nimport egui_states.structures as s\nfrom egui_states.server import StatesBase, StateServerBase\nfrom egui_states.structures import ISubStates\n\nfrom . import enums, structs\n"@
        + py_write_children(children, Seq::empty(), entries).0 + "\n\nclass "@ + root
        + "(StatesBase):\n    @staticmethod\n    def _get_obj_types() -> list[s.PyObjectType]:\n        return [\n"@
        + descriptor_lines(types)
        + "        ]\n\n    def __init__(self, server: StateServerBase):\n        super().__init__(server)\n        parent = \"root\"\n"@
        + py_lines(children, entries) + "\n\nclass StatesServer(StateServerBase["@ + root + "]):\n    \"\"\"The main class for the StateServer for UI.\"\"\"\n\n    VERSION_HASH: int = "@ + decimal(version_hash as nat) + "\n\n    def __init__(\n        self,\n        port: int,\n        signals_workers: int = 3,\n        error_handler: Callable[[Exception], None] | None = None,\n        ip_addr: tuple[int, int, int, int] | None = None,\n        version: int | None = None,\n        token: str | None = None,\n    ) -> None:\n        \"\"\"Initialize the StateServer.\n\n        Args:\n            port (int): The port to listen on.\n            signals_workers (int, optional): Number of workers for signal processing. Defaults to 3.\n            error_handler (Callable[[Exception], None] | None, optional): Error handler function. Defaults to None.\n            ip_addr (tuple[int, int, int, int] | None, optional): IP address to bind to. Defaults to None.\n            version (int, optional): The optional version number for client connection.\n            token (str, optional): The optional token string for client connection.\n        \"\"\"\n        super().__init__("@ + root
        + ", port, signals_workers, error_handler, ip_addr, version, token)\n"@
}

fn write_py_variant_lines(out: &mut String, vs: &Vec<(String, i32)>)
    ensures
        final(out)@ == old(out)@ + py_variant_lines(crate::catalog::variants_view(vs@)),
{
    let ghost start = out@;
    let ghost vv = crate::catalog::variants_view(vs@);
    let mut i: usize = 0;
    proof {
        assert(vv.subrange(0, 0) =~= Seq::<(Seq<char>, i32)>::empty());
        assert(out@ =~= start + py_variant_lines(vv.subrange(0, 0)));
    }
    while i < vs.len()
        invariant
            i <= vs@.len(),
            vv == crate::catalog::variants_view(vs@),
            start == old(out)@,
            out@ == start + py_variant_lines(vv.subrange(0, i as int)),
        decreases vs@.len() - i,
    {
        out.append("    ");
        out.append(vs[i].0.as_str());
        out.append(" = ");
        push_signed_decimal(out, vs[i].1 as i64);
        out.append("\n");
        proof {
            let sub = vv.subrange(0, i + 1);
            assert(sub.drop_last() =~= vv.subrange(0, i as int));
            assert(sub.last() == vv[i as int]);
            assert(out@ =~= start + py_variant_lines(sub));
        }
        i += 1;
    }
    proof {
        assert(vv.subrange(0, vv.len() as int) =~= vv);
    }
}

fn py_enums(enums: &Vec<(&String, &Vec<(String, i32)>)>) -> (r: String)
    ensures
        r@ == py_enums_text(crate::catalog::enum_refs_view(enums@)),
{
    let ghost tv = crate::catalog::enum_refs_view(enums@);
    let mut out = text("# Generated by build.rs, do not edit\n# ruff: noqa: D101\nfrom enum import IntEnum\n");
    let ghost start = out@;
    let mut i: usize = 0;
    proof {
        assert(tv.subrange(0, 0) =~= Seq::<(Seq<char>, Seq<(Seq<char>, i32)>)>::empty());
        assert(out@ =~= start + py_enum_blocks(tv.subrange(0, 0)));
    }
    while i < enums.len()
        invariant
            i <= enums@.len(),
            tv == crate::catalog::enum_refs_view(enums@),
            start == "# Generated by build.rs, do not edit\n# ruff: noqa: D101\nfrom enum import IntEnum\n"@,
            out@ == start + py_enum_blocks(tv.subrange(0, i as int)),
        decreases enums@.len() - i,
    {
        let (name, variants) = enums[i];
        out.append("\n\nclass ");
        out.append(name.as_str());
        out.append("(IntEnum):\n");
        write_py_variant_lines(&mut out, variants);
        proof {
            let sub = tv.subrange(0, i + 1);
            assert(sub.drop_last() =~= tv.subrange(0, i as int));
            assert(sub.last() == tv[i as int]);
            assert(out@ =~= start + py_enum_blocks(sub));
        }
        i += 1;
    }
    proof {
        assert(tv.subrange(0, tv.len() as int) =~= tv);
    }
    out
}

fn write_py_struct_fields(out: &mut String, fs: &Vec<(String, ObjectType)>)
    ensures
        final(out)@ == old(out)@ + py_struct_field_lines(fs@),
{
    let ghost start = out@;
    let mut i: usize = 0;
    proof {
        assert(fs@.subrange(0, 0) =~= Seq::<(String, ObjectType)>::empty());
        assert(out@ =~= start + py_struct_field_lines(fs@.subrange(0, 0)));
    }
    while i < fs.len()
        invariant
            i <= fs@.len(),
            start == old(out)@,
            out@ == start + py_struct_field_lines(fs@.subrange(0, i as int)),
        decreases fs@.len() - i,
    {
        out.append("    ");
        out.append(fs[i].0.as_str());
        out.append(": ");
        let t = type_info_to_python_type(&fs[i].1, true, PythonTypeContext::Structs);
        out.append(t.as_str());
        out.append("\n");
        proof {
            let sub = fs@.subrange(0, i + 1);
            assert(sub.drop_last() =~= fs@.subrange(0, i as int));
            assert(sub.last() == fs@[i as int]);
            assert(out@ =~= start + py_struct_field_lines(sub));
        }
        i += 1;
    }
    proof {
        assert(fs@.subrange(0, fs@.len() as int) =~= fs@);
    }
}

fn py_structs(structs: &Vec<(&String, &Vec<(String, ObjectType)>)>) -> (r: String)
    ensures
        r@ == py_structs_text(crate::catalog::struct_refs_view(structs@)),
{
    let ghost tv = crate::catalog::struct_refs_view(structs@);
    let order = declaration_order(structs);
    let ghost ov = names_view(order@);
    let mut out = text(
        "# Generated by build.rs, do not edit\n# ruff: noqa: D101 E501 F401\nfrom __future__ import annotations\n\nfrom dataclasses import dataclass\n\nimport egui_states.structures as s\n\nfrom . import enums\n",
    );
    let ghost start = out@;
    let mut i: usize = 0;
    proof {
        assert(ov.subrange(0, 0) =~= Seq::<Seq<char>>::empty());
        assert(out@ =~= start + py_struct_blocks(ov.subrange(0, 0), tv));
    }
    while i < order.len()
        invariant
            i <= order@.len(),
            tv == crate::catalog::struct_refs_view(structs@),
            ov == names_view(order@),
            start == "# Generated by build.rs, do not edit\n# ruff: noqa: D101 E501 F401\nfrom __future__ import annotations\n\nfrom dataclasses import dataclass\n\nimport egui_states.structures as s\n\nfrom . import enums\n"@,
            out@ == start + py_struct_blocks(ov.subrange(0, i as int), tv),
        decreases order@.len() - i,
    {
        let name = order[i];
        match struct_fields_of(structs, name) {
            Some(fields) => {
                out.append("\n\n@dataclass\nclass ");
                out.append(name.as_str());
                out.append("(s._CustomStruct):\n");
                if fields.len() == 0 {
                    out.append("    pass\n");
                } else {
                    write_py_struct_fields(&mut out, fields);
                }
            },
            None => {},
        }
        proof {
            let sub = ov.subrange(0, i + 1);
            assert(sub.drop_last() =~= ov.subrange(0, i as int));
            assert(sub.last() == name@);
            assert(out@ =~= start + py_struct_blocks(sub, tv));
        }
        i += 1;
    }
    proof {
        assert(ov.subrange(0, ov.len() as int) =~= ov);
    }
    out
}

fn write_descriptor_lines(out: &mut String, types: &Vec<&ObjectType>)
    ensures
        final(out)@ == old(out)@ + descriptor_lines(type_refs_view(types@)),
{
    let ghost start = out@;
    let ghost tv = type_refs_view(types@);
    let mut i: usize = 0;
    proof {
        assert(tv.subrange(0, 0) =~= Seq::<ObjectType>::empty());
        assert(out@ =~= start + descriptor_lines(tv.subrange(0, 0)));
    }
    while i < types.len()
        invariant
            i <= types@.len(),
            tv == type_refs_view(types@),
            start == old(out)@,
            out@ == start + descriptor_lines(tv.subrange(0, i as int)),
        decreases types@.len() - i,
    {
        out.append("            ");
        let d = type_to_pytype(types[i]);
        out.append(d.as_str());
        out.append(",\n");
        proof {
            let sub = tv.subrange(0, i + 1);
            assert(sub.drop_last() =~= tv.subrange(0, i as int));
            assert(sub.last() == tv[i as int]);
            assert(out@ =~= start + descriptor_lines(sub));
        }
        i += 1;
    }
    proof {
        assert(tv.subrange(0, tv.len() as int) =~= tv);
    }
}

/// `a`, `b` and `c` are the states package, enums module and structs
/// module of the Python bindings of `states`.
pub open spec fn py_files(states: StateType, version_hash: u64, a: Seq<char>, b: Seq<char>, c: Seq<char>) -> bool {
    let tables = catalog_of(leaf_states(states))->Ok_0;
    let info = py_type_info(leaf_states(states));
    &&& a == py_states_text(states->SubState_1@, states->SubState_2@, version_hash, info.0, info.1)
    &&& b == py_enums_text(tables.0)
    &&& c == py_structs_text(tables.1)
}

/// The bindings are fixed by the states and the version hash: two
/// renderings of the same states give the same three files, byte for byte.
pub proof fn lemma_python_files_fixed(
    states: StateType,
    version_hash: u64,
    a: Seq<char>,
    b: Seq<char>,
    c: Seq<char>,
    a2: Seq<char>,
    b2: Seq<char>,
    c2: Seq<char>,
)
    requires
        py_files(states, version_hash, a, b, c),
        py_files(states, version_hash, a2, b2, c2),
    ensures
        a == a2 && b == b2 && c == c2,
{
}

/// Renders the typed Python server bindings of the states under the root
/// class `states`: the states package, the enums module and the structs
/// module. The states must pass [`validate_states`] and their enums and
/// structs must each be defined one way ([`catalog_of`]); otherwise the
/// error is returned.
pub fn render_python(states: &StateType, version_hash: u64) -> (res: Result<(String, String, String), String>)
    requires
        py_fits_state(*states, py_type_info(leaf_states(*states)).1),
    ensures
        res is Ok <==> bindings_valid(*states),
        res matches Ok((a, b, c)) ==> py_files(*states, version_hash, a@, b@, c@),
        !states_valid(*states) ==> (res matches Err(e) && e@ == validation_error(*states)),
        states_valid(*states) ==> (catalog_of(leaf_states(*states)) matches Err(m) ==> res matches Err(e) && e@ == m),
{
    match validate_states(states) {
        Ok(()) => {},
        Err(e) => {
            return Err(e);
        },
    }
    let (root, children) = match states {
        StateType::SubState(_, c, ch) => (c, ch),
        _ => {
            return Err(text("Root state must be a SubState"));
        },
    };
    let mut leaves: Vec<&StateType> = Vec::new();
    proof {
        assert(refs_view(leaves@) =~= Seq::<StateType>::empty());
    }
    collect_leaves(states, &mut leaves);
    proof {
        assert(refs_view(leaves@) =~= leaf_states(*states));
    }
    let (enums, structs) = match catalog(&leaves) {
        Ok(t) => t,
        Err(e) => {
            return Err(e);
        },
    };
    let (types, entries) = process_type_info(&leaves);
    let enums_output = py_enums(&enums);
    let structs_output = py_structs(&structs);
    let mut out = text(
        "# Generated by build.rs, do not edit\n# ruff: noqa: D101 D107 E501\nfrom __future__ import annotations\n\nfrom collections.abc import Callable\n\nimport numpy as np\n\nimport egui_states.structures as s\nfrom egui_states.server import StatesBase, StateServerBase\nfrom egui_states.structures import ISubStates\n\nfrom . import enums, structs\n",
    );
    let mut used: Vec<&String> = Vec::new();
    proof {
        assert(names_view(used@) =~= Seq::<Seq<char>>::empty());
    }
    write_sub_states(&mut out, children, &entries, &mut used);
    out.append("\n\nclass ");
    out.append(root.as_str());
    out.append("(StatesBase):\n    @staticmethod\n    def _get_obj_types() -> list[s.PyObjectType]:\n        return [\n");
    write_descriptor_lines(&mut out, &types);
    out.append(
        "        ]\n\n    def __init__(self, server: StateServerBase):\n        super().__init__(server)\n        parent = \"root\"\n",
    );
    write_lines(&mut out, children, &entries);
    out.append("\n\nclass StatesServer(StateServerBase[");
    out.append(root.as_str());
    out.append("]):\n    \"\"\"The main class for the StateServer for UI.\"\"\"\n\n    VERSION_HASH: int = ");
    push_decimal(&mut out, version_hash);
    out.append("\n\n    def __init__(\n        self,\n        port: int,\n        signals_workers: int = 3,\n        error_handler: Callable[[Exception], None] | None = None,\n        ip_addr: tuple[int, int, int, int] | None = None,\n        version: int | None = None,\n        token: str | None = None,\n    ) -> None:\n        \"\"\"Initialize the StateServer.\n\n        Args:\n            port (int): The port to listen on.\n            signals_workers (int, optional): Number of workers for signal processing. Defaults to 3.\n            error_handler (Callable[[Exception], None] | None, optional): Error handler function. Defaults to None.\n            ip_addr (tuple[int, int, int, int] | None, optional): IP address to bind to. Defaults to None.\n            version (int, optional): The optional version number for client connection.\n            token (str, optional): The optional token string for client connection.\n        \"\"\"\n        super().__init__(");
    out.append(root.as_str());
    out.append(", port, signals_workers, error_handler, ip_addr, version, token)\n");
    proof {
        assert(out@ =~= py_states_text(root@, children@, version_hash, type_refs_view(types@), entries_view(entries@)));
    }
    Ok((out, enums_output, structs_output))
}

fn state_fits(st: &StateType, entries: &Vec<(&String, TypeIndex)>) -> (r: bool)
    ensures
        r == py_state_fits(*st, entries_view(entries@)),
{
    let single = |name: &String| -> (b: bool)
        ensures
            b == (index_lookup(entries_view(entries@), name@) matches Some(TypeIndex::Single(_))),
        {
            match find_index(entries, name) {
                Some(TypeIndex::Single(_)) => true,
                _ => false,
            }
        };
    match st {
        StateType::Value(n, t, i, _) => py_value_fits(i, t) && single(n),
        StateType::Static(n, t, i) => py_value_fits(i, t) && single(n),
        StateType::ValueTake(n, _) => single(n),
        StateType::Signal(n, _, _) => single(n),
        StateType::ValueVec(n, _) => single(n),
        StateType::ValueMap(n, _, _) => match find_index(entries, n) {
            Some(TypeIndex::Pair(_, _)) => true,
            _ => false,
        },
        _ => true,
    }
}

fn tree_fits(s: &StateType, entries: &Vec<(&String, TypeIndex)>) -> (r: bool)
    ensures
        r == py_fits_state(*s, entries_view(entries@)),
    decreases s,
{
    let ghost ev = entries_view(entries@);
    match s {
        StateType::SubState(_, _, children) => {
            let mut i: usize = 0;
            proof {
                assert(children@.subrange(0, 0) =~= Seq::<StateType>::empty());
            }
            while i < children.len()
                invariant
                    i <= children@.len(),
                    ev == entries_view(entries@),
                    *s == StateType::SubState(s->SubState_0, s->SubState_1, *children),
                    py_fits_all(children@.subrange(0, i as int), ev),
                decreases children@.len() - i,
            {
                proof {
                    assert(decreases_to!(*s => (*s)->SubState_2));
                    assert(decreases_to!(*children => children@));
                    assert(decreases_to!(children@ => children@[i as int]));
                    let sub = children@.subrange(0, i + 1);
                    assert(sub.drop_last() =~= children@.subrange(0, i as int));
                    assert(sub.last() == children@[i as int]);
                }
                if !tree_fits(&children[i], entries) {
                    proof {
                        lemma_py_fits_prefix(children@, ev, (i + 1) as nat);
                    }
                    return false;
                }
                i += 1;
            }
            proof {
                assert(children@.subrange(0, children@.len() as int) =~= children@);
            }
            true
        },
        _ => state_fits(s, entries),
    }
}

proof fn lemma_py_fits_prefix(ss: Seq<StateType>, entries: Seq<(Seq<char>, TypeIndex)>, n: nat)
    requires
        n <= ss.len(),
        !py_fits_all(ss.subrange(0, n as int), entries),
    ensures
        !py_fits_all(ss, entries),
    decreases ss.len() - n,
{
    if n < ss.len() {
        let sub = ss.subrange(0, (n + 1) as int);
        assert(sub.drop_last() =~= ss.subrange(0, n as int));
        lemma_py_fits_prefix(ss, entries, n + 1);
    } else {
        assert(ss.subrange(0, n as int) =~= ss);
    }
}

/// Whether every state under `states` finds what its line in the Python
/// bindings needs (see [`py_state_fits`]).
pub fn python_states_fit(states: &StateType) -> (r: bool)
    ensures
        r == py_fits_state(*states, py_type_info(leaf_states(*states)).1),
{
    let mut leaves: Vec<&StateType> = Vec::new();
    proof {
        assert(refs_view(leaves@) =~= Seq::<StateType>::empty());
    }
    collect_leaves(states, &mut leaves);
    proof {
        assert(refs_view(leaves@) =~= leaf_states(*states));
    }
    let (_, entries) = process_type_info(&leaves);
    tree_fits(states, &entries)
}

/// The files of the typed Python server bindings of the states under the
/// root class `states`, each with its name, as [`render_python`] renders
/// them; writing them out is left to the caller. As the bindings are built,
/// the states are validated, then their enums and structs collected, then
/// their lines written, and the first failure is returned.
pub fn generate_python(states: &StateType, version_hash: u64) -> (res: Result<Vec<(String, String)>, String>)
    ensures
        res is Ok <==> bindings_valid(*states) && py_fits_state(*states, py_type_info(leaf_states(*states)).1),
        res matches Ok(files) ==> files@.len() == 3 && files@[0].0@ == "__init__.py"@ && files@[1].0@ == "enums.py"@
            && files@[2].0@ == "structs.py"@ && py_files(*states, version_hash, files@[0].1@, files@[1].1@, files@[2].1@),
        !states_valid(*states) ==> (res matches Err(e) && e@ == validation_error(*states)),
        states_valid(*states) ==> (catalog_of(leaf_states(*states)) matches Err(m) ==> res matches Err(e) && e@ == m),
        bindings_valid(*states) && !py_fits_state(*states, py_type_info(leaf_states(*states)).1) ==> (res matches Err(e)
            && e@ == "Mismatched InitValue and ObjectType"@),
{
    match validate_states(states) {
        Ok(()) => {},
        Err(e) => {
            return Err(e);
        },
    }
    let mut leaves: Vec<&StateType> = Vec::new();
    proof {
        assert(refs_view(leaves@) =~= Seq::<StateType>::empty());
    }
    collect_leaves(states, &mut leaves);
    proof {
        assert(refs_view(leaves@) =~= leaf_states(*states));
    }
    match catalog(&leaves) {
        Ok(_) => {},
        Err(e) => {
            return Err(e);
        },
    }
    if !python_states_fit(states) {
        return Err(text("Mismatched InitValue and ObjectType"));
    }
    match render_python(states, version_hash) {
        Ok((a, b, c)) => {
            let mut files: Vec<(String, String)> = Vec::new();
            files.push((text("__init__.py"), a));
            files.push((text("enums.py"), b));
            files.push((text("structs.py"), c));
            Ok(files)
        },
        Err(e) => Err(e),
    }
}

} // verus!
