use vstd::prelude::*;

use crate::catalog::{lemma_name_less_strict, lemma_name_less_total, lemma_name_less_trans, name_less, name_lt};
use crate::codegen::{text, wrapped, InitValue};
use crate::render_values::{debug_quoted, quoted};
use crate::text::{decimal, i64_to_text, signed_decimal, u64_to_text};

verus! {

broadcast use vstd::seq_lib::group_to_multiset_ensures;

/// The kind of a map key, in the order in which map keys sort: booleans,
/// then integers, then texts, then anything else.
pub open spec fn key_rank(k: InitValue) -> int {
    match k {
        InitValue::Bool(_) => 0,
        InitValue::U8(_) => 1,
        InitValue::U16(_) => 1,
        InitValue::U32(_) => 1,
        InitValue::U64(_) => 1,
        InitValue::I8(_) => 1,
        InitValue::I16(_) => 1,
        InitValue::I32(_) => 1,
        InitValue::I64(_) => 1,
        InitValue::String(_) => 2,
        InitValue::Enum(_) => 2,
        _ => 3,
    }
}

/// The number a boolean or integer key sorts by (`false` before `true`).
pub open spec fn key_number(k: InitValue) -> int {
    match k {
        InitValue::Bool(b) => if b {
            1
        } else {
            0
        },
        InitValue::U8(x) => x as int,
        InitValue::U16(x) => x as int,
        InitValue::U32(x) => x as int,
        InitValue::U64(x) => x as int,
        InitValue::I8(x) => x as int,
        InitValue::I16(x) => x as int,
        InitValue::I32(x) => x as int,
        InitValue::I64(x) => x as int,
        _ => 0,
    }
}

/// The text a key sorts by: a text key's own text, and for a key of any
/// other kind that is no boolean or integer, its [`debug_text`].
pub open spec fn key_text(k: InitValue) -> Seq<char> {
    match k {
        InitValue::String(s) => s@,
        InitValue::Enum(s) => s@,
        _ => if key_rank(k) == 3 {
            debug_text(k)
        } else {
            Seq::empty()
        },
    }
}

/// A fixed text for an initial value, in the form `Debug` gives it, such as
/// `Tuple([U8(1), Bool(true)])`, `Option(None)` or
/// `Struct("Point", [("x", I32(-1))])`; a map is written `Map([(key, value)])`
/// and a float by its own printed form.
pub open spec fn debug_text(v: InitValue) -> Seq<char>
    decreases v, 0nat,
{
    match v {
        InitValue::U8(x) => "U8("@ + decimal(x as nat) + ")"@,
        InitValue::U16(x) => "U16("@ + decimal(x as nat) + ")"@,
        InitValue::U32(x) => "U32("@ + decimal(x as nat) + ")"@,
        InitValue::U64(x) => "U64("@ + decimal(x as nat) + ")"@,
        InitValue::I8(x) => "I8("@ + signed_decimal(x as int) + ")"@,
        InitValue::I16(x) => "I16("@ + signed_decimal(x as int) + ")"@,
        InitValue::I32(x) => "I32("@ + signed_decimal(x as int) + ")"@,
        InitValue::I64(x) => "I64("@ + signed_decimal(x as int) + ")"@,
        InitValue::F64(_, t) => "F64("@ + t.debug@ + ")"@,
        InitValue::F32(_, t) => "F32("@ + t.debug@ + ")"@,
        InitValue::String(s) => "String("@ + debug_quoted(s@) + ")"@,
        InitValue::Bool(b) => if b {
            "Bool(true)"@
        } else {
            "Bool(false)"@
        },
        InitValue::Enum(s) => "Enum("@ + debug_quoted(s@) + ")"@,
        InitValue::Option(o) => match o {
            Some(p) => "Option(Some("@ + debug_text(*p) + "))"@,
            None => "Option(None)"@,
        },
        InitValue::Struct(n, f) => "Struct("@ + debug_quoted(n@) + ", ["@ + debug_fields(f@) + "])"@,
        InitValue::Tuple(x) => "Tuple(["@ + debug_list(x@) + "])"@,
        InitValue::List(x) => "List(["@ + debug_list(x@) + "])"@,
        InitValue::Vec(x) => "Vec(["@ + debug_list(x@) + "])"@,
        InitValue::Dict(x) => "Map(["@ + debug_pairs(x@) + "])"@,
    }
}

/// The [`debug_text`] of each value, separated by `", "`.
pub open spec fn debug_list(a: Seq<InitValue>) -> Seq<char>
    decreases a, a.len(),
{
    if a.len() == 0 {
        Seq::empty()
    } else if a.len() == 1 {
        debug_text(a.last())
    } else {
        debug_list(a.drop_last()) + ", "@ + debug_text(a.last())
    }
}

/// Each named field as `("name", value)`, separated by `", "`.
pub open spec fn debug_fields(a: Seq<(String, InitValue)>) -> Seq<char>
    decreases a, a.len(),
{
    if a.len() == 0 {
        Seq::empty()
    } else if a.len() == 1 {
        "("@ + debug_quoted(a.last().0@) + ", "@ + debug_text(a.last().1) + ")"@
    } else {
        debug_fields(a.drop_last()) + ", "@ + ("("@ + debug_quoted(a.last().0@) + ", "@ + debug_text(a.last().1) + ")"@)
    }
}

/// Each (key, value) pair as `(key, value)`, separated by `", "`.
pub open spec fn debug_pairs(a: Seq<(InitValue, InitValue)>) -> Seq<char>
    decreases a, a.len(),
{
    if a.len() == 0 {
        Seq::empty()
    } else if a.len() == 1 {
        "("@ + debug_text(a.last().0) + ", "@ + debug_text(a.last().1) + ")"@
    } else {
        debug_pairs(a.drop_last()) + ", "@ + ("("@ + debug_text(a.last().0) + ", "@ + debug_text(a.last().1) + ")"@)
    }
}

/// Whether map key `a` sorts before map key `b`: by kind, then numerically
/// (integers of all widths together), then by text: keys of other kinds
/// compare by their [`debug_text`], so that their order does not depend on
/// the order in which they come.
pub open spec fn key_before(a: InitValue, b: InitValue) -> bool {
    ||| key_rank(a) < key_rank(b)
    ||| key_rank(a) == key_rank(b) && key_number(a) < key_number(b)
    ||| key_rank(a) == key_rank(b) && key_number(a) == key_number(b) && name_less(key_text(a), key_text(b))
}

/// A map entry: key and value.
pub type Entry = (InitValue, InitValue);

/// `s`, sorted, with `e` put after every entry whose key does not sort after
/// its key.
pub open spec fn insert_entry(s: Seq<Entry>, e: Entry) -> Seq<Entry>
    decreases s.len(),
{
    if s.len() == 0 {
        seq![e]
    } else if key_before(e.0, s.last().0) {
        insert_entry(s.drop_last(), e).push(s.last())
    } else {
        s.push(e)
    }
}

/// The entries ordered by key; entries whose keys tie keep their order.
pub open spec fn sort_entries(s: Seq<Entry>) -> Seq<Entry>
    decreases s.len(),
{
    if s.len() == 0 {
        Seq::empty()
    } else {
        insert_entry(sort_entries(s.drop_last()), s.last())
    }
}

/// No entry's key sorts before the key of an entry ahead of it.
pub open spec fn entries_ordered(s: Seq<Entry>) -> bool {
    forall|i: int, j: int| 0 <= i < j < s.len() ==> !key_before(#[trigger] s[j].0, #[trigger] s[i].0)
}

/// No two entries have keys that tie.
pub open spec fn keys_distinct(s: Seq<Entry>) -> bool {
    forall|i: int, j: int|
        0 <= i < s.len() && 0 <= j < s.len() && i != j ==> key_before(#[trigger] s[i].0, #[trigger] s[j].0)
            || key_before(s[j].0, s[i].0)
}

proof fn lemma_key_irreflexive(a: InitValue)
    ensures
        !key_before(a, a),
{
    lemma_name_less_strict(key_text(a), key_text(a));
}

proof fn lemma_key_asymmetric(a: InitValue, b: InitValue)
    ensures
        key_before(a, b) ==> !key_before(b, a),
{
    lemma_name_less_strict(key_text(a), key_text(b));
}

proof fn lemma_key_transitive(a: InitValue, b: InitValue, c: InitValue)
    requires
        key_before(a, b),
        key_before(b, c),
    ensures
        key_before(a, c),
{
    if key_rank(a) == key_rank(b) && key_rank(b) == key_rank(c) && key_number(a) == key_number(b) && key_number(b)
        == key_number(c) {
        lemma_name_less_trans(key_text(a), key_text(b), key_text(c));
    }
}

/// Whatever sorts between two keys: `a` before `c` means `a` before `b` or
/// `b` before `c`.
proof fn lemma_key_between(a: InitValue, b: InitValue, c: InitValue)
    requires
        key_before(a, c),
    ensures
        key_before(a, b) || key_before(b, c),
{
    lemma_name_less_total(key_text(a), key_text(b));
    lemma_name_less_total(key_text(b), key_text(c));
    if !key_before(a, b) && !key_before(b, c) {
        if key_before(b, a) {
            lemma_key_transitive(b, a, c);
        }
        if key_rank(a) == key_rank(b) && key_number(a) == key_number(b) && key_text(a) == key_text(b) {
            assert(key_before(b, c));
        }
    }
}

/// Inserting where the loop of [`insert_entry`] stops.
proof fn lemma_insert_at(s: Seq<Entry>, e: Entry, i: int)
    requires
        0 <= i <= s.len(),
        forall|j: int| i <= j < s.len() ==> key_before(e.0, #[trigger] s[j].0),
        i > 0 ==> !key_before(e.0, s[i - 1].0),
    ensures
        insert_entry(s, e) == s.insert(i, e),
    decreases s.len(),
{
    if s.len() == 0 {
        assert(s.insert(i, e) =~= seq![e]);
    } else if i == s.len() {
        assert(s.insert(i, e) =~= s.push(e));
    } else {
        let t = s.drop_last();
        assert(key_before(e.0, s[s.len() - 1].0));
        assert forall|j: int| i <= j < t.len() implies key_before(e.0, #[trigger] t[j].0) by {
            assert(t[j] == s[j]);
        }
        if i > 0 {
            assert(t[i - 1] == s[i - 1]);
        }
        lemma_insert_at(t, e, i);
        assert(s.insert(i, e) =~= t.insert(i, e).push(s.last()));
    }
}

/// Where [`insert_entry`] puts the new entry.
pub open spec fn insert_pos(s: Seq<Entry>, e: Entry) -> int
    decreases s.len(),
{
    if s.len() == 0 {
        0
    } else if key_before(e.0, s.last().0) {
        insert_pos(s.drop_last(), e)
    } else {
        s.len() as int
    }
}

proof fn lemma_insert_pos(s: Seq<Entry>, e: Entry)
    ensures
        0 <= insert_pos(s, e) <= s.len(),
        forall|j: int| insert_pos(s, e) <= j < s.len() ==> key_before(e.0, #[trigger] s[j].0),
        insert_pos(s, e) > 0 ==> !key_before(e.0, s[insert_pos(s, e) - 1].0),
    decreases s.len(),
{
    if s.len() > 0 && key_before(e.0, s.last().0) {
        let t = s.drop_last();
        lemma_insert_pos(t, e);
        let p = insert_pos(t, e);
        assert forall|j: int| p <= j < s.len() implies key_before(e.0, #[trigger] s[j].0) by {
            if j < t.len() {
                assert(t[j] == s[j]);
            }
        }
        if p > 0 {
            assert(t[p - 1] == s[p - 1]);
        }
    }
}

/// Inserting into ordered entries keeps them ordered, and adds the entry.
proof fn lemma_insert_entry(s: Seq<Entry>, e: Entry)
    requires
        entries_ordered(s),
    ensures
        entries_ordered(insert_entry(s, e)),
        insert_entry(s, e).to_multiset() == s.to_multiset().insert(e),
{
    lemma_insert_pos(s, e);
    let p = insert_pos(s, e);
    lemma_insert_at(s, e, p);
    let r = s.insert(p, e);
    s.insert_ensures(p, e);
    assert forall|i: int, j: int| 0 <= i < j < r.len() implies !key_before(#[trigger] r[j].0, #[trigger] r[i].0) by {
        if j < p {
            assert(r[i] == s[i] && r[j] == s[j]);
        } else if j == p {
            assert(r[i] == s[i]);
            if i < p - 1 {
                assert(!key_before(s[p - 1].0, s[i].0));
                if key_before(e.0, s[i].0) {
                    lemma_key_between(e.0, s[p - 1].0, s[i].0);
                }
            }
        } else if i == p {
            assert(r[j] == s[j - 1]);
            lemma_key_asymmetric(e.0, s[j - 1].0);
        } else if i < p {
            assert(r[i] == s[i] && r[j] == s[j - 1]);
        } else {
            assert(r[i] == s[i - 1] && r[j] == s[j - 1]);
        }
    }
}

/// Sorting gives ordered entries, and the same entries.
pub proof fn lemma_sort_entries(s: Seq<Entry>)
    ensures
        entries_ordered(sort_entries(s)),
        sort_entries(s).to_multiset() == s.to_multiset(),
    decreases s.len(),
{
    if s.len() > 0 {
        let t = s.drop_last();
        lemma_sort_entries(t);
        lemma_insert_entry(sort_entries(t), s.last());
        assert(t.push(s.last()) =~= s);
    }
}

/// Each key sorts before the keys after it.
pub open spec fn strictly_ordered(s: Seq<Entry>) -> bool {
    forall|i: int, j: int| 0 <= i < j < s.len() ==> key_before(#[trigger] s[i].0, #[trigger] s[j].0)
}

/// Strictly ordered entries are determined by which entries they are.
proof fn lemma_strictly_ordered_unique(a: Seq<Entry>, b: Seq<Entry>)
    requires
        strictly_ordered(a),
        strictly_ordered(b),
        a.to_multiset() == b.to_multiset(),
    ensures
        a == b,
    decreases a.len(),
{
    broadcast use vstd::multiset::group_multiset_axioms;

    if a.len() == 0 {
        assert(b.to_multiset().len() == 0);
        assert(b =~= a);
    } else {
        assert(b.len() == a.len()) by {
            assert(a.to_multiset().len() == a.len());
            assert(b.to_multiset().len() == b.len());
        }
        assert(a.to_multiset().count(a[0]) > 0) by {
            assert(a.contains(a[0]));
        }
        assert(b.contains(a[0]));
        let k = choose|k: int| 0 <= k < b.len() && b[k] == a[0];
        assert(b.to_multiset().count(b[0]) > 0) by {
            assert(b.contains(b[0]));
        }
        assert(a.contains(b[0]));
        let m = choose|m: int| 0 <= m < a.len() && a[m] == b[0];
        if a[0] != b[0] {
            assert(k > 0 && m > 0);
            assert(key_before(b[0].0, b[k].0));
            assert(key_before(a[0].0, a[m].0));
            lemma_key_asymmetric(a[0].0, b[0].0);
        }
        let a1 = a.remove(0);
        let b1 = b.remove(0);
        assert(a1 =~= a.drop_first());
        assert(b1 =~= b.drop_first());
        assert(a1.to_multiset() == a.to_multiset().remove(a[0]));
        assert(b1.to_multiset() == b.to_multiset().remove(b[0]));
        assert forall|i: int, j: int| 0 <= i < j < a1.len() implies key_before(#[trigger] a1[i].0, #[trigger] a1[j].0) by {
            assert(a1[i] == a[i + 1] && a1[j] == a[j + 1]);
        }
        assert forall|i: int, j: int| 0 <= i < j < b1.len() implies key_before(#[trigger] b1[i].0, #[trigger] b1[j].0) by {
            assert(b1[i] == b[i + 1] && b1[j] == b[j + 1]);
        }
        lemma_strictly_ordered_unique(a1, b1);
        assert(a =~= seq![a[0]] + a1);
        assert(b =~= seq![b[0]] + b1);
    }
}

/// Ordered entries that are the entries of `a`, no two of whose keys tie,
/// are strictly ordered.
proof fn lemma_strictly_ordered(a: Seq<Entry>, r: Seq<Entry>)
    requires
        keys_distinct(a),
        entries_ordered(r),
        r.to_multiset() == a.to_multiset(),
    ensures
        strictly_ordered(r),
{
    broadcast use vstd::multiset::group_multiset_axioms;

    assert forall|i: int, j: int| 0 <= i < a.len() && 0 <= j < a.len() && i != j implies a[i] != a[j] by {
        if a[i] == a[j] {
            lemma_key_irreflexive(a[i].0);
        }
    }
    assert(a.no_duplicates());
    a.lemma_multiset_has_no_duplicates();
    r.lemma_multiset_has_no_duplicates_conv();
    assert forall|i: int, j: int| 0 <= i < j < r.len() implies key_before(#[trigger] r[i].0, #[trigger] r[j].0) by {
        assert(r.contains(r[i]) && r.contains(r[j]));
        assert(r.to_multiset().count(r[i]) > 0 && r.to_multiset().count(r[j]) > 0);
        assert(a.contains(r[i]) && a.contains(r[j]));
        let p = choose|p: int| 0 <= p < a.len() && a[p] == r[i];
        let q = choose|q: int| 0 <= q < a.len() && a[q] == r[j];
        assert(r[i] != r[j]);
        assert(p != q);
        assert(key_before(a[p].0, a[q].0) || key_before(a[q].0, a[p].0));
        assert(!key_before(r[j].0, r[i].0));
    }
}

/// Two maps with the same entries, no two of whose keys tie, sort to the
/// same entries in the same order, whatever order their entries came in.
pub proof fn lemma_same_entries_same_order(a: Seq<Entry>, b: Seq<Entry>)
    requires
        keys_distinct(a),
        a.to_multiset() == b.to_multiset(),
    ensures
        sort_entries(a) == sort_entries(b),
{
    lemma_sort_entries(a);
    lemma_sort_entries(b);
    lemma_strictly_ordered(a, sort_entries(a));
    lemma_strictly_ordered(a, sort_entries(b));
    lemma_strictly_ordered_unique(sort_entries(a), sort_entries(b));
}

fn key_rank_of(k: &InitValue) -> (r: u8)
    ensures
        r == key_rank(*k),
{
    match k {
        InitValue::Bool(_) => 0,
        InitValue::U8(_) | InitValue::U16(_) | InitValue::U32(_) | InitValue::U64(_) => 1,
        InitValue::I8(_) | InitValue::I16(_) | InitValue::I32(_) | InitValue::I64(_) => 1,
        InitValue::String(_) | InitValue::Enum(_) => 2,
        _ => 3,
    }
}

fn key_number_of(k: &InitValue) -> (r: i128)
    ensures
        r == key_number(*k),
{
    match k {
        InitValue::Bool(b) => if *b {
            1
        } else {
            0
        },
        InitValue::U8(x) => *x as i128,
        InitValue::U16(x) => *x as i128,
        InitValue::U32(x) => *x as i128,
        InitValue::U64(x) => *x as i128,
        InitValue::I8(x) => *x as i128,
        InitValue::I16(x) => *x as i128,
        InitValue::I32(x) => *x as i128,
        InitValue::I64(x) => *x as i128,
        _ => 0,
    }
}

/// Whether map key `a` sorts before map key `b` (see [`key_before`]).
pub fn map_key_before(a: &InitValue, b: &InitValue) -> (r: bool)
    ensures
        r == key_before(*a, *b),
{
    let ra = key_rank_of(a);
    let rb = key_rank_of(b);
    if ra != rb {
        return ra < rb;
    }
    let na = key_number_of(a);
    let nb = key_number_of(b);
    if na != nb {
        return na < nb;
    }
    match (a, b) {
        (InitValue::String(x), InitValue::String(y)) => name_lt(x, y),
        (InitValue::String(x), InitValue::Enum(y)) => name_lt(x, y),
        (InitValue::Enum(x), InitValue::String(y)) => name_lt(x, y),
        (InitValue::Enum(x), InitValue::Enum(y)) => name_lt(x, y),
        _ => if ra == 3 {
            let da = debug_string(a);
            let db = debug_string(b);
            name_lt(&da, &db)
        } else {
            false
        },
    }
}

/// The [`debug_text`] of `v`.
pub fn debug_string(v: &InitValue) -> (r: String)
    ensures
        r@ == debug_text(*v),
    decreases v,
{
    match v {
        InitValue::U8(x) => wrapped("U8(", u64_to_text(*x as u64), ")"),
        InitValue::U16(x) => wrapped("U16(", u64_to_text(*x as u64), ")"),
        InitValue::U32(x) => wrapped("U32(", u64_to_text(*x as u64), ")"),
        InitValue::U64(x) => wrapped("U64(", u64_to_text(*x), ")"),
        InitValue::I8(x) => wrapped("I8(", i64_to_text(*x as i64), ")"),
        InitValue::I16(x) => wrapped("I16(", i64_to_text(*x as i64), ")"),
        InitValue::I32(x) => wrapped("I32(", i64_to_text(*x as i64), ")"),
        InitValue::I64(x) => wrapped("I64(", i64_to_text(*x), ")"),
        InitValue::F64(_, t) => wrapped("F64(", text(t.debug.as_str()), ")"),
        InitValue::F32(_, t) => wrapped("F32(", text(t.debug.as_str()), ")"),
        InitValue::String(x) => wrapped("String(", quoted(x.as_str()), ")"),
        InitValue::Bool(b) => if *b {
            text("Bool(true)")
        } else {
            text("Bool(false)")
        },
        InitValue::Enum(x) => wrapped("Enum(", quoted(x.as_str()), ")"),
        InitValue::Option(o) => match o {
            Some(p) => {
                proof {
                    assert(decreases_to!(*v => (*v)->Option_0));
                }
                wrapped("Option(Some(", debug_string(p), "))")
            },
            None => text("Option(None)"),
        },
        InitValue::Struct(n, f) => {
            proof {
                assert(decreases_to!(*v => (*v)->Struct_1));
            }
            let mut r = wrapped("Struct(", quoted(n.as_str()), ", [");
            let inner = debug_fields_string(f);
            r.append(inner.as_str());
            r.append("])");
            r
        },
        InitValue::Tuple(x) => {
            proof {
                assert(decreases_to!(*v => (*v)->Tuple_0));
            }
            wrapped("Tuple([", debug_list_string(x), "])")
        },
        InitValue::List(x) => {
            proof {
                assert(decreases_to!(*v => (*v)->List_0));
            }
            wrapped("List([", debug_list_string(x), "])")
        },
        InitValue::Vec(x) => {
            proof {
                assert(decreases_to!(*v => (*v)->Vec_0));
            }
            wrapped("Vec([", debug_list_string(x), "])")
        },
        InitValue::Dict(x) => {
            proof {
                assert(decreases_to!(*v => (*v)->Dict_0));
            }
            wrapped("Map([", debug_pairs_string(x), "])")
        },
    }
}

/// The [`debug_list`] of `x`.
fn debug_list_string(x: &Vec<InitValue>) -> (r: String)
    ensures
        r@ == debug_list(x@),
    decreases x@,
{
    let mut r = String::new();
    let mut i: usize = 0;
    while i < x.len()
        invariant
            i <= x@.len(),
            r@ == debug_list(x@.subrange(0, i as int)),
        decreases x@.len() - i,
    {
        proof {
            assert(decreases_to!(x@ => x@[i as int]));
        }
        let d = debug_string(&x[i]);
        let ghost before = r@;
        if i > 0 {
            r.append(", ");
        }
        r.append(d.as_str());
        proof {
            let t = x@.subrange(0, i + 1);
            assert(t.drop_last() =~= x@.subrange(0, i as int));
            assert(t.last() == x@[i as int]);
            assert(d@ == debug_text(t.last()));
            if i == 0 {
                assert(before =~= Seq::<char>::empty());
                assert(r@ =~= d@);
                assert(t.len() == 1);
                assert(debug_list(t) == debug_text(t.last()));
            } else {
                assert(r@ =~= before + ", "@ + d@);
                assert(debug_list(t) == debug_list(t.drop_last()) + ", "@ + debug_text(t.last()));
            }
            assert(r@ =~= debug_list(t));
        }
        i += 1;
    }
    proof {
        assert(x@.subrange(0, x@.len() as int) =~= x@);
    }
    r
}

/// The [`debug_fields`] of `x`.
fn debug_fields_string(x: &Vec<(String, InitValue)>) -> (r: String)
    ensures
        r@ == debug_fields(x@),
    decreases x@,
{
    let mut r = String::new();
    let mut i: usize = 0;
    while i < x.len()
        invariant
            i <= x@.len(),
            r@ == debug_fields(x@.subrange(0, i as int)),
        decreases x@.len() - i,
    {
        proof {
            assert(decreases_to!(x@ => x@[i as int]));
            assert(decreases_to!(x@[i as int] => x@[i as int].1));
        }
        let mut d = wrapped("(", quoted(x[i].0.as_str()), ", ");
        let value = debug_string(&x[i].1);
        d.append(value.as_str());
        d.append(")");
        let ghost before = r@;
        if i > 0 {
            r.append(", ");
        }
        r.append(d.as_str());
        proof {
            let t = x@.subrange(0, i + 1);
            assert(t.drop_last() =~= x@.subrange(0, i as int));
            assert(t.last() == x@[i as int]);
            if i == 0 {
                assert(before =~= Seq::<char>::empty());
                assert(r@ =~= d@);
            } else {
                assert(r@ =~= before + ", "@ + d@);
            }
            assert(r@ =~= debug_fields(t));
        }
        i += 1;
    }
    proof {
        assert(x@.subrange(0, x@.len() as int) =~= x@);
    }
    r
}

/// The [`debug_pairs`] of `x`.
fn debug_pairs_string(x: &Vec<(InitValue, InitValue)>) -> (r: String)
    ensures
        r@ == debug_pairs(x@),
    decreases x@,
{
    let mut r = String::new();
    let mut i: usize = 0;
    while i < x.len()
        invariant
            i <= x@.len(),
            r@ == debug_pairs(x@.subrange(0, i as int)),
        decreases x@.len() - i,
    {
        proof {
            assert(decreases_to!(x@ => x@[i as int]));
            assert(decreases_to!(x@[i as int] => x@[i as int].0));
            assert(decreases_to!(x@[i as int] => x@[i as int].1));
        }
        let key = debug_string(&x[i].0);
        let mut d = wrapped("(", key, ", ");
        let value = debug_string(&x[i].1);
        d.append(value.as_str());
        d.append(")");
        let ghost before = r@;
        if i > 0 {
            r.append(", ");
        }
        r.append(d.as_str());
        proof {
            let t = x@.subrange(0, i + 1);
            assert(t.drop_last() =~= x@.subrange(0, i as int));
            assert(t.last() == x@[i as int]);
            if i == 0 {
                assert(before =~= Seq::<char>::empty());
                assert(r@ =~= d@);
            } else {
                assert(r@ =~= before + ", "@ + d@);
            }
            assert(r@ =~= debug_pairs(t));
        }
        i += 1;
    }
    proof {
        assert(x@.subrange(0, x@.len() as int) =~= x@);
    }
    r
}

/// Puts `e` into the ordered entries `v` (see [`insert_entry`]).
fn insert_sorted_entry(v: &mut Vec<Entry>, e: Entry)
    ensures
        final(v)@ == insert_entry(old(v)@, e),
{
    let mut i = v.len();
    while i > 0 && map_key_before(&e.0, &v[i - 1].0)
        invariant
            i <= v.len(),
            v@ == old(v)@,
            forall|j: int| i <= j < v.len() ==> key_before(e.0, #[trigger] v@[j].0),
        decreases i,
    {
        i -= 1;
    }
    proof {
        lemma_insert_at(v@, e, i as int);
    }
    v.insert(i, e);
}

/// The value of a map with these entries: the entries ordered by key, so
/// that maps with the same entries have the same value whatever order their
/// entries are walked in (see [`lemma_same_entries_same_order`]).
pub fn dict_value(entries: Vec<Entry>) -> (r: InitValue)
    ensures
        r matches InitValue::Dict(v) && v@ == sort_entries(entries@),
{
    let ghost all = entries@;
    assert(all.len() == entries.len());
    let mut rest = entries;
    let mut sorted: Vec<Entry> = Vec::new();
    let mut k: usize = 0;
    while rest.len() > 0
        invariant
            k <= all.len() <= usize::MAX,
            k + rest.len() == all.len(),
            rest@ == all.subrange(k as int, all.len() as int),
            sorted@ == sort_entries(all.subrange(0, k as int)),
        decreases rest.len(),
    {
        let e = rest.remove(0);
        proof {
            assert(e == all[k as int]);
            assert(all.subrange(0, k + 1).drop_last() =~= all.subrange(0, k as int));
        }
        insert_sorted_entry(&mut sorted, e);
        k += 1;
        proof {
            assert(rest@ =~= all.subrange(k as int, all.len() as int));
        }
    }
    proof {
        assert(all.subrange(0, k as int) =~= all);
    }
    InitValue::Dict(sorted)
}

} // verus!
