use vstd::prelude::*;

use std::collections::{HashMap, HashSet};

verus! {

broadcast use vstd::std_specs::hash::group_hash_axioms;

/// Values of one signal waiting to be processed on the server: only the
/// latest one, or every one in arrival order.
#[derive(Debug)]
pub enum PendingSignal {
    Single(Vec<u8>),
    Multi(Vec<Vec<u8>>),
}

/// Abstract pending values of one signal.
pub enum PendingModel {
    Single(Seq<u8>),
    Multi(Seq<Seq<u8>>),
}

impl PendingSignal {
    pub open spec fn model(&self) -> PendingModel {
        match self {
            PendingSignal::Single(v) => PendingModel::Single(v@),
            PendingSignal::Multi(q) => PendingModel::Multi(q@.map_values(|b: Vec<u8>| b@)),
        }
    }
}

/// Number of values waiting in a pending entry.
pub open spec fn content_len(p: PendingModel) -> nat {
    match p {
        PendingModel::Single(_) => 1,
        PendingModel::Multi(q) => q.len(),
    }
}

/// Number of occurrences of `id` in `s`.
pub open spec fn count_of(s: Seq<u64>, id: u64) -> nat
    decreases s.len(),
{
    if s.len() == 0 {
        0
    } else {
        (if s[0] == id {
            1nat
        } else {
            0nat
        }) + count_of(s.drop_first(), id)
    }
}

/// `s` without its leading run of `id`.
pub open spec fn skip_leading(s: Seq<u64>, id: u64) -> Seq<u64>
    decreases s.len(),
{
    if s.len() > 0 && s[0] == id {
        skip_leading(s.drop_first(), id)
    } else {
        s
    }
}

/// The map after inserting `value` for `id`: a single entry is replaced, a
/// queue is extended.
pub open spec fn insert_spec(values: Map<u64, PendingModel>, id: u64, value: Seq<u8>) -> Map<u64, PendingModel> {
    if values.contains_key(id) {
        match values[id] {
            PendingModel::Single(_) => values.insert(id, PendingModel::Single(value)),
            PendingModel::Multi(q) => values.insert(id, PendingModel::Multi(q.push(value))),
        }
    } else {
        values.insert(id, PendingModel::Single(value))
    }
}

/// Taking the next value of `id`: a single entry is removed with its value,
/// a queue gives up its oldest value.
pub open spec fn pop_spec(values: Map<u64, PendingModel>, id: u64) -> (Map<u64, PendingModel>, Option<Seq<u8>>) {
    if !values.contains_key(id) {
        (values, None)
    } else {
        match values[id] {
            PendingModel::Single(v) => (values.remove(id), Some(v)),
            PendingModel::Multi(q) => if q.len() == 0 {
                (values, None)
            } else {
                (values.insert(id, PendingModel::Multi(q.drop_first())), Some(q[0]))
            },
        }
    }
}

/// Taking the oldest pending value in arrival order: ids whose values were
/// already taken are skipped with the run of their repeated entries.
pub open spec fn pop_first_spec(values: Map<u64, PendingModel>, idx: Seq<u64>) -> (Map<u64, PendingModel>, Seq<u64>, Option<(u64, Seq<u8>)>)
    decreases idx.len(),
{
    if idx.len() == 0 {
        (values, idx, None)
    } else {
        let id = idx[0];
        let (v2, r) = pop_spec(values, id);
        match r {
            Some(v) => (v2, idx.drop_first(), Some((id, v))),
            None => {
                let rest = skip_leading(idx.drop_first(), id);
                if rest.len() < idx.len() {
                    pop_first_spec(values, rest)
                } else {
                    (values, idx, None)
                }
            },
        }
    }
}

/// Taking the oldest pending value of an id that is not `blocked`: entries
/// of blocked ids stay where they are, entries of other ids whose values were
/// already taken are dropped.
pub open spec fn pop_first_free_spec(values: Map<u64, PendingModel>, idx: Seq<u64>, blocked: Set<u64>) -> (
    Map<u64, PendingModel>,
    Seq<u64>,
    Option<(u64, Seq<u8>)>,
)
    decreases idx.len(),
{
    if idx.len() == 0 {
        (values, idx, None)
    } else {
        let id = idx[0];
        if blocked.contains(id) {
            let (v2, i2, r) = pop_first_free_spec(values, idx.drop_first(), blocked);
            (v2, seq![id] + i2, r)
        } else {
            let (v2, r) = pop_spec(values, id);
            match r {
                Some(v) => (v2, idx.drop_first(), Some((id, v))),
                None => pop_first_free_spec(values, idx.drop_first(), blocked),
            }
        }
    }
}

/// Entries of blocked ids ahead of the rest are kept in front of what
/// [`pop_first_free_spec`] leaves of the rest.
proof fn lemma_free_kept(values: Map<u64, PendingModel>, kept: Seq<u64>, rest: Seq<u64>, blocked: Set<u64>)
    requires
        forall|j: int| 0 <= j < kept.len() ==> blocked.contains(#[trigger] kept[j]),
    ensures
        ({
            let (v2, i2, r) = pop_first_free_spec(values, rest, blocked);
            pop_first_free_spec(values, kept + rest, blocked) == (v2, kept + i2, r)
        }),
    decreases kept.len(),
{
    if kept.len() > 0 {
        let k2 = kept.drop_first();
        assert forall|j: int| 0 <= j < k2.len() implies blocked.contains(#[trigger] k2[j]) by {
            assert(k2[j] == kept[j + 1]);
        }
        lemma_free_kept(values, k2, rest, blocked);
        assert((kept + rest).drop_first() =~= k2 + rest);
        assert((kept + rest)[0] == kept[0]);
        let (v2, i2, r) = pop_first_free_spec(values, rest, blocked);
        assert(seq![kept[0]] + (k2 + i2) =~= kept + i2);
    } else {
        assert(kept + rest =~= rest);
        let (v2, i2, r) = pop_first_free_spec(values, rest, blocked);
        assert(kept + i2 =~= i2);
    }
}

/// What [`pop_first_free_spec`] does to the ids: the values and entries of
/// blocked ids stay, and the values of other ids stay matched by what is
/// left of the order.
proof fn lemma_free_counts(values: Map<u64, PendingModel>, idx: Seq<u64>, blocked: Set<u64>)
    requires
        forall|x: u64| #[trigger] values.contains_key(x) && !blocked.contains(x) ==> content_len(values[x]) <= count_of(idx, x),
    ensures
        ({
            let (v2, i2, r) = pop_first_free_spec(values, idx, blocked);
            &&& forall|x: u64| #[trigger] blocked.contains(x) ==> v2.contains_key(x) == values.contains_key(x)
                && (values.contains_key(x) ==> v2[x] == values[x]) && count_of(i2, x) == count_of(idx, x)
            &&& forall|x: u64| #[trigger] v2.contains_key(x) ==> values.contains_key(x)
            &&& forall|x: u64| #[trigger] v2.contains_key(x) && !blocked.contains(x) ==> content_len(v2[x]) <= count_of(i2, x)
            &&& r is None ==> v2 == values && forall|id: u64| #[trigger]
                values.contains_key(id) && !blocked.contains(id) ==> content_len(values[id]) == 0
            &&& r matches Some((id, _)) ==> !blocked.contains(id)
        }),
    decreases idx.len(),
{
    if idx.len() == 0 {
        assert forall|id: u64| #[trigger] values.contains_key(id) && !blocked.contains(id) implies content_len(
            values[id],
        ) == 0 by {
            assert(count_of(idx, id) == 0);
        }
    } else {
        let id = idx[0];
        let rest = idx.drop_first();
        assert forall|x: u64| #[trigger] count_of(idx, x) == (if x == id { 1nat } else { 0nat }) + count_of(rest, x) by {}
        if blocked.contains(id) {
            lemma_free_counts(values, rest, blocked);
            let (v2, i2, r) = pop_first_free_spec(values, rest, blocked);
            assert forall|x: u64| #[trigger] count_of(seq![id] + i2, x) == (if x == id { 1nat } else { 0nat })
                + count_of(i2, x) by {
                assert((seq![id] + i2).drop_first() =~= i2);
                assert((seq![id] + i2)[0] == id);
            }
        } else {
            let (v2, r) = pop_spec(values, id);
            match r {
                Some(v) => {
                    assert forall|x: u64| #[trigger] v2.contains_key(x) && !blocked.contains(x) implies content_len(v2[x])
                        <= count_of(rest, x) by {
                        assert(values.contains_key(x));
                    }
                },
                None => {
                    if values.contains_key(id) {
                        assert(content_len(values[id]) == 0);
                    }
                    lemma_free_counts(values, rest, blocked);
                },
            }
        }
    }
}

/// Taking the oldest value of an unblocked id keeps every pending value
/// matched by the arrival order; it finds nothing only when every pending
/// value belongs to a blocked id; and it never takes a value of a blocked id.
pub proof fn lemma_pop_first_free(values: Map<u64, PendingModel>, idx: Seq<u64>, blocked: Set<u64>)
    requires
        order_inv(values, idx),
    ensures
        ({
            let (v2, i2, r) = pop_first_free_spec(values, idx, blocked);
            &&& order_inv(v2, i2)
            &&& r is None ==> v2 == values && forall|id: u64| #[trigger]
                values.contains_key(id) && !blocked.contains(id) ==> content_len(values[id]) == 0
            &&& r matches Some((id, _)) ==> !blocked.contains(id)
        }),
{
    lemma_free_counts(values, idx, blocked);
    let (v2, i2, r) = pop_first_free_spec(values, idx, blocked);
    assert forall|x: u64| #[trigger] v2.contains_key(x) implies content_len(v2[x]) <= count_of(i2, x) by {
        if blocked.contains(x) {
            assert(values.contains_key(x));
        }
    }
}

/// Every pending value of an id is matched by an entry of the arrival order.
pub open spec fn order_inv(values: Map<u64, PendingModel>, idx: Seq<u64>) -> bool {
    forall|id: u64| #[trigger] values.contains_key(id) ==> content_len(values[id]) <= count_of(idx, id)
}

proof fn lemma_skip_leading(s: Seq<u64>, id: u64)
    ensures
        skip_leading(s, id).len() <= s.len(),
        skip_leading(s, id).len() == 0 || skip_leading(s, id)[0] != id,
        forall|x: u64| x != id ==> count_of(skip_leading(s, id), x) == count_of(s, x),
    decreases s.len(),
{
    if s.len() > 0 && s[0] == id {
        lemma_skip_leading(s.drop_first(), id);
        assert forall|x: u64| x != id implies count_of(skip_leading(s, id), x) == count_of(s, x) by {
            assert(count_of(s, x) == count_of(s.drop_first(), x));
        }
    }
}

/// Taking the oldest pending value keeps every other pending value matched
/// by the arrival order, and finds nothing only when no value is pending.
pub proof fn lemma_pop_first_keeps_order(values: Map<u64, PendingModel>, idx: Seq<u64>)
    requires
        order_inv(values, idx),
    ensures
        ({
            let (v2, i2, r) = pop_first_spec(values, idx);
            &&& order_inv(v2, i2)
            &&& r is None ==> v2 == values && forall|id: u64| #[trigger]
                values.contains_key(id) ==> content_len(values[id]) == 0
        }),
    decreases idx.len(),
{
    if idx.len() == 0 {
        assert forall|id: u64| #[trigger] values.contains_key(id) implies content_len(values[id]) == 0 by {
            assert(count_of(idx, id) == 0);
        }
    } else {
        let id = idx[0];
        let (v2, r) = pop_spec(values, id);
        match r {
            Some(v) => {
                assert forall|x: u64| #[trigger] v2.contains_key(x) implies content_len(v2[x]) <= count_of(idx.drop_first(), x) by {
                    assert(values.contains_key(x));
                    assert(count_of(idx, x) == (if x == id { 1nat } else { 0nat }) + count_of(idx.drop_first(), x));
                }
            },
            None => {
                let rest = skip_leading(idx.drop_first(), id);
                lemma_skip_leading(idx.drop_first(), id);
                if values.contains_key(id) {
                    assert(content_len(values[id]) == 0);
                }
                assert forall|x: u64| #[trigger] values.contains_key(x) implies content_len(values[x]) <= count_of(rest, x) by {
                    if x != id {
                        assert(count_of(idx, x) == count_of(idx.drop_first(), x));
                    }
                }
                lemma_pop_first_keeps_order(values, rest);
            },
        }
    }
}

/// Signals waiting to be processed, with the ids in arrival order.
pub struct OrderedMap {
    values: HashMap<u64, PendingSignal>,
    indexes: Vec<u64>,
}

impl OrderedMap {
    /// The pending values by id.
    pub closed spec fn values(&self) -> Map<u64, PendingModel> {
        self.values@.map_values(|p: PendingSignal| p.model())
    }

    /// The ids in arrival order, one entry per arrival.
    pub closed spec fn order(&self) -> Seq<u64> {
        self.indexes@
    }

    /// Creates an empty map.
    pub fn new() -> (s: Self)
        ensures
            s.values() == Map::<u64, PendingModel>::empty(),
            s.order() == Seq::<u64>::empty(),
    {
        let s = OrderedMap { values: HashMap::new(), indexes: Vec::new() };
        assert(s.values() =~= Map::<u64, PendingModel>::empty());
        s
    }

    /// Drops every pending value.
    pub fn clear(&mut self)
        ensures
            final(self).values() == Map::<u64, PendingModel>::empty(),
            final(self).order() == Seq::<u64>::empty(),
    {
        self.values.clear();
        self.indexes.clear();
        assert(self.values() =~= Map::<u64, PendingModel>::empty());
    }

    /// Records a new value of `id`.
    pub fn insert(&mut self, id: u64, value: Vec<u8>)
        ensures
            final(self).values() == insert_spec(old(self).values(), id, value@),
            final(self).order() == old(self).order().push(id),
    {
        let ghost v0 = self.values();
        let ghost val = value@;
        match self.values.remove(&id) {
            None => {
                self.values.insert(id, PendingSignal::Single(value));
            },
            Some(PendingSignal::Single(_)) => {
                self.values.insert(id, PendingSignal::Single(value));
            },
            Some(PendingSignal::Multi(mut q)) => {
                let ghost q0 = q@;
                q.push(value);
                assert(q@.map_values(|b: Vec<u8>| b@) =~= q0.map_values(|b: Vec<u8>| b@).push(val));
                self.values.insert(id, PendingSignal::Multi(q));
            },
        }
        self.indexes.push(id);
        assert(self.values() =~= insert_spec(v0, id, val));
    }

    /// Takes the next value of `id`.
    pub fn pop(&mut self, id: u64) -> (res: Option<Vec<u8>>)
        ensures
            ({
                let (v2, r) = pop_spec(old(self).values(), id);
                &&& final(self).values() == v2
                &&& match r {
                    Some(v) => res is Some && res->0@ == v,
                    None => res is None,
                }
            }),
            final(self).order() == old(self).order(),
    {
        let ghost v0 = self.values();
        match self.values.remove(&id) {
            None => None,
            Some(PendingSignal::Single(v)) => {
                assert(self.values() =~= v0.remove(id));
                Some(v)
            },
            Some(PendingSignal::Multi(mut q)) => {
                if q.len() == 0 {
                    self.values.insert(id, PendingSignal::Multi(q));
                    assert(self.values() =~= v0);
                    None
                } else {
                    let ghost q0 = q@;
                    let v = q.remove(0);
                    assert(q@.map_values(|b: Vec<u8>| b@) =~= q0.map_values(|b: Vec<u8>| b@).drop_first());
                    self.values.insert(id, PendingSignal::Multi(q));
                    assert(self.values() =~= v0.insert(id, PendingModel::Multi(q0.map_values(|b: Vec<u8>| b@).drop_first())));
                    Some(v)
                }
            },
        }
    }

    /// Takes the oldest pending value in arrival order, with its id.
    pub fn pop_first(&mut self) -> (res: Option<(u64, Vec<u8>)>)
        ensures
            ({
                let (v2, i2, r) = pop_first_spec(old(self).values(), old(self).order());
                &&& final(self).values() == v2
                &&& final(self).order() == i2
                &&& match r {
                    Some((id, v)) => res matches Some((rid, rv)) && rid == id && rv@ == v,
                    None => res is None,
                }
            }),
    {
        let ghost target = pop_first_spec(self.values(), self.order());
        loop
            invariant
                pop_first_spec(self.values(), self.order()) == target,
                target == pop_first_spec(old(self).values(), old(self).order()),
            decreases self.indexes@.len(),
        {
            if self.indexes.len() == 0 {
                assert(pop_first_spec(self.values(), self.order()) == (self.values(), self.order(), None::<(u64, Seq<u8>)>));
                return None;
            }
            let ghost v0 = self.values();
            let ghost i0 = self.order();
            let id = self.indexes.remove(0);
            assert(self.indexes@ =~= i0.drop_first());
            match self.pop(id) {
                Some(v) => {
                    assert(pop_first_spec(v0, i0) == (self.values(), self.order(), Some((id, v@))));
                    return Some((id, v));
                },
                None => {
                    while self.indexes.len() > 0 && self.indexes[0] == id
                        invariant
                            i0.len() > 0,
                            skip_leading(self.indexes@, id) == skip_leading(i0.drop_first(), id),
                            self.values() == v0,
                        decreases self.indexes@.len(),
                    {
                        let ghost before = self.indexes@;
                        self.indexes.remove(0);
                        assert(self.indexes@ =~= before.drop_first());
                    }
                    proof {
                        lemma_skip_leading(i0.drop_first(), id);
                    }
                },
            }
        }
    }

    /// Takes the oldest pending value of an id not in `blocked`, with its id
    /// (see [`pop_first_free_spec`]).
    pub fn pop_first_free(&mut self, blocked: &HashSet<u64>) -> (res: Option<(u64, Vec<u8>)>)
        ensures
            ({
                let (v2, i2, r) = pop_first_free_spec(old(self).values(), old(self).order(), blocked@);
                &&& final(self).values() == v2
                &&& final(self).order() == i2
                &&& match r {
                    Some((id, v)) => res matches Some((rid, rv)) && rid == id && rv@ == v,
                    None => res is None,
                }
            }),
    {
        let ghost target = pop_first_free_spec(self.values(), self.order(), blocked@);
        let mut i: usize = 0;
        proof {
            assert(self.indexes@.subrange(0, self.indexes@.len() as int) =~= self.indexes@);
            let (v2, i2, r) = target;
            assert(self.indexes@.subrange(0, 0) + i2 =~= i2);
        }
        loop
            invariant
                i <= self.indexes@.len(),
                forall|j: int| 0 <= j < i ==> blocked@.contains(#[trigger] self.indexes@[j]),
                target == pop_first_free_spec(old(self).values(), old(self).order(), blocked@),
                ({
                    let (v2, i2, r) = pop_first_free_spec(
                        self.values(),
                        self.indexes@.subrange(i as int, self.indexes@.len() as int),
                        blocked@,
                    );
                    target == (v2, self.indexes@.subrange(0, i as int) + i2, r)
                }),
            decreases self.indexes@.len() - i,
        {
            if i >= self.indexes.len() {
                proof {
                    assert(self.indexes@.subrange(0, i as int) + Seq::<u64>::empty() =~= self.indexes@);
                }
                return None;
            }
            let id = self.indexes[i];
            let ghost v0 = self.values();
            let ghost i0 = self.indexes@;
            let ghost rest = i0.subrange(i as int, i0.len() as int);
            proof {
                assert(rest[0] == id);
                assert(rest.drop_first() =~= i0.subrange(i + 1, i0.len() as int));
            }
            if blocked.contains(&id) {
                proof {
                    let (v2, i2, r) = pop_first_free_spec(v0, rest.drop_first(), blocked@);
                    assert(i0.subrange(0, i + 1) =~= i0.subrange(0, i as int).push(id));
                    assert(i0.subrange(0, i as int) + (seq![id] + i2) =~= i0.subrange(0, i + 1) + i2);
                }
                i += 1;
            } else {
                self.indexes.remove(i);
                proof {
                    assert(self.indexes@.subrange(0, i as int) =~= i0.subrange(0, i as int));
                    assert(self.indexes@.subrange(i as int, self.indexes@.len() as int) =~= rest.drop_first());
                }
                match self.pop(id) {
                    Some(v) => {
                        proof {
                            assert(self.indexes@ =~= i0.subrange(0, i as int) + rest.drop_first());
                        }
                        return Some((id, v));
                    },
                    None => {},
                }
            }
        }
    }

    /// Switches `id` to keeping every pending value.
    pub fn set_to_multi(&mut self, id: u64)
        ensures
            final(self).order() == old(self).order(),
            final(self).values() == set_to_multi_spec(old(self).values(), id),
    {
        let ghost v0 = self.values();
        match self.values.remove(&id) {
            Some(PendingSignal::Single(v)) => {
                let ghost vv = v@;
                let mut q: Vec<Vec<u8>> = Vec::new();
                q.push(v);
                assert(q@.map_values(|b: Vec<u8>| b@) =~= seq![vv]);
                self.values.insert(id, PendingSignal::Multi(q));
            },
            Some(PendingSignal::Multi(q)) => {
                self.values.insert(id, PendingSignal::Multi(q));
            },
            None => {
                let q: Vec<Vec<u8>> = Vec::new();
                assert(q@.map_values(|b: Vec<u8>| b@) =~= Seq::<Seq<u8>>::empty());
                self.values.insert(id, PendingSignal::Multi(q));
            },
        }
        proof {
            let expected = v0.insert(
                id,
                if v0.contains_key(id) {
                    match v0[id] {
                        PendingModel::Single(v) => PendingModel::Multi(seq![v]),
                        PendingModel::Multi(q) => PendingModel::Multi(q),
                    }
                } else {
                    PendingModel::Multi(Seq::empty())
                },
            );
            assert(self.values() =~= expected);
        }
    }

    /// Switches `id` to keeping only the latest pending value.
    pub fn set_to_single(&mut self, id: u64)
        ensures
            final(self).order() == old(self).order(),
            final(self).values() == set_to_single_spec(old(self).values(), id),
    {
        let ghost v0 = self.values();
        match self.values.remove(&id) {
            Some(PendingSignal::Single(v)) => {
                self.values.insert(id, PendingSignal::Single(v));
                assert(self.values() =~= v0);
            },
            Some(PendingSignal::Multi(mut q)) => {
                let ghost q0 = q@;
                match q.pop() {
                    Some(last) => {
                        self.values.insert(id, PendingSignal::Single(last));
                        assert(self.values() =~= v0.insert(id, PendingModel::Single(q0.map_values(|b: Vec<u8>| b@).last())));
                    },
                    None => {
                        assert(self.values() =~= v0.remove(id));
                    },
                }
            },
            None => {},
        }
    }
}


/// Recording a value keeps every pending value matched by the arrival order.
pub proof fn lemma_insert_keeps_order(values: Map<u64, PendingModel>, idx: Seq<u64>, id: u64, value: Seq<u8>)
    requires
        order_inv(values, idx),
    ensures
        order_inv(insert_spec(values, id, value), idx.push(id)),
{
    let v2 = insert_spec(values, id, value);
    assert forall|x: u64| #[trigger] v2.contains_key(x) implies content_len(v2[x]) <= count_of(idx.push(id), x) by {
        lemma_count_push(idx, id, x);
    }
}

proof fn lemma_count_push(s: Seq<u64>, id: u64, x: u64)
    ensures
        count_of(s.push(id), x) == count_of(s, x) + (if x == id { 1nat } else { 0nat }),
    decreases s.len(),
{
    if s.len() > 0 {
        assert(s.push(id).drop_first() =~= s.drop_first().push(id));
        assert(s.push(id)[0] == s[0]);
        lemma_count_push(s.drop_first(), id, x);
    } else {
        assert(s.push(id).drop_first() =~= Seq::<u64>::empty());
        assert(s.push(id)[0] == id);
        assert(count_of(Seq::<u64>::empty(), x) == 0);
        assert(count_of(s, x) == 0);
    }
}

/// The map after switching `id` to keeping every value: a single value
/// becomes a queue of one, and an id without values gets an empty queue.
pub open spec fn set_to_multi_spec(values: Map<u64, PendingModel>, id: u64) -> Map<u64, PendingModel> {
    values.insert(
        id,
        if values.contains_key(id) {
            match values[id] {
                PendingModel::Single(v) => PendingModel::Multi(seq![v]),
                PendingModel::Multi(q) => PendingModel::Multi(q),
            }
        } else {
            PendingModel::Multi(Seq::empty())
        },
    )
}

/// The map after inserting each of `vs` for `id`, in order.
pub open spec fn insert_all(values: Map<u64, PendingModel>, id: u64, vs: Seq<Seq<u8>>) -> Map<u64, PendingModel>
    decreases vs.len(),
{
    if vs.len() == 0 {
        values
    } else {
        insert_spec(insert_all(values, id, vs.drop_last()), id, vs.last())
    }
}

proof fn lemma_insert_all_queue(values: Map<u64, PendingModel>, id: u64, q: Seq<Seq<u8>>, vs: Seq<Seq<u8>>)
    requires
        values.contains_key(id),
        values[id] == PendingModel::Multi(q),
    ensures
        insert_all(values, id, vs) == values.insert(id, PendingModel::Multi(q + vs)),
    decreases vs.len(),
{
    if vs.len() == 0 {
        assert(q + vs =~= q);
        assert(values.insert(id, PendingModel::Multi(q)) =~= values);
    } else {
        lemma_insert_all_queue(values, id, q, vs.drop_last());
        assert((q + vs.drop_last()).push(vs.last()) =~= q + vs);
        assert(values.insert(id, PendingModel::Multi(q + vs.drop_last())).insert(id, PendingModel::Multi(q + vs))
            =~= values.insert(id, PendingModel::Multi(q + vs)));
    }
}

/// Values queued for an id and then switched back to keeping only the
/// latest come down to the newest of them: after switching `id` to keeping
/// every value, inserting `vs` and switching back, taking the id's next
/// value gives the last of `vs` and nothing after it; with no values
/// inserted, an id that had none is left without an entry.
pub proof fn lemma_queue_then_single(values: Map<u64, PendingModel>, id: u64, vs: Seq<Seq<u8>>)
    ensures
        ({
            let m = set_to_single_spec(insert_all(set_to_multi_spec(values, id), id, vs), id);
            let (m2, first) = pop_spec(m, id);
            &&& vs.len() > 0 ==> first == Some(vs.last()) && pop_spec(m2, id).1 is None
            &&& vs.len() == 0 && !values.contains_key(id) ==> !m.contains_key(id)
        }),
{
    let m1 = set_to_multi_spec(values, id);
    let q0 = match m1[id] {
        PendingModel::Multi(q) => q,
        PendingModel::Single(_) => Seq::empty(),
    };
    lemma_insert_all_queue(m1, id, q0, vs);
    if vs.len() > 0 {
        assert((q0 + vs).last() == vs.last());
    } else {
        if !values.contains_key(id) {
            assert(q0 + vs =~= Seq::<Seq<u8>>::empty());
        }
    }
}

/// The map after switching `id` to keeping only its latest value: a queue
/// becomes its newest value, an empty queue goes away.
pub open spec fn set_to_single_spec(values: Map<u64, PendingModel>, id: u64) -> Map<u64, PendingModel> {
    if values.contains_key(id) {
        match values[id] {
            PendingModel::Single(v) => values,
            PendingModel::Multi(q) => if q.len() == 0 {
                values.remove(id)
            } else {
                values.insert(id, PendingModel::Single(q.last()))
            },
        }
    } else {
        values
    }
}

/// After switching an id to keeping its latest value, that id holds at most
/// one pending value, and each new value replaces the one before it.
pub proof fn lemma_single_keeps_newest(values: Map<u64, PendingModel>, id: u64, a: Seq<u8>, b: Seq<u8>)
    ensures
        ({
            let s = set_to_single_spec(values, id);
            &&& s.contains_key(id) ==> s[id] is Single
            &&& insert_spec(s, id, a)[id] == PendingModel::Single(a)
            &&& insert_spec(insert_spec(s, id, a), id, b)[id] == PendingModel::Single(b)
        }),
{
}

/// Taking the next value of one id keeps every pending value matched by the
/// arrival order.
pub proof fn lemma_pop_keeps_order(values: Map<u64, PendingModel>, idx: Seq<u64>, id: u64)
    requires
        order_inv(values, idx),
    ensures
        order_inv(pop_spec(values, id).0, idx),
{
    let v2 = pop_spec(values, id).0;
    assert forall|x: u64| #[trigger] v2.contains_key(x) implies content_len(v2[x]) <= count_of(idx, x) by {
        assert(values.contains_key(x));
    }
}

/// Result of asking for the next signal to process.
pub struct GetOutcome {
    pub values: Map<u64, PendingModel>,
    pub order: Seq<u64>,
    pub blocked: Set<u64>,
    /// the value taken from the pending ones
    pub popped: Option<(u64, Seq<u8>)>,
    /// the value handed to the caller: the taken one, if its id is registered
    pub result: Option<(u64, Seq<u8>)>,
}

/// Which signal a worker processes next. A worker that processed `last`
/// first takes further values of that id while the id is blocked by it;
/// otherwise it releases `last` and takes the oldest pending value of an id
/// that no worker holds, and blocks that id, so that each id is processed in
/// order by one worker. A value of an id that no callback is registered for
/// is dropped.
pub open spec fn get_spec(
    values: Map<u64, PendingModel>,
    order: Seq<u64>,
    blocked: Set<u64>,
    registered: Set<u64>,
    last: Option<u64>,
) -> GetOutcome {
    let taken = match last {
        Some(l) => if blocked.contains(l) {
            pop_spec(values, l).1
        } else {
            None
        },
        None => None,
    };
    let released = match last {
        Some(l) => blocked.remove(l),
        None => blocked,
    };
    let first = pop_first_free_spec(values, order, released);
    let (v2, o2, b2, popped) = match taken {
        Some(x) => (pop_spec(values, last->0).0, order, blocked, Some((last->0, x))),
        None => (first.0, first.1, match first.2 {
            Some((id, _)) => released.insert(id),
            None => released,
        }, first.2),
    };
    GetOutcome {
        values: v2,
        order: o2,
        blocked: b2,
        popped,
        result: match popped {
            Some((id, x)) => if registered.contains(id) {
                Some((id, x))
            } else {
                None
            },
            None => None,
        },
    }
}

/// Changed signals of the server, handed to the workers that run their
/// callbacks.
pub struct ChangedInner {
    values: OrderedMap,
    blocked_list: HashSet<u64>,
    registered: HashSet<u64>,
}

impl ChangedInner {
    pub closed spec fn values(&self) -> Map<u64, PendingModel> {
        self.values.values()
    }

    pub closed spec fn order(&self) -> Seq<u64> {
        self.values.order()
    }

    /// Ids currently processed by some worker.
    pub closed spec fn blocked(&self) -> Set<u64> {
        self.blocked_list@
    }

    /// Ids that have callbacks.
    pub closed spec fn registered(&self) -> Set<u64> {
        self.registered@
    }

    /// Every pending value is matched by an entry of the arrival order, so no
    /// pending value is ever passed over.
    pub open spec fn wf(&self) -> bool {
        order_inv(self.values(), self.order())
    }

    /// Creates an empty collection.
    pub fn new() -> (s: Self)
        ensures
            s.wf(),
            s.values() == Map::<u64, PendingModel>::empty(),
            s.order() == Seq::<u64>::empty(),
            s.blocked() == Set::<u64>::empty(),
            s.registered() == Set::<u64>::empty(),
    {
        ChangedInner { values: OrderedMap::new(), blocked_list: HashSet::new(), registered: HashSet::new() }
    }

    /// Drops every pending value and releases every blocked id; registrations
    /// stay.
    pub fn clear(&mut self)
        ensures
            final(self).wf(),
            final(self).values() == Map::<u64, PendingModel>::empty(),
            final(self).order() == Seq::<u64>::empty(),
            final(self).blocked() == Set::<u64>::empty(),
            final(self).registered() == old(self).registered(),
    {
        self.values.clear();
        self.blocked_list.clear();
    }

    /// Records a new value of `id`; returns whether a waiting worker should
    /// be woken, which is when no worker is processing `id`.
    pub fn set(&mut self, id: u64, value: Vec<u8>) -> (notify: bool)
        requires
            old(self).wf(),
        ensures
            final(self).wf(),
            final(self).values() == insert_spec(old(self).values(), id, value@),
            final(self).order() == old(self).order().push(id),
            final(self).blocked() == old(self).blocked(),
            final(self).registered() == old(self).registered(),
            notify == !old(self).blocked().contains(id),
    {
        proof {
            lemma_insert_keeps_order(self.values(), self.order(), id, value@);
        }
        self.values.insert(id, value);
        !self.blocked_list.contains(&id)
    }

    /// Registers or unregisters the callback of `id`.
    pub fn set_register(&mut self, id: u64, register: bool)
        requires
            old(self).wf(),
        ensures
            final(self).wf(),
            final(self).values() == old(self).values(),
            final(self).order() == old(self).order(),
            final(self).blocked() == old(self).blocked(),
            final(self).registered() == if register {
                old(self).registered().insert(id)
            } else {
                old(self).registered().remove(id)
            },
    {
        if register {
            self.registered.insert(id);
        } else {
            self.registered.remove(&id);
        }
    }

    /// Switches `id` to queue mode.
    pub fn set_to_multi(&mut self, id: u64)
        requires
            old(self).wf(),
        ensures
            final(self).wf(),
            final(self).order() == old(self).order(),
            final(self).blocked() == old(self).blocked(),
            final(self).registered() == old(self).registered(),
            final(self).values() == set_to_multi_spec(old(self).values(), id),
    {
        self.values.set_to_multi(id);
        proof {
            let v0 = old(self).values();
            assert forall|x: u64| #[trigger] self.values().contains_key(x) implies content_len(self.values()[x]) <= count_of(self.order(), x) by {
                if x != id {
                    assert(v0.contains_key(x));
                }
            }
        }
    }

    /// Switches `id` to single mode, keeping only its latest pending value.
    pub fn set_to_single(&mut self, id: u64)
        requires
            old(self).wf(),
        ensures
            final(self).wf(),
            final(self).order() == old(self).order(),
            final(self).blocked() == old(self).blocked(),
            final(self).registered() == old(self).registered(),
            final(self).values() == set_to_single_spec(old(self).values(), id),
    {
        self.values.set_to_single(id);
        proof {
            let v0 = old(self).values();
            assert forall|x: u64| #[trigger] self.values().contains_key(x) implies content_len(self.values()[x]) <= count_of(self.order(), x) by {
                assert(v0.contains_key(x));
            }
        }
    }

    /// Takes the oldest pending value of an id no worker holds, and blocks
    /// that id.
    fn pop_first_blocking(&mut self) -> (res: Option<(u64, Vec<u8>)>)
        requires
            old(self).wf(),
        ensures
            final(self).wf(),
            ({
                let (v2, o2, r) = pop_first_free_spec(old(self).values(), old(self).order(), old(self).blocked());
                &&& final(self).values() == v2
                &&& final(self).order() == o2
                &&& final(self).blocked() == match r {
                    Some((id, _)) => old(self).blocked().insert(id),
                    None => old(self).blocked(),
                }
                &&& match r {
                    Some((id, v)) => res matches Some((rid, rv)) && rid == id && rv@ == v,
                    None => res is None,
                }
            }),
            final(self).registered() == old(self).registered(),
    {
        proof {
            lemma_pop_first_free(self.values(), self.order(), self.blocked());
        }
        let val = self.values.pop_first_free(&self.blocked_list);
        match &val {
            Some((id, _)) => {
                self.blocked_list.insert(*id);
            },
            None => {},
        }
        val
    }

    /// Takes the next value for a worker that last processed `last_id` (see
    /// [`get_spec`]).
    pub fn get(&mut self, last_id: Option<u64>) -> (res: Option<(u64, Vec<u8>)>)
        requires
            old(self).wf(),
        ensures
            final(self).wf(),
            final(self).registered() == old(self).registered(),
            ({
                let o = get_spec(
                    old(self).values(),
                    old(self).order(),
                    old(self).blocked(),
                    old(self).registered(),
                    last_id,
                );
                &&& final(self).values() == o.values
                &&& final(self).order() == o.order
                &&& final(self).blocked() == o.blocked
                &&& match o.result {
                    Some((id, v)) => res matches Some((rid, rv)) && rid == id && rv@ == v,
                    None => res is None,
                }
            }),
    {
        let mut taken: Option<(u64, Vec<u8>)> = None;
        match last_id {
            Some(last) => {
                if self.blocked_list.contains(&last) {
                    proof {
                        lemma_pop_keeps_order(self.values(), self.order(), last);
                    }
                    let ghost v0 = self.values();
                    match self.values.pop(last) {
                        Some(v) => {
                            taken = Some((last, v));
                        },
                        None => {
                            proof {
                                assert(self.values() == v0);
                            }
                        },
                    }
                }
                if taken.is_none() {
                    self.blocked_list.remove(&last);
                }
            },
            None => {},
        }
        let res = match taken {
            Some(p) => Some(p),
            None => self.pop_first_blocking(),
        };
        match res {
            Some((id, v)) => {
                if self.registered.contains(&id) {
                    Some((id, v))
                } else {
                    None
                }
            },
            None => None,
        }
    }
}

/// When a worker finds no signal to take, every pending value belongs to an
/// id that another worker holds: the arrival order never passes over a
/// pending value. Taking keeps every pending value matched by the order.
pub proof fn lemma_nothing_left_behind(
    values: Map<u64, PendingModel>,
    order: Seq<u64>,
    blocked: Set<u64>,
    registered: Set<u64>,
    last: Option<u64>,
)
    requires
        order_inv(values, order),
    ensures
        ({
            let o = get_spec(values, order, blocked, registered, last);
            &&& o.popped is None ==> forall|id: u64| #[trigger]
                values.contains_key(id) && !o.blocked.contains(id) ==> content_len(values[id]) == 0
            &&& order_inv(o.values, o.order)
        }),
{
    let released = match last {
        Some(l) => blocked.remove(l),
        None => blocked,
    };
    lemma_pop_first_free(values, order, released);
    match last {
        Some(l) => {
            lemma_pop_keeps_order(values, order, l);
        },
        None => {},
    }
}

/// One id is processed by one worker at a time: a worker gets a value of an
/// id that some worker holds only when it is itself the worker holding it
/// (the id it processed last), and the id it gets is held afterwards. A
/// worker that holds an id with a value pending gets that id's oldest
/// pending value; what a worker is handed belongs to a registered id, and a
/// value taken for an unregistered id is dropped.
pub proof fn lemma_one_worker_per_id(
    values: Map<u64, PendingModel>,
    order: Seq<u64>,
    blocked: Set<u64>,
    registered: Set<u64>,
    last: Option<u64>,
)
    requires
        order_inv(values, order),
    ensures
        ({
            let o = get_spec(values, order, blocked, registered, last);
            &&& (o.popped matches Some((id, _)) ==> (!blocked.contains(id) || last == Some(id)) && o.blocked.contains(id))
            &&& (last matches Some(l) && blocked.contains(l) && pop_spec(values, l).1 is Some) ==> o.popped == Some(
                (last->0, pop_spec(values, last->0).1->0),
            )
            &&& (o.result matches Some((id, x)) ==> registered.contains(id) && o.popped == Some((id, x)))
            &&& (o.popped matches Some((id, _)) && !registered.contains(id)) ==> o.result is None
        }),
{
    let released = match last {
        Some(l) => blocked.remove(l),
        None => blocked,
    };
    lemma_pop_first_free(values, order, released);
}
} // verus!
