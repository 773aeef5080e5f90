use vstd::prelude::*;

use crate::messages::bytes_view;
use crate::server_values::bytes_clone;
use bytes::Bytes;

verus! {

/// `<Bytes as PartialEq>::eq`: whether two buffers hold the same bytes.
#[verifier::external_body]
fn bytes_eq(a: &Bytes, b: &Bytes) -> (r: bool)
    ensures
        r == (bytes_view(*a) == bytes_view(*b)),
{
    a == b
}

/// The bytes held by each buffer of a list.
pub open spec fn views(items: Seq<Bytes>) -> Seq<Seq<u8>> {
    items.map_values(|b: Bytes| bytes_view(b))
}

fn copy_all(items: &Vec<Bytes>) -> (res: Vec<Bytes>)
    ensures
        views(res@) == views(items@),
{
    let mut res: Vec<Bytes> = Vec::new();
    let mut i: usize = 0;
    while i < items.len()
        invariant
            i <= items@.len(),
            res@.len() == i,
            forall|k: int| 0 <= k < i ==> #[trigger] bytes_view(res@[k]) == bytes_view(items@[k]),
        decreases items@.len() - i,
    {
        res.push(bytes_clone(&items[i]));
        i += 1;
    }
    assert(views(res@) =~= views(items@));
    res
}

/// A list shared with the client, as the server keeps it: its items'
/// serialized bytes.
///
/// Each change returns whether it is sent to the client: when the client is
/// connected and the list enabled.
pub struct ServerList {
    id: u64,
    items: Vec<Bytes>,
    enabled: bool,
}

impl ServerList {
    pub closed spec fn spec_id(&self) -> u64 {
        self.id
    }

    /// The items' bytes.
    pub closed spec fn spec_items(&self) -> Seq<Seq<u8>> {
        views(self.items@)
    }

    pub closed spec fn spec_enabled(&self) -> bool {
        self.enabled
    }

    /// An empty list that is not enabled.
    pub fn new(id: u64) -> (s: Self)
        ensures
            s.spec_id() == id,
            s.spec_items() == Seq::<Seq<u8>>::empty(),
            !s.spec_enabled(),
    {
        let s = ServerList { id, items: Vec::new(), enabled: false };
        assert(s.spec_items() =~= Seq::<Seq<u8>>::empty());
        s
    }

    /// Marks the list as used by the client or not.
    pub fn enable(&mut self, enable: bool)
        ensures
            final(self).spec_enabled() == enable,
            final(self).spec_id() == old(self).spec_id(),
            final(self).spec_items() == old(self).spec_items(),
    {
        self.enabled = enable;
    }

    /// Replaces the whole list.
    pub fn set(&mut self, list: Vec<Bytes>, connected: bool) -> (send: bool)
        ensures
            send == (connected && old(self).spec_enabled()),
            final(self).spec_id() == old(self).spec_id(),
            final(self).spec_enabled() == old(self).spec_enabled(),
            final(self).spec_items() == views(list@),
    {
        self.items = list;
        connected && self.enabled
    }

    /// A copy of the list.
    pub fn get(&self) -> (res: Vec<Bytes>)
        ensures
            views(res@) == self.spec_items(),
    {
        copy_all(&self.items)
    }

    /// The number of items.
    pub fn len(&self) -> (n: usize)
        ensures
            n == self.spec_items().len(),
    {
        self.items.len()
    }

    /// Overwrites the item at `idx`; refused when there is none.
    pub fn set_item(&mut self, idx: usize, value: Bytes, connected: bool) -> (res: Result<bool, &'static str>)
        ensures
            final(self).spec_id() == old(self).spec_id(),
            final(self).spec_enabled() == old(self).spec_enabled(),
            res is Err <==> idx >= old(self).spec_items().len(),
            res is Err ==> *final(self) == *old(self),
            res matches Err(e) ==> e@ == "Index out of bounds"@,
            res is Ok ==> res->Ok_0 == (connected && old(self).spec_enabled()) && final(self).spec_items()
                == old(self).spec_items().update(idx as int, bytes_view(value)),
    {
        if idx >= self.items.len() {
            return Err("Index out of bounds");
        }
        self.items.set(idx, value);
        proof {
            assert(self.spec_items() =~= old(self).spec_items().update(idx as int, bytes_view(value)));
        }
        Ok(connected && self.enabled)
    }

    /// The item at `idx`; refused when there is none.
    pub fn get_item(&self, idx: usize) -> (res: Result<Bytes, &'static str>)
        ensures
            res is Err <==> idx >= self.spec_items().len(),
            res matches Err(e) ==> e@ == "Index out of bounds"@,
            res is Ok ==> bytes_view(res->Ok_0) == self.spec_items()[idx as int],
    {
        if idx >= self.items.len() {
            return Err("Index out of bounds");
        }
        Ok(bytes_clone(&self.items[idx]))
    }

    /// Removes and returns the item at `idx` with whether the removal is
    /// sent; refused when there is none.
    pub fn remove_item(&mut self, idx: usize, connected: bool) -> (res: Result<(Bytes, bool), &'static str>)
        ensures
            final(self).spec_id() == old(self).spec_id(),
            final(self).spec_enabled() == old(self).spec_enabled(),
            res is Err <==> idx >= old(self).spec_items().len(),
            res is Err ==> *final(self) == *old(self),
            res matches Err(e) ==> e@ == "Index out of bounds"@,
            res is Ok ==> bytes_view(res->Ok_0.0) == old(self).spec_items()[idx as int] && res->Ok_0.1 == (connected
                && old(self).spec_enabled()) && final(self).spec_items() == old(self).spec_items().remove(idx as int),
    {
        if idx >= self.items.len() {
            return Err("Index out of bounds");
        }
        let value = self.items.remove(idx);
        proof {
            assert(self.spec_items() =~= old(self).spec_items().remove(idx as int));
        }
        Ok((value, connected && self.enabled))
    }

    /// Appends an item.
    pub fn append_item(&mut self, value: Bytes, connected: bool) -> (send: bool)
        ensures
            send == (connected && old(self).spec_enabled()),
            final(self).spec_id() == old(self).spec_id(),
            final(self).spec_enabled() == old(self).spec_enabled(),
            final(self).spec_items() == old(self).spec_items().push(bytes_view(value)),
    {
        self.items.push(value);
        proof {
            assert(self.spec_items() =~= old(self).spec_items().push(bytes_view(value)));
        }
        connected && self.enabled
    }

    /// Whether the whole list is sent to a newly connected client.
    pub fn sync(&self) -> (send: bool)
        ensures
            send == self.spec_enabled(),
    {
        self.enabled
    }
}

/// The entries' bytes, key and value.
pub open spec fn entry_views(entries: Seq<(Bytes, Bytes)>) -> Seq<(Seq<u8>, Seq<u8>)> {
    entries.map_values(|e: (Bytes, Bytes)| (bytes_view(e.0), bytes_view(e.1)))
}

/// No two entries have the same key.
pub open spec fn keys_unique(entries: Seq<(Seq<u8>, Seq<u8>)>) -> bool {
    forall|i: int, j: int| 0 <= i < j < entries.len() ==> entries[i].0 != entries[j].0
}

/// The value under `key` among the entries.
pub open spec fn entry_get(entries: Seq<(Seq<u8>, Seq<u8>)>, key: Seq<u8>) -> Option<Seq<u8>>
    decreases entries.len(),
{
    if entries.len() == 0 {
        None
    } else if entries[0].0 == key {
        Some(entries[0].1)
    } else {
        entry_get(entries.drop_first(), key)
    }
}

/// The entries with `value` under `key`: the entry of `key` keeps its place,
/// a new one comes last.
pub open spec fn entry_put(entries: Seq<(Seq<u8>, Seq<u8>)>, key: Seq<u8>, value: Seq<u8>) -> Seq<(Seq<u8>, Seq<u8>)>
    decreases entries.len(),
{
    if entries.len() == 0 {
        seq![(key, value)]
    } else if entries[0].0 == key {
        entries.update(0, (key, value))
    } else {
        seq![entries[0]] + entry_put(entries.drop_first(), key, value)
    }
}

/// The entries without the entry of `key`.
pub open spec fn entry_remove(entries: Seq<(Seq<u8>, Seq<u8>)>, key: Seq<u8>) -> Seq<(Seq<u8>, Seq<u8>)>
    decreases entries.len(),
{
    if entries.len() == 0 {
        entries
    } else if entries[0].0 == key {
        entries.drop_first()
    } else {
        seq![entries[0]] + entry_remove(entries.drop_first(), key)
    }
}

proof fn lemma_unique_tail(a: Seq<(Seq<u8>, Seq<u8>)>)
    requires
        keys_unique(a),
        a.len() > 0,
    ensures
        keys_unique(a.drop_first()),
        forall|j: int| 0 <= j < a.drop_first().len() ==> #[trigger] a.drop_first()[j].0 != a[0].0,
{
    assert forall|i: int, j: int| 0 <= i < j < a.drop_first().len() implies a.drop_first()[i].0
        != a.drop_first()[j].0 by {
        assert(a.drop_first()[i] == a[i + 1] && a.drop_first()[j] == a[j + 1]);
    }
    assert forall|j: int| 0 <= j < a.drop_first().len() implies #[trigger] a.drop_first()[j].0 != a[0].0 by {
        assert(a.drop_first()[j] == a[j + 1]);
    }
}

/// In entries with no key twice, the entry at `i` is the one of its key.
pub proof fn lemma_entry_get_at(a: Seq<(Seq<u8>, Seq<u8>)>, i: int)
    requires
        keys_unique(a),
        0 <= i < a.len(),
    ensures
        entry_get(a, a[i].0) == Some(a[i].1),
    decreases a.len(),
{
    if i > 0 {
        lemma_unique_tail(a);
        assert(a.drop_first()[i - 1] == a[i]);
        lemma_entry_get_at(a.drop_first(), i - 1);
    }
}

/// Without an entry of `key` there is no value under it.
pub proof fn lemma_entry_get_none(a: Seq<(Seq<u8>, Seq<u8>)>, key: Seq<u8>)
    requires
        forall|i: int| 0 <= i < a.len() ==> a[i].0 != key,
    ensures
        entry_get(a, key) is None,
    decreases a.len(),
{
    if a.len() > 0 {
        assert forall|i: int| 0 <= i < a.drop_first().len() implies a.drop_first()[i].0 != key by {
            assert(a.drop_first()[i] == a[i + 1]);
        }
        lemma_entry_get_none(a.drop_first(), key);
    }
}

/// Removing the key of the entry at `i` removes that entry.
pub proof fn lemma_entry_remove_at(a: Seq<(Seq<u8>, Seq<u8>)>, i: int)
    requires
        keys_unique(a),
        0 <= i < a.len(),
    ensures
        entry_remove(a, a[i].0) == a.remove(i),
    decreases a.len(),
{
    if i > 0 {
        lemma_unique_tail(a);
        assert(a.drop_first()[i - 1] == a[i]);
        lemma_entry_remove_at(a.drop_first(), i - 1);
        assert(seq![a[0]] + a.drop_first().remove(i - 1) =~= a.remove(i));
    } else {
        assert(a.drop_first() =~= a.remove(0));
    }
}

/// Removing a key that has no entry changes nothing.
pub proof fn lemma_entry_remove_none(a: Seq<(Seq<u8>, Seq<u8>)>, key: Seq<u8>)
    requires
        forall|i: int| 0 <= i < a.len() ==> a[i].0 != key,
    ensures
        entry_remove(a, key) == a,
    decreases a.len(),
{
    if a.len() > 0 {
        assert forall|i: int| 0 <= i < a.drop_first().len() implies a.drop_first()[i].0 != key by {
            assert(a.drop_first()[i] == a[i + 1]);
        }
        lemma_entry_remove_none(a.drop_first(), key);
        assert(seq![a[0]] + a.drop_first() =~= a);
    }
}

proof fn lemma_entry_put_at(a: Seq<(Seq<u8>, Seq<u8>)>, i: int, value: Seq<u8>)
    requires
        keys_unique(a),
        0 <= i < a.len(),
    ensures
        entry_put(a, a[i].0, value) == a.update(i, (a[i].0, value)),
    decreases a.len(),
{
    if i > 0 {
        lemma_unique_tail(a);
        assert(a.drop_first()[i - 1] == a[i]);
        lemma_entry_put_at(a.drop_first(), i - 1, value);
        assert(seq![a[0]] + a.drop_first().update(i - 1, (a[i].0, value)) =~= a.update(i, (a[i].0, value)));
    }
}

proof fn lemma_entry_put_new(a: Seq<(Seq<u8>, Seq<u8>)>, key: Seq<u8>, value: Seq<u8>)
    requires
        forall|i: int| 0 <= i < a.len() ==> a[i].0 != key,
    ensures
        entry_put(a, key, value) == a.push((key, value)),
    decreases a.len(),
{
    if a.len() > 0 {
        assert forall|i: int| 0 <= i < a.drop_first().len() implies a.drop_first()[i].0 != key by {
            assert(a.drop_first()[i] == a[i + 1]);
        }
        lemma_entry_put_new(a.drop_first(), key, value);
        assert(seq![a[0]] + a.drop_first().push((key, value)) =~= a.push((key, value)));
    } else {
        assert(seq![(key, value)] =~= a.push((key, value)));
    }
}

/// What [`ServerMap::set_item`] does is [`entry_put`].
pub proof fn lemma_entry_put(a: Seq<(Seq<u8>, Seq<u8>)>, key: Seq<u8>, value: Seq<u8>, b: Seq<(Seq<u8>, Seq<u8>)>)
    requires
        keys_unique(a),
        (exists|i: int| 0 <= i < a.len() && a[i].0 == key && b == a.update(i, (key, value))) || ((forall|i: int|
            0 <= i < a.len() ==> a[i].0 != key) && b == a.push((key, value))),
    ensures
        b == entry_put(a, key, value),
{
    if exists|i: int| 0 <= i < a.len() && a[i].0 == key && b == a.update(i, (key, value)) {
        let i = choose|i: int| 0 <= i < a.len() && a[i].0 == key && b == a.update(i, (key, value));
        lemma_entry_put_at(a, i, value);
    } else {
        lemma_entry_put_new(a, key, value);
    }
}

/// A map shared with the client, as the server keeps it: its entries'
/// serialized keys and values, no key twice.
///
/// Each change returns whether it is sent to the client: when the client is
/// connected and the map enabled.
pub struct ServerMap {
    id: u64,
    entries: Vec<(Bytes, Bytes)>,
    enabled: bool,
}

impl ServerMap {
    pub closed spec fn spec_id(&self) -> u64 {
        self.id
    }

    /// The entries' bytes, in the order they were added.
    pub closed spec fn spec_entries(&self) -> Seq<(Seq<u8>, Seq<u8>)> {
        entry_views(self.entries@)
    }

    pub closed spec fn spec_enabled(&self) -> bool {
        self.enabled
    }

    /// No key twice.
    pub open spec fn wf(&self) -> bool {
        keys_unique(self.spec_entries())
    }

    /// An empty map that is not enabled.
    pub fn new(id: u64) -> (s: Self)
        ensures
            s.wf(),
            s.spec_id() == id,
            s.spec_entries() == Seq::<(Seq<u8>, Seq<u8>)>::empty(),
            !s.spec_enabled(),
    {
        let s = ServerMap { id, entries: Vec::new(), enabled: false };
        assert(s.spec_entries() =~= Seq::<(Seq<u8>, Seq<u8>)>::empty());
        s
    }

    /// Marks the map as used by the client or not.
    pub fn enable(&mut self, enable: bool)
        ensures
            final(self).spec_enabled() == enable,
            final(self).spec_id() == old(self).spec_id(),
            final(self).spec_entries() == old(self).spec_entries(),
            final(self).wf() == old(self).wf(),
    {
        self.enabled = enable;
    }

    /// A copy of the entries.
    pub fn get(&self) -> (res: Vec<(Bytes, Bytes)>)
        ensures
            entry_views(res@) == self.spec_entries(),
    {
        let mut res: Vec<(Bytes, Bytes)> = Vec::new();
        let mut i: usize = 0;
        while i < self.entries.len()
            invariant
                i <= self.entries@.len(),
                res@.len() == i,
                forall|k: int|
                    #![trigger res@[k]]
                    0 <= k < i ==> bytes_view(res@[k].0) == bytes_view(self.entries@[k].0) && bytes_view(res@[k].1)
                        == bytes_view(self.entries@[k].1),
            decreases self.entries@.len() - i,
        {
            let key = bytes_clone(&self.entries[i].0);
            let value = bytes_clone(&self.entries[i].1);
            res.push((key, value));
            i += 1;
        }
        assert(entry_views(res@) =~= self.spec_entries());
        res
    }

    /// The number of entries.
    pub fn len(&self) -> (n: usize)
        ensures
            n == self.spec_entries().len(),
    {
        self.entries.len()
    }

    /// Where the entry with `key` stands, if there is one.
    fn find(&self, key: &Bytes) -> (res: Option<usize>)
        requires
            self.wf(),
        ensures
            match res {
                Some(i) => i < self.spec_entries().len() && self.spec_entries()[i as int].0 == bytes_view(*key),
                None => forall|i: int| 0 <= i < self.spec_entries().len() ==> self.spec_entries()[i].0 != bytes_view(*key),
            },
    {
        let mut i: usize = 0;
        while i < self.entries.len()
            invariant
                i <= self.entries@.len(),
                forall|j: int| 0 <= j < i ==> self.spec_entries()[j].0 != bytes_view(*key),
            decreases self.entries@.len() - i,
        {
            if bytes_eq(&self.entries[i].0, key) {
                return Some(i);
            }
            i += 1;
        }
        None
    }

    /// Replaces the whole map by entries with no key twice.
    pub fn set(&mut self, entries: Vec<(Bytes, Bytes)>, connected: bool) -> (send: bool)
        requires
            keys_unique(entry_views(entries@)),
        ensures
            final(self).wf(),
            send == (connected && old(self).spec_enabled()),
            final(self).spec_id() == old(self).spec_id(),
            final(self).spec_enabled() == old(self).spec_enabled(),
            final(self).spec_entries() == entry_views(entries@),
    {
        self.entries = entries;
        connected && self.enabled
    }

    /// The value under `key`, if there is one.
    pub fn get_item(&self, key: &Bytes) -> (res: Option<Bytes>)
        requires
            self.wf(),
        ensures
            match res {
                Some(v) => exists|i: int|
                    0 <= i < self.spec_entries().len() && self.spec_entries()[i].0 == bytes_view(*key)
                        && self.spec_entries()[i].1 == bytes_view(v),
                None => forall|i: int| 0 <= i < self.spec_entries().len() ==> self.spec_entries()[i].0 != bytes_view(*key),
            },
    {
        match self.find(key) {
            Some(i) => Some(bytes_clone(&self.entries[i].1)),
            None => None,
        }
    }

    /// Inserts or overwrites the value under `key`: an existing entry keeps
    /// its place, a new one comes last.
    pub fn set_item(&mut self, key: Bytes, value: Bytes, connected: bool) -> (send: bool)
        requires
            old(self).wf(),
        ensures
            final(self).wf(),
            send == (connected && old(self).spec_enabled()),
            final(self).spec_id() == old(self).spec_id(),
            final(self).spec_enabled() == old(self).spec_enabled(),
            (exists|i: int|
                0 <= i < old(self).spec_entries().len() && old(self).spec_entries()[i].0 == bytes_view(key)
                    && final(self).spec_entries() == old(self).spec_entries().update(i, (bytes_view(key), bytes_view(value))))
                || ((forall|i: int| 0 <= i < old(self).spec_entries().len() ==> old(self).spec_entries()[i].0 != bytes_view(key))
                && final(self).spec_entries() == old(self).spec_entries().push((bytes_view(key), bytes_view(value)))),
    {
        match self.find(&key) {
            Some(i) => {
                self.entries.set(i, (key, value));
                proof {
                    assert(self.spec_entries() =~= old(self).spec_entries().update(
                        i as int,
                        (bytes_view(key), bytes_view(value)),
                    ));
                }
            },
            None => {
                self.entries.push((key, value));
                proof {
                    assert(self.spec_entries() =~= old(self).spec_entries().push((bytes_view(key), bytes_view(value))));
                }
            },
        }
        connected && self.enabled
    }

    /// Removes and returns the value under `key` with whether the removal is
    /// sent; nothing happens when there is no such entry.
    pub fn remove_item(&mut self, key: &Bytes, connected: bool) -> (res: Option<(Bytes, bool)>)
        requires
            old(self).wf(),
        ensures
            final(self).wf(),
            final(self).spec_id() == old(self).spec_id(),
            final(self).spec_enabled() == old(self).spec_enabled(),
            match res {
                Some((v, send)) => send == (connected && old(self).spec_enabled()) && exists|i: int|
                    0 <= i < old(self).spec_entries().len() && old(self).spec_entries()[i].0 == bytes_view(*key)
                        && old(self).spec_entries()[i].1 == bytes_view(v) && final(self).spec_entries()
                        == old(self).spec_entries().remove(i),
                None => final(self).spec_entries() == old(self).spec_entries() && forall|i: int|
                    0 <= i < old(self).spec_entries().len() ==> old(self).spec_entries()[i].0 != bytes_view(*key),
            },
    {
        match self.find(key) {
            Some(i) => {
                let (_, v) = self.entries.remove(i);
                proof {
                    assert(self.spec_entries() =~= old(self).spec_entries().remove(i as int));
                }
                Some((v, connected && self.enabled))
            },
            None => None,
        }
    }
}

} // verus!
