use vstd::prelude::*;

use crate::channel::{acked, send_ack, ChannelMessage};
use crate::messages::VecHeader;

verus! {

/// Type-level selection of how the server buffers the callbacks of a value
/// or signal.
pub trait GetQueueType {
    /// Whether every pending change is processed, in order.
    fn is_queue() -> bool;
}

/// Single mode: pending changes may coalesce to the latest one.
pub struct NoQueue;

impl GetQueueType for NoQueue {
    fn is_queue() -> (res: bool)
        ensures
            !res,
    {
        false
    }
}

/// Queue mode: every pending change is processed.
pub struct Queue;

impl GetQueueType for Queue {
    fn is_queue() -> (res: bool)
        ensures
            res,
    {
        true
    }
}

/// The error of a refused update of the value named `name`: `mismatch` and
/// the name when the type id is not the value's, otherwise the error of
/// decoding the payload.
pub open spec fn update_error<T>(mismatch: Seq<char>, name: Seq<char>, type_ok: bool, decoded: Result<T, String>) -> Seq<
    char,
> {
    if !type_ok {
        mismatch + name
    } else {
        "Parse error: "@ + decoded->Err_0@ + " for value: "@ + name
    }
}

/// A value synchronized in both directions.
///
/// The value is kept decoded; the caller decodes incoming payloads and
/// encodes outgoing values.
pub struct Value<T> {
    name: String,
    id: u64,
    type_id: u32,
    value: T,
}

impl<T> Value<T> {
    pub closed spec fn spec_value(&self) -> T {
        self.value
    }

    pub closed spec fn spec_id(&self) -> u64 {
        self.id
    }

    /// The name the value's errors give.
    pub closed spec fn spec_name(&self) -> Seq<char> {
        self.name@
    }

    pub closed spec fn spec_type_id(&self) -> u32 {
        self.type_id
    }

    /// Creates a value with its initial content.
    pub fn new(name: String, id: u64, type_id: u32, value: T) -> (s: Self)
        ensures
            s.spec_name() == name@,
            s.spec_value() == value,
            s.spec_id() == id,
            s.spec_type_id() == type_id,
    {
        Value { name, id, type_id, value }
    }

    /// Borrows the current client value.
    pub fn read(&self) -> (r: &T)
        ensures
            *r == self.spec_value(),
    {
        &self.value
    }

    /// Replaces the client value and queues `data`, its encoding, for the
    /// server; with `signal` the server runs the value's callbacks.
    /// `size_check` is what checking the length of `data` against the largest
    /// value allowed gave: when it refused, the value is kept, nothing is
    /// queued, and the error to report is returned.
    pub fn set(
        &mut self,
        value: T,
        data: Vec<u8>,
        signal: bool,
        size_check: Result<(), String>,
        out: &mut Vec<ChannelMessage>,
    ) -> (refused: Option<String>)
        ensures
            final(self).spec_id() == old(self).spec_id(),
            final(self).spec_type_id() == old(self).spec_type_id(),
            final(self).spec_name() == old(self).spec_name(),
            size_check is Ok ==> final(self).spec_value() == value && refused is None && final(out)@ == old(
                out,
            )@.push(ChannelMessage::Value(old(self).spec_id(), old(self).spec_type_id(), signal, data)),
            size_check matches Err(e) ==> final(self).spec_value() == old(self).spec_value() && final(out)@ == old(
                out,
            )@ && (refused matches Some(r) && r@ == e@ + ", the value was not set"@),
    {
        match size_check {
            Ok(()) => {
                out.push(ChannelMessage::Value(self.id, self.type_id, signal, data));
                self.value = value;
                None
            },
            Err(e) => {
                let mut r = e;
                r.append(", the value was not set");
                Some(r)
            },
        }
    }

    /// Keeps `value`, the value after an edit in place, and queues `data`,
    /// its encoding, for the server; with `signal` the server runs the
    /// value's callbacks. When `size_check` refused the length of `data`, the
    /// edited value is kept all the same but nothing is queued, so it stays
    /// out of sync with the server, and the error to report is returned.
    pub fn write(
        &mut self,
        value: T,
        data: Vec<u8>,
        signal: bool,
        size_check: Result<(), String>,
        out: &mut Vec<ChannelMessage>,
    ) -> (refused: Option<String>)
        ensures
            final(self).spec_value() == value,
            final(self).spec_id() == old(self).spec_id(),
            final(self).spec_type_id() == old(self).spec_type_id(),
            final(self).spec_name() == old(self).spec_name(),
            size_check is Ok ==> refused is None && final(out)@ == old(out)@.push(
                ChannelMessage::Value(old(self).spec_id(), old(self).spec_type_id(), signal, data),
            ),
            size_check matches Err(e) ==> final(out)@ == old(out)@ && (refused matches Some(r) && r@ == e@
                + ", the value stays out of sync with the server"@),
    {
        self.value = value;
        match size_check {
            Ok(()) => {
                out.push(ChannelMessage::Value(self.id, self.type_id, signal, data));
                None
            },
            Err(e) => {
                let mut r = e;
                r.append(", the value stays out of sync with the server");
                Some(r)
            },
        }
    }

    /// Applies a value sent by the server. `decoded` is the payload decoded
    /// as the value's type. Every update is acknowledged, whether it is
    /// applied or refused for a wrong type id or a payload that did not
    /// decode.
    pub fn update_value(
        &mut self,
        type_id: u32,
        decoded: Result<T, String>,
        out: &mut Vec<ChannelMessage>,
    ) -> (res: Result<(), String>)
        ensures
            final(out)@ == old(out)@.push(ChannelMessage::Ack(old(self).spec_id())),
            final(self).spec_id() == old(self).spec_id(),
            final(self).spec_type_id() == old(self).spec_type_id(),
            final(self).spec_name() == old(self).spec_name(),
            res is Ok <==> type_id == old(self).spec_type_id() && decoded is Ok,
            res matches Err(e) ==> e@ == update_error(
                "Type id mismatch for Value: "@,
                old(self).spec_name(),
                type_id == old(self).spec_type_id(),
                decoded,
            ),
            final(self).spec_value() == static_after(old(self).spec_value(), type_id == old(self).spec_type_id(), decoded),
    {
        if type_id != self.type_id {
            send_ack(out, self.id);
            let mut e = String::from_str("Type id mismatch for Value: ");
            e.append(self.name.as_str());
            return Err(e);
        }
        match decoded {
            Ok(value) => {
                send_ack(out, self.id);
                self.value = value;
                Ok(())
            },
            Err(error) => {
                send_ack(out, self.id);
                let mut e = String::from_str("Parse error: ");
                e.append(error.as_str());
                e.append(" for value: ");
                e.append(self.name.as_str());
                Err(e)
            },
        }
    }
}

/// A value after an update from the server: the decoded value when the
/// type id matches and the payload decoded, else the value before.
pub open spec fn static_after<T>(value: T, type_ok: bool, decoded: Result<T, String>) -> T {
    if type_ok && decoded is Ok {
        decoded->Ok_0
    } else {
        value
    }
}

/// Whether an update (type id matches, decoded payload) is accepted.
pub open spec fn update_accepted<T>(update: (bool, Result<T, String>)) -> bool {
    update.0 && update.1 is Ok
}

/// The value after a run of updates, one [`static_after`] each.
pub open spec fn static_after_all<T>(value: T, updates: Seq<(bool, Result<T, String>)>) -> T
    decreases updates.len(),
{
    if updates.len() == 0 {
        value
    } else {
        static_after(static_after_all(value, updates.drop_last()), updates.last().0, updates.last().1)
    }
}

/// A value updated by the server (a read-only value, a small copyable one,
/// or a synchronized one between local changes) holds what its last
/// accepted update sent, or its initial value when no update was accepted.
pub proof fn lemma_static_keeps_last_accepted<T>(value: T, updates: Seq<(bool, Result<T, String>)>)
    ensures
        (forall|i: int| 0 <= i < updates.len() ==> !update_accepted(#[trigger] updates[i])) ==> static_after_all(
            value,
            updates,
        ) == value,
        forall|j: int|
            0 <= j < updates.len() && update_accepted(#[trigger] updates[j]) && (forall|k: int|
                j < k < updates.len() ==> !update_accepted(#[trigger] updates[k])) ==> static_after_all(value, updates)
                == updates[j].1->Ok_0,
    decreases updates.len(),
{
    if updates.len() > 0 {
        let rest = updates.drop_last();
        lemma_static_keeps_last_accepted(value, rest);
        assert forall|i: int| 0 <= i < rest.len() implies rest[i] == updates[i] by {}
        assert forall|j: int|
            0 <= j < updates.len() && update_accepted(#[trigger] updates[j]) && (forall|k: int|
                j < k < updates.len() ==> !update_accepted(#[trigger] updates[k])) implies static_after_all(value, updates)
            == updates[j].1->Ok_0 by {
            if j < updates.len() - 1 {
                assert(!update_accepted(updates[updates.len() - 1]));
                assert(rest[j] == updates[j]);
                assert forall|k: int| j < k < rest.len() implies !update_accepted(#[trigger] rest[k]) by {
                    assert(rest[k] == updates[k]);
                }
            }
        }
        if forall|i: int| 0 <= i < updates.len() ==> !update_accepted(#[trigger] updates[i]) {
            assert(!update_accepted(updates[updates.len() - 1]));
            assert forall|i: int| 0 <= i < rest.len() implies !update_accepted(#[trigger] rest[i]) by {
                assert(rest[i] == updates[i]);
            }
        }
    }
}

/// A server-controlled value, read-only on the client.
pub struct Static<T> {
    name: String,
    id: u64,
    type_id: u32,
    value: T,
}

impl<T> Static<T> {
    pub closed spec fn spec_value(&self) -> T {
        self.value
    }

    /// The name the value's errors give.
    pub closed spec fn spec_name(&self) -> Seq<char> {
        self.name@
    }

    pub closed spec fn spec_type_id(&self) -> u32 {
        self.type_id
    }

    /// Creates a value with its initial content.
    pub fn new(name: String, id: u64, type_id: u32, value: T) -> (s: Self)
        ensures
            s.spec_name() == name@,
            s.spec_value() == value,
            s.spec_type_id() == type_id,
    {
        Static { name, id, type_id, value }
    }

    /// Borrows the current value.
    pub fn read(&self) -> (r: &T)
        ensures
            *r == self.spec_value(),
    {
        &self.value
    }

    /// Applies a value sent by the server; static values are never
    /// acknowledged.
    pub fn update_value(&mut self, type_id: u32, decoded: Result<T, String>) -> (res: Result<(), String>)
        ensures
            final(self).spec_type_id() == old(self).spec_type_id(),
            final(self).spec_name() == old(self).spec_name(),
            res is Ok <==> type_id == old(self).spec_type_id() && decoded is Ok,
            res matches Err(e) ==> e@ == update_error(
                "Type id mismatch for Static: "@,
                old(self).spec_name(),
                type_id == old(self).spec_type_id(),
                decoded,
            ),
            final(self).spec_value() == static_after(old(self).spec_value(), type_id == old(self).spec_type_id(), decoded),
    {
        if type_id != self.type_id {
            let mut e = String::from_str("Type id mismatch for Static: ");
            e.append(self.name.as_str());
            return Err(e);
        }
        match decoded {
            Ok(value) => {
                self.value = value;
                Ok(())
            },
            Err(error) => {
                let mut e = String::from_str("Parse error: ");
                e.append(error.as_str());
                e.append(" for value: ");
                e.append(self.name.as_str());
                Err(e)
            },
        }
    }
}

/// A server-controlled value of a small copyable type, read-only on the
/// client.
pub struct StaticAtomic<T> {
    name: String,
    id: u64,
    type_id: u32,
    value: T,
}

impl<T: Copy> StaticAtomic<T> {
    pub closed spec fn spec_value(&self) -> T {
        self.value
    }

    /// The name the value's errors give.
    pub closed spec fn spec_name(&self) -> Seq<char> {
        self.name@
    }

    pub closed spec fn spec_type_id(&self) -> u32 {
        self.type_id
    }

    /// Creates a value with its initial content.
    pub fn new(name: String, id: u64, type_id: u32, value: T) -> (s: Self)
        ensures
            s.spec_name() == name@,
            s.spec_value() == value,
            s.spec_type_id() == type_id,
    {
        StaticAtomic { name, id, type_id, value }
    }

    /// Returns the current value.
    pub fn get(&self) -> (r: T)
        ensures
            r == self.spec_value(),
    {
        self.value
    }

    /// Applies a value sent by the server; static values are never
    /// acknowledged.
    pub fn update_value(&mut self, type_id: u32, decoded: Result<T, String>) -> (res: Result<(), String>)
        ensures
            final(self).spec_type_id() == old(self).spec_type_id(),
            final(self).spec_name() == old(self).spec_name(),
            res is Ok <==> type_id == old(self).spec_type_id() && decoded is Ok,
            res matches Err(e) ==> e@ == update_error(
                "Type id mismatch for AtomicStatic: "@,
                old(self).spec_name(),
                type_id == old(self).spec_type_id(),
                decoded,
            ),
            final(self).spec_value() == static_after(old(self).spec_value(), type_id == old(self).spec_type_id(), decoded),
    {
        if type_id != self.type_id {
            let mut e = String::from_str("Type id mismatch for AtomicStatic: ");
            e.append(self.name.as_str());
            return Err(e);
        }
        match decoded {
            Ok(value) => {
                self.value = value;
                Ok(())
            },
            Err(error) => {
                let mut e = String::from_str("Parse error: ");
                e.append(error.as_str());
                e.append(" for value: ");
                e.append(self.name.as_str());
                Err(e)
            },
        }
    }
}

/// A client-to-server event carrying a value without storing it.
pub struct Signal {
    id: u64,
    type_id: u32,
}

impl Signal {
    pub closed spec fn spec_id(&self) -> u64 {
        self.id
    }

    pub closed spec fn spec_type_id(&self) -> u32 {
        self.type_id
    }

    /// Creates a signal.
    pub fn new(id: u64, type_id: u32) -> (s: Self)
        ensures
            s.spec_id() == id,
            s.spec_type_id() == type_id,
    {
        Signal { id, type_id }
    }

    /// Queues `data`, the encoded value, for the server. `size_check` is
    /// what checking the length of `data` against the largest value allowed
    /// gave: when it refused, nothing is queued and the error to report is
    /// returned.
    pub fn set(&self, data: Vec<u8>, size_check: Result<(), String>, out: &mut Vec<ChannelMessage>) -> (refused: Option<
        String,
    >)
        ensures
            size_check is Ok ==> refused is None && final(out)@ == old(out)@.push(
                ChannelMessage::Signal(self.spec_id(), self.spec_type_id(), data),
            ),
            size_check matches Err(e) ==> final(out)@ == old(out)@ && (refused matches Some(r) && r@ == e@
                + ", the signal was not sent"@),
    {
        match size_check {
            Ok(()) => {
                out.push(ChannelMessage::Signal(self.id, self.type_id, data));
                None
            },
            Err(e) => {
                let mut r = e;
                r.append(", the signal was not sent");
                Some(r)
            },
        }
    }
}

/// The value waiting to be taken after an update: the decoded value with
/// its blocking flag when accepted (it replaces an untaken one), else the
/// one waiting before.
pub open spec fn pending_after<T>(pending: Option<(T, bool)>, type_ok: bool, decoded: Result<T, String>, blocking: bool) -> Option<(T, bool)> {
    if type_ok && decoded is Ok {
        Some((decoded->Ok_0, blocking))
    } else {
        pending
    }
}

/// The outgoing messages after an update: a refused blocking value is
/// acknowledged at once, an accepted one only when it is taken.
pub open spec fn out_after_update<T>(
    out: Seq<ChannelMessage>,
    type_ok: bool,
    decoded: Result<T, String>,
    blocking: bool,
    id: u64,
) -> Seq<ChannelMessage> {
    if type_ok && decoded is Ok {
        out
    } else {
        acked(out, blocking, id)
    }
}

/// What taking gives: the waiting value, and the outgoing messages with an
/// acknowledgement when that value was blocking.
pub open spec fn take_outcome<T>(pending: Option<(T, bool)>, out: Seq<ChannelMessage>, id: u64) -> (Option<T>, Seq<ChannelMessage>) {
    match pending {
        Some((v, blocking)) => (Some(v), acked(out, blocking, id)),
        None => (None, out),
    }
}

/// Taking after an accepted update gives the updated value, and sends one
/// acknowledgement exactly when that update was blocking; an update that
/// came before it and was not taken is replaced.
pub proof fn lemma_take_gives_latest_update<T>(
    pending: Option<(T, bool)>,
    out: Seq<ChannelMessage>,
    id: u64,
    decoded: Result<T, String>,
    blocking: bool,
)
    requires
        decoded is Ok,
    ensures
        take_outcome(
            pending_after(pending, true, decoded, blocking),
            out_after_update(out, true, decoded, blocking, id),
            id,
        ) == (Some(decoded->Ok_0), acked(out, blocking, id)),
{
}

/// A one-shot value sent by the server and consumed by the client.
///
/// A newly received value replaces an untaken one. Taking a blocking value
/// acknowledges it, which releases the server's next send.
pub struct ValueTake<T> {
    name: String,
    id: u64,
    type_id: u32,
    value: Option<(T, bool)>,
}

impl<T> ValueTake<T> {
    /// The value waiting to be taken, with its blocking flag.
    pub closed spec fn spec_value(&self) -> Option<(T, bool)> {
        self.value
    }

    pub closed spec fn spec_id(&self) -> u64 {
        self.id
    }

    /// The name the value's errors give.
    pub closed spec fn spec_name(&self) -> Seq<char> {
        self.name@
    }

    pub closed spec fn spec_type_id(&self) -> u32 {
        self.type_id
    }

    /// Creates an empty one-shot value.
    pub fn new(name: String, id: u64, type_id: u32) -> (s: Self)
        ensures
            s.spec_name() == name@,
            s.spec_value() is None,
            s.spec_id() == id,
            s.spec_type_id() == type_id,
    {
        ValueTake { name, id, type_id, value: None }
    }

    /// Removes and returns the waiting value; a blocking one is acknowledged.
    pub fn take(&mut self, out: &mut Vec<ChannelMessage>) -> (res: Option<T>)
        ensures
            final(self).spec_value() is None,
            final(self).spec_id() == old(self).spec_id(),
            final(self).spec_type_id() == old(self).spec_type_id(),
            final(self).spec_name() == old(self).spec_name(),
            (res, final(out)@) == take_outcome(old(self).spec_value(), old(out)@, old(self).spec_id()),
    {
        match self.value.take() {
            Some((val, blocking)) => {
                if blocking {
                    send_ack(out, self.id);
                }
                Some(val)
            },
            None => None,
        }
    }

    /// Returns whether a value waits to be taken.
    pub fn is_some(&self) -> (res: bool)
        ensures
            res == self.spec_value() is Some,
    {
        self.value.is_some()
    }

    /// Applies a value sent by the server. A refused blocking value is
    /// acknowledged at once; an accepted one when it is taken.
    pub fn update_take(
        &mut self,
        type_id: u32,
        decoded: Result<T, String>,
        blocking: bool,
        out: &mut Vec<ChannelMessage>,
    ) -> (res: Result<(), String>)
        ensures
            final(self).spec_id() == old(self).spec_id(),
            final(self).spec_type_id() == old(self).spec_type_id(),
            final(self).spec_name() == old(self).spec_name(),
            res is Ok <==> type_id == old(self).spec_type_id() && decoded is Ok,
            res matches Err(e) ==> e@ == update_error(
                "Type id mismatch for ValueTake: "@,
                old(self).spec_name(),
                type_id == old(self).spec_type_id(),
                decoded,
            ),
            final(self).spec_value() == pending_after(
                old(self).spec_value(),
                type_id == old(self).spec_type_id(),
                decoded,
                blocking,
            ),
            final(out)@ == out_after_update(
                old(out)@,
                type_id == old(self).spec_type_id(),
                decoded,
                blocking,
                old(self).spec_id(),
            ),
    {
        if type_id != self.type_id {
            if blocking {
                send_ack(out, self.id);
            }
            let mut e = String::from_str("Type id mismatch for ValueTake: ");
            e.append(self.name.as_str());
            return Err(e);
        }
        match decoded {
            Ok(value) => {
                self.value = Some((value, blocking));
                Ok(())
            },
            Err(error) => {
                if blocking {
                    send_ack(out, self.id);
                }
                let mut e = String::from_str("Parse error: ");
                e.append(error.as_str());
                e.append(" for value: ");
                e.append(self.name.as_str());
                Err(e)
            },
        }
    }
}

/// The error of a list item that did not decode.
pub open spec fn list_item_error(name: Seq<char>, error: Seq<char>) -> Seq<char> {
    "Error deserializing list item for "@ + name + ": "@ + error
}

/// What a list update does to the items: the whole list is replaced by the
/// items decoded; an item is overwritten or removed only at an index the
/// list has (other indices are ignored); an added item goes last. An update
/// whose item did not decode changes nothing, but a whole list keeps the
/// items decoded before the one that failed.
pub open spec fn list_after<T>(list: Seq<T>, header: VecHeader, decoded: Seq<T>, failed: bool) -> Seq<T> {
    match header {
        VecHeader::All(_) => decoded,
        VecHeader::SetItem(idx) => if !failed && idx < list.len() {
            list.update(idx as int, decoded[0])
        } else {
            list
        },
        VecHeader::Add => if !failed {
            list.push(decoded[0])
        } else {
            list
        },
        VecHeader::Remove(idx) => if idx < list.len() {
            list.remove(idx as int)
        } else {
            list
        },
    }
}

/// What each list update does, item by item: the whole list is replaced
/// by the decoded items; setting an item that the list has changes that item
/// alone; adding appends the item; removing an item that the list has
/// closes the gap, shifting the items after it down by one, so the list is
/// one shorter. An item that failed to decode changes nothing but a whole
/// list, and an index the list does not have changes nothing.
pub proof fn lemma_list_updates<T>(list: Seq<T>, header: VecHeader, decoded: Seq<T>, failed: bool)
    ensures
        header is All ==> list_after(list, header, decoded, failed) == decoded,
        (header matches VecHeader::SetItem(k) && !failed && k < list.len()) ==> {
            let r = list_after(list, header, decoded, failed);
            &&& r.len() == list.len()
            &&& r[header->SetItem_0 as int] == decoded[0]
            &&& forall|j: int| 0 <= j < list.len() && j != header->SetItem_0 ==> r[j] == list[j]
        },
        (header matches VecHeader::SetItem(k) && (failed || k >= list.len())) ==> list_after(
            list,
            header,
            decoded,
            failed,
        ) == list,
        (header is Add && !failed) ==> {
            let r = list_after(list, header, decoded, failed);
            &&& r.len() == list.len() + 1
            &&& r[list.len() as int] == decoded[0]
            &&& forall|j: int| 0 <= j < list.len() ==> r[j] == list[j]
        },
        (header is Add && failed) ==> list_after(list, header, decoded, failed) == list,
        (header matches VecHeader::Remove(k) && k < list.len()) ==> {
            let r = list_after(list, header, decoded, failed);
            let gap = header->Remove_0 as int;
            &&& r.len() + 1 == list.len()
            &&& forall|j: int| 0 <= j < gap ==> r[j] == list[j]
            &&& forall|j: int| gap <= j < r.len() ==> r[j] == list[j + 1]
        },
        (header matches VecHeader::Remove(k) && k >= list.len()) ==> list_after(list, header, decoded, failed)
            == list,
{
}

/// A list synchronized from the server.
///
/// Items are kept decoded; the caller decodes incoming payloads.
pub struct ValueVec<T> {
    name: String,
    list: Vec<T>,
}

impl<T> ValueVec<T> {
    pub closed spec fn spec_list(&self) -> Seq<T> {
        self.list@
    }

    /// The name the list's errors give.
    pub closed spec fn spec_name(&self) -> Seq<char> {
        self.name@
    }

    /// Creates an empty list.
    pub fn new(name: String) -> (s: Self)
        ensures
            s.spec_list() == Seq::<T>::empty(),
            s.spec_name() == name@,
    {
        ValueVec { name, list: Vec::new() }
    }

    /// Borrows the items.
    pub fn read(&self) -> (r: &Vec<T>)
        ensures
            r@ == self.spec_list(),
    {
        &self.list
    }

    /// Borrows the item at `idx`, if the list has one there.
    pub fn read_item(&self, idx: usize) -> (r: Option<&T>)
        ensures
            idx < self.spec_list().len() ==> r == Some(&self.spec_list()[idx as int]),
            idx >= self.spec_list().len() ==> r is None,
    {
        if idx < self.list.len() {
            Some(&self.list[idx])
        } else {
            None
        }
    }

    /// Applies a list update from the server. `decoded` holds the items of
    /// the payload decoded in order, and `error` the error of the first item
    /// that did not decode, if any: the whole list for `All`, one item for
    /// `SetItem` and `Add`, nothing for `Remove`.
    pub fn update_list(&mut self, header: VecHeader, decoded: Vec<T>, error: Option<String>) -> (res: Result<
        (),
        String,
    >)
        requires
            (header is SetItem || header is Add) && error is None ==> decoded.len() == 1,
        ensures
            final(self).spec_name() == old(self).spec_name(),
            final(self).spec_list() == list_after(old(self).spec_list(), header, decoded@, error is Some),
            res is Err <==> error is Some && !(header is Remove),
            res matches Err(e) ==> e@ == list_item_error(old(self).spec_name(), error->0@),
    {
        let mut decoded = decoded;
        match header {
            VecHeader::All(_) => {
                self.list = decoded;
                match error {
                    Some(e) => Err(self.item_error(&e)),
                    None => Ok(()),
                }
            },
            VecHeader::SetItem(idx) => {
                match error {
                    Some(e) => Err(self.item_error(&e)),
                    None => {
                        if idx < self.list.len() as u64 {
                            let item = decoded.pop().unwrap();
                            self.list.set(idx as usize, item);
                        }
                        Ok(())
                    },
                }
            },
            VecHeader::Add => {
                match error {
                    Some(e) => Err(self.item_error(&e)),
                    None => {
                        let item = decoded.pop().unwrap();
                        self.list.push(item);
                        Ok(())
                    },
                }
            },
            VecHeader::Remove(idx) => {
                if idx < self.list.len() as u64 {
                    self.list.remove(idx as usize);
                }
                Ok(())
            },
        }
    }

    fn item_error(&self, error: &String) -> (e: String)
        ensures
            e@ == list_item_error(self.spec_name(), error@),
    {
        let mut e = String::from_str("Error deserializing list item for ");
        e.append(self.name.as_str());
        e.append(": ");
        e.append(error.as_str());
        e
    }
}

} // verus!
