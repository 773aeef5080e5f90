use vstd::prelude::*;

use crate::channel::{acked, send_ack, ChannelMessage};
use crate::data_transport::{DataType, TransportType};
use crate::text::{decimal, push_decimal, push_wide_decimal};
use std::collections::HashMap;

verus! {

broadcast use vstd::std_specs::hash::group_hash_axioms;

/// A message for a synchronized data buffer, carrying its raw bytes.
#[derive(Debug)]
pub enum DataMessage {
    /// data type, how to apply the payload, bytes of all elements
    All(DataType, TransportType, Vec<u8>),
    /// total element count, bytes of the first batch
    BatchStart(u64, Vec<u8>),
    /// bytes of a middle batch
    Batch(Vec<u8>),
    /// data type, how to apply the payload, bytes of the last batch
    BatchEnd(DataType, TransportType, Vec<u8>),
    /// start index and element count to remove
    Drain(u64, u64),
    Clear,
}

/// A message for a keyed collection of data buffers.
#[derive(Debug)]
pub enum DataMultiMessage {
    Remove(u32),
    Modify(u32, DataMessage),
    Reset,
}

impl DataMessage {
    /// The messages that a data buffer acknowledges on arrival: those that
    /// change the stored elements.
    pub open spec fn spec_requires_ack(&self) -> bool {
        self is All || self is BatchEnd || self is Drain
    }

    /// Returns whether the message is acknowledged by the buffer it targets.
    pub fn requires_ack(&self) -> (res: bool)
        ensures
            res == self.spec_requires_ack(),
    {
        match self {
            DataMessage::All(..) | DataMessage::BatchEnd(..) | DataMessage::Drain(..) => true,
            _ => false,
        }
    }
}

impl DataMultiMessage {
    /// A keyed message needs an acknowledgement when its inner message does.
    pub open spec fn spec_requires_ack(&self) -> bool {
        match self {
            DataMultiMessage::Modify(_, m) => m.spec_requires_ack(),
            _ => false,
        }
    }

    /// Returns whether the message is acknowledged by the collection it targets.
    pub fn requires_ack(&self) -> (res: bool)
        ensures
            res == self.spec_requires_ack(),
    {
        match self {
            DataMultiMessage::Modify(_, m) => m.requires_ack(),
            _ => false,
        }
    }
}

/// The stored bytes after applying a complete payload `data` of `n` elements
/// of `es` bytes each, or `None` when the payload does not fit the transport.
pub open spec fn apply_transport(inner: Seq<u8>, data: Seq<u8>, n: nat, es: nat, t: TransportType) -> Option<Seq<u8>> {
    match t {
        TransportType::SetAll(count) => if n == count {
            Some(data)
        } else {
            None
        },
        TransportType::Add(count) => if n == count {
            Some(inner + data)
        } else {
            None
        },
        TransportType::Replace(start, count) => if n == count && (start + n) * es <= inner.len() {
            Some(inner.subrange(0, start * es) + data + inner.subrange((start + n) * es, inner.len() as int))
        } else {
            None
        },
    }
}

/// What each way of applying a payload does to the stored bytes, byte by
/// byte: `SetAll` replaces them with the payload; `Add` keeps them and
/// appends the payload; `Replace` overwrites the payload's span from the
/// start element on and keeps every other byte. Each applies only when the
/// payload holds the announced number of elements, and `Replace` only when
/// the span lies within the stored elements.
pub proof fn lemma_transport_bytes(inner: Seq<u8>, data: Seq<u8>, n: nat, es: nat, t: TransportType)
    requires
        data.len() == n * es,
    ensures
        ({
            let r = apply_transport(inner, data, n, es, t);
            match t {
                TransportType::SetAll(count) => (r is Some <==> n == count) && (r matches Some(x) ==> x == data),
                TransportType::Add(count) => (r is Some <==> n == count) && (r matches Some(x) ==> {
                    &&& x.len() == inner.len() + data.len()
                    &&& forall|j: int| 0 <= j < inner.len() ==> x[j] == inner[j]
                    &&& forall|j: int| 0 <= j < data.len() ==> x[inner.len() + j] == data[j]
                }),
                TransportType::Replace(start, count) => (r is Some <==> n == count && start * es + data.len()
                    <= inner.len()) && (r matches Some(x) ==> {
                    &&& x.len() == inner.len()
                    &&& forall|j: int|
                        0 <= j < inner.len() && (j < start * es || j >= start * es + data.len()) ==> x[j] == inner[j]
                    &&& forall|k: int| 0 <= k < data.len() ==> x[start * es + k] == data[k]
                }),
            }
        }),
{
    match t {
        TransportType::Replace(start, count) => {
            assert((start + n) * es == start * es + n * es) by (nonlinear_arith);
            assert(0 <= start * es) by (nonlinear_arith);
            let r = apply_transport(inner, data, n, es, t);
            if r is Some {
                let x = r->0;
                let a = start * es;
                assert forall|k: int| 0 <= k < data.len() implies x[a + k] == data[k] by {
                    assert(x[a + k] == (inner.subrange(0, a) + data)[a + k]);
                }
            }
        },
        _ => {},
    }
}

/// Removing elements takes out exactly their bytes: on success the stored
/// bytes before the first removed element stay, the ones after the last
/// removed element move down to close the gap, and the bytes are shorter by
/// the removed elements; a range past the stored elements changes nothing.
pub proof fn lemma_drain_bytes(es: nat, dt: DataType, st: DataState, index: u64, count: u64)
    ensures
        ({
            let o = data_step(es, dt, st, DataMessage::Drain(index, count));
            &&& o.ok <==> index * es + count * es <= st.inner.len()
            &&& o.state.buffer == st.buffer
            &&& o.ok ==> {
                &&& o.state.inner.len() + count * es == st.inner.len()
                &&& forall|j: int| 0 <= j < index * es ==> o.state.inner[j] == st.inner[j]
                &&& forall|j: int| index * es <= j < o.state.inner.len() ==> o.state.inner[j] == st.inner[j + count
                    * es]
            }
            &&& !o.ok ==> o.state == st
        }),
{
    assert((index + count) * es == index * es + count * es) by (nonlinear_arith);
    assert(0 <= index * es && 0 <= count * es) by (nonlinear_arith);
}

/// Abstract state of a data buffer: the stored elements' bytes and the batch
/// transfer in progress (bytes so far, their element count, announced total).
pub struct DataState {
    pub inner: Seq<u8>,
    pub buffer: Option<(Seq<u8>, nat, nat)>,
}

/// Result of applying one message to a data buffer.
pub struct DataOutcome {
    pub state: DataState,
    pub ack: bool,
    pub ok: bool,
}

/// What applying `msg` does to a data buffer of element type `dt` whose
/// elements are `es` bytes long.
pub open spec fn data_step(es: nat, dt: DataType, st: DataState, msg: DataMessage) -> DataOutcome {
    match msg {
        DataMessage::All(d, t, data) => {
            if d != dt {
                DataOutcome { state: st, ack: false, ok: false }
            } else if data@.len() % es != 0 {
                DataOutcome { state: st, ack: true, ok: false }
            } else {
                match apply_transport(st.inner, data@, data@.len() / es, es, t) {
                    Some(inner) => DataOutcome {
                        state: DataState { inner, buffer: st.buffer },
                        ack: true,
                        ok: true,
                    },
                    None => DataOutcome { state: st, ack: true, ok: false },
                }
            }
        },
        DataMessage::BatchStart(count, data) => {
            if data@.len() <= count * es && data@.len() % es == 0 {
                DataOutcome {
                    state: DataState {
                        inner: st.inner,
                        buffer: Some((data@, data@.len() / es, count as nat)),
                    },
                    ack: false,
                    ok: true,
                }
            } else {
                DataOutcome { state: st, ack: false, ok: false }
            }
        },
        DataMessage::Batch(data) => {
            match st.buffer {
                Some((bytes, elements, total)) => {
                    if data@.len() % es == 0 && elements + data@.len() / es <= total {
                        DataOutcome {
                            state: DataState {
                                inner: st.inner,
                                buffer: Some((bytes + data@, elements + data@.len() / es, total)),
                            },
                            ack: false,
                            ok: true,
                        }
                    } else {
                        DataOutcome { state: st, ack: false, ok: false }
                    }
                },
                None => DataOutcome { state: st, ack: false, ok: false },
            }
        },
        DataMessage::BatchEnd(d, t, data) => {
            if d != dt {
                DataOutcome { state: st, ack: false, ok: false }
            } else {
                let cleared = DataState { inner: st.inner, buffer: None };
                match st.buffer {
                    Some((bytes, elements, total)) => {
                        if data@.len() % es == 0 && elements + data@.len() / es == total {
                            match apply_transport(st.inner, bytes + data@, total, es, t) {
                                Some(inner) => DataOutcome {
                                    state: DataState { inner, buffer: None },
                                    ack: true,
                                    ok: true,
                                },
                                None => DataOutcome { state: cleared, ack: true, ok: false },
                            }
                        } else {
                            DataOutcome { state: cleared, ack: true, ok: false }
                        }
                    },
                    None => DataOutcome { state: cleared, ack: true, ok: false },
                }
            }
        },
        DataMessage::Drain(index, count) => {
            if (index + count) * es <= st.inner.len() {
                DataOutcome {
                    state: DataState {
                        inner: st.inner.subrange(0, index * es) + st.inner.subrange(
                            (index + count) * es,
                            st.inner.len() as int,
                        ),
                        buffer: st.buffer,
                    },
                    ack: true,
                    ok: true,
                }
            } else {
                DataOutcome { state: st, ack: true, ok: false }
            }
        },
        DataMessage::Clear => DataOutcome {
            state: DataState { inner: Seq::empty(), buffer: None },
            ack: false,
            ok: true,
        },
    }
}

/// Stored bytes are whole elements, and a batch in progress holds exactly its
/// elements, never more than announced.
pub open spec fn data_state_wf(st: DataState, es: nat) -> bool {
    &&& st.inner.len() % es == 0
    &&& match st.buffer {
        Some((bytes, elements, total)) => bytes.len() == elements * es && elements <= total,
        None => true,
    }
}

/// Whether a message that names an element type names `dt`.
pub open spec fn carries_type(msg: DataMessage, dt: DataType) -> bool {
    match msg {
        DataMessage::All(d, _, _) => d == dt,
        DataMessage::BatchEnd(d, _, _) => d == dt,
        _ => true,
    }
}

/// A data buffer acknowledges exactly the messages that change its stored
/// elements (a complete payload, the last batch, a drain) and carry its
/// element type, whether or not they succeed; it acknowledges nothing else.
pub proof fn lemma_data_acks(es: nat, dt: DataType, st: DataState, msg: DataMessage)
    ensures
        data_step(es, dt, st, msg).ack <==> msg.spec_requires_ack() && carries_type(msg, dt),
{
}

/// A refused message never changes the stored elements.
pub proof fn lemma_data_refusal_keeps(es: nat, dt: DataType, st: DataState, msg: DataMessage)
    ensures
        !data_step(es, dt, st, msg).ok ==> data_step(es, dt, st, msg).state.inner == st.inner,
{
}

/// Sending elements in three batches (first, middle, last) stores what
/// sending them in one message stores, with the same outcome and
/// acknowledgement.
pub proof fn lemma_batches_as_whole(
    es: nat,
    dt: DataType,
    st: DataState,
    count: u64,
    t: TransportType,
    first: Vec<u8>,
    middle: Vec<u8>,
    last: Vec<u8>,
    whole: Vec<u8>,
)
    requires
        es > 0,
        whole@ == first@ + middle@ + last@,
        first@.len() % es == 0,
        middle@.len() % es == 0,
        last@.len() % es == 0,
        whole@.len() == count * es,
    ensures
        ({
            let s1 = data_step(es, dt, st, DataMessage::BatchStart(count, first)).state;
            let s2 = data_step(es, dt, s1, DataMessage::Batch(middle)).state;
            let o3 = data_step(es, dt, s2, DataMessage::BatchEnd(dt, t, last));
            let o = data_step(es, dt, st, DataMessage::All(dt, t, whole));
            &&& o3.ok == o.ok
            &&& o3.ack == o.ack
            &&& o3.state.inner == o.state.inner
        }),
{
    let f = first@.len();
    let m = middle@.len();
    let l = last@.len();
    lemma_whole(f, es);
    lemma_whole(m, es);
    lemma_whole(l, es);
    let fe = f / es;
    let me = m / es;
    let le = l / es;
    lemma_add_mul(fe, me, es);
    lemma_add_mul(fe + me, le, es);
    lemma_mul_mod(fe + me, es);
    lemma_mul_mod(count as nat, es);
    assert(f + m == (fe + me) * es);
    assert((f + m) / es == fe + me);
    assert((fe + me + le) * es == count * es);
    assert(fe + me + le == count) by (nonlinear_arith)
        requires
            (fe + me + le) * es == count * es,
            es > 0,
    ;
    assert(whole@.len() % es == 0);
    assert(whole@.len() / es == count);
    assert(f <= count * es);
    let s1 = data_step(es, dt, st, DataMessage::BatchStart(count, first)).state;
    assert(s1.buffer == Some((first@, fe, count as nat)));
    let s2 = data_step(es, dt, s1, DataMessage::Batch(middle)).state;
    assert(s2.buffer == Some((first@ + middle@, fe + me, count as nat)));
    assert(first@ + middle@ + last@ == whole@);
}

proof fn lemma_mul_bound(a: nat, es: nat)
    requires
        a <= 0x2_0000_0000_0000_0000,
        es <= 8,
    ensures
        a * es <= 0x10_0000_0000_0000_0000,
{
    assert(a * es <= 0x10_0000_0000_0000_0000) by (nonlinear_arith)
        requires
            a <= 0x2_0000_0000_0000_0000,
            es <= 8,
    ;
}

proof fn lemma_whole(len: nat, es: nat)
    requires
        es > 0,
        len % es == 0,
    ensures
        len == (len / es) * es,
{
    vstd::arithmetic::div_mod::lemma_fundamental_div_mod(len as int, es as int);
    assert(len == (len / es) * es) by (nonlinear_arith)
        requires
            len as int == es * (len / es) + len % es,
            len % es == 0,
    ;
}

proof fn lemma_mul_mod(k: nat, es: nat)
    requires
        es > 0,
    ensures
        (k * es) % es == 0,
        (k * es) / es == k,
{
    vstd::arithmetic::div_mod::lemma_mod_multiples_basic(k as int, es as int);
    vstd::arithmetic::div_mod::lemma_div_multiples_vanish(k as int, es as int);
    assert(k * es == es * k) by (nonlinear_arith);
}

proof fn lemma_add_mul(a: nat, b: nat, es: nat)
    ensures
        (a + b) * es == a * es + b * es,
{
    assert((a + b) * es == a * es + b * es) by (nonlinear_arith);
}

/// An error text that names two numbers: `first`, `a`, `second`, `b`.
pub open spec fn numbers_text(first: Seq<char>, a: nat, second: Seq<char>, b: nat) -> Seq<char> {
    first + decimal(a) + second + decimal(b)
}

/// The error of a message whose element type is not the buffer's.
pub open spec fn data_type_error(got: DataType, expected: DataType, name: Seq<char>) -> Seq<char> {
    "Data type "@ + got.spec_name() + " does not match expected type "@ + expected.spec_name() + " for Data: "@
        + name
}

/// The error of a range from `start` to `end` that reaches past the `size`
/// elements stored; `what` names the operation.
pub open spec fn range_error(what: Seq<char>, start: nat, end: nat, size: nat) -> Seq<char> {
    what + " range ("@ + decimal(start) + " to "@ + decimal(end) + ") exceeds current data size "@ + decimal(size)
}

/// The error of a complete payload of `n` elements that does not fit the
/// transport, over `stored` elements.
pub open spec fn transport_error(stored: nat, n: nat, t: TransportType) -> Seq<char> {
    match t {
        TransportType::SetAll(count) => numbers_text("Data size "@, n, " does not match expected count "@, count as nat)
            + " for Set transport type"@,
        TransportType::Add(count) => numbers_text("Data size "@, n, " does not match expected count "@, count as nat)
            + " for Add transport type"@,
        TransportType::Replace(start, count) => if n != count {
            numbers_text("Data size "@, n, " does not match expected count "@, count as nat)
                + " for Replace transport type"@
        } else {
            range_error("Replace"@, start as nat, (start + count) as nat, stored)
        },
    }
}

/// The error that applying `msg` gives, where [`data_step`] says it fails, to
/// the buffer named `name`.
pub open spec fn data_error(es: nat, dt: DataType, name: Seq<char>, st: DataState, msg: DataMessage) -> Seq<char> {
    match msg {
        DataMessage::All(d, t, data) => if d != dt {
            data_type_error(d, dt, name)
        } else if data@.len() % es != 0 {
            numbers_text("Data size "@, data@.len(), " is not a multiple of element size "@, es)
        } else {
            transport_error(st.inner.len() / es, data@.len() / es, t)
        },
        DataMessage::BatchStart(count, data) => if data@.len() > count * es {
            numbers_text("Batch start data size "@, data@.len(), " exceeds total data size "@, (count * es) as nat)
        } else {
            numbers_text("Batch start data size "@, data@.len(), " is not a multiple of element size "@, es)
        },
        DataMessage::Batch(data) => match st.buffer {
            Some((_, elements, total)) => if data@.len() % es != 0 {
                numbers_text("Batch data size "@, data@.len(), " is not a multiple of element size "@, es)
            } else {
                numbers_text("Batch data size "@, elements + data@.len() / es, " exceeds total data size "@, total)
            },
            None => "No header found for Data: "@ + name + " when updating batch"@,
        },
        DataMessage::BatchEnd(d, t, data) => if d != dt {
            data_type_error(d, dt, name)
        } else {
            match st.buffer {
                Some((_, elements, total)) => if data@.len() % es != 0 {
                    numbers_text("Batch data size "@, data@.len(), " is not a multiple of element size "@, es)
                } else if elements + data@.len() / es != total {
                    numbers_text(
                        "Batch end data size "@,
                        elements + data@.len() / es,
                        " does not match total data size "@,
                        total,
                    )
                } else {
                    transport_error(st.inner.len() / es, total, t)
                },
                None => "No header found for Data: "@ + name + " when updating batch end"@,
            }
        },
        DataMessage::Drain(index, count) => range_error(
            "Drain"@,
            index as nat,
            (index + count) as nat,
            st.inner.len() / es,
        ),
        DataMessage::Clear => Seq::empty(),
    }
}

fn range_text(what: &str, start: u128, end: u128, size: u128) -> (e: String)
    ensures
        e@ == range_error(what@, start as nat, end as nat, size as nat),
{
    let mut e = String::from_str(what);
    e.append(" range (");
    push_wide_decimal(&mut e, start);
    e.append(" to ");
    push_wide_decimal(&mut e, end);
    e.append(") exceeds current data size ");
    push_wide_decimal(&mut e, size);
    e
}

fn count_text(n: u128, count: u64, tail: &str) -> (e: String)
    ensures
        e@ == numbers_text("Data size "@, n as nat, " does not match expected count "@, count as nat) + tail@,
{
    let mut e = message_text("Data size ", n, " does not match expected count ", count as u128);
    e.append(tail);
    e
}

fn message_text(first: &str, a: u128, second: &str, b: u128) -> (e: String)
    ensures
        e@ == numbers_text(first@, a as nat, second@, b as nat),
{
    let mut e = String::from_str(first);
    push_wide_decimal(&mut e, a);
    e.append(second);
    push_wide_decimal(&mut e, b);
    e
}

/// A data buffer synchronized from the server.
///
/// Elements are kept as their raw bytes; the caller reinterprets them as
/// values of the element type.
pub struct Data {
    name: String,
    id: u64,
    data_type: DataType,
    element_size: usize,
    inner: Vec<u8>,
    buffer: Option<(Vec<u8>, u64, u64)>,
}

impl Data {
    /// The buffer's abstract state.
    pub closed spec fn state(&self) -> DataState {
        DataState {
            inner: self.inner@,
            buffer: match self.buffer {
                Some((b, e, t)) => Some((b@, e as nat, t as nat)),
                None => None,
            },
        }
    }

    pub closed spec fn spec_id(&self) -> u64 {
        self.id
    }

    /// The name the buffer's errors give.
    pub closed spec fn spec_name(&self) -> Seq<char> {
        self.name@
    }

    /// The id of this state.
    pub fn id(&self) -> (r: u64)
        ensures
            r == self.spec_id(),
    {
        self.id
    }

    pub closed spec fn spec_data_type(&self) -> DataType {
        self.data_type
    }

    /// The element size matches the element type and all bytes form whole
    /// elements.
    pub closed spec fn wf(&self) -> bool {
        &&& self.element_size == self.data_type.spec_item_size()
        &&& data_state_wf(self.state(), self.element_size as nat)
    }

    /// Creates an empty buffer for elements of `data_type`.
    pub fn new(name: String, id: u64, data_type: DataType) -> (s: Self)
        ensures
            s.wf(),
            s.spec_id() == id,
            s.spec_name() == name@,
            s.spec_data_type() == data_type,
            s.state().inner == Seq::<u8>::empty(),
            s.state().buffer is None,
    {
        let s = Data {
            name,
            id,
            data_type,
            element_size: data_type.item_size(),
            inner: Vec::new(),
            buffer: None,
        };
        proof {
            vstd::arithmetic::div_mod::lemma_mod_self_0(s.element_size as int);
            vstd::arithmetic::div_mod::lemma_small_mod(0, s.element_size as nat);
        }
        s
    }

    /// Returns a copy of the stored elements' bytes.
    pub fn get(&self) -> (res: Vec<u8>)
        ensures
            res@ == self.state().inner,
    {
        let mut res: Vec<u8> = Vec::new();
        let mut i: usize = 0;
        while i < self.inner.len()
            invariant
                i <= self.inner@.len(),
                res@ == self.inner@.subrange(0, i as int),
            decreases self.inner@.len() - i,
        {
            res.push(self.inner[i]);
            i += 1;
            assert(res@ =~= self.inner@.subrange(0, i as int));
        }
        assert(res@ =~= self.inner@);
        res
    }

    /// Applies a complete payload to the stored elements.
    fn save_data(&mut self, mut data: Vec<u8>, transport: TransportType) -> (res: Result<(), String>)
        requires
            old(self).wf(),
            data@.len() % (old(self).element_size as nat) == 0,
        ensures
            final(self).wf(),
            final(self).id == old(self).id,
            final(self).data_type == old(self).data_type,
            final(self).buffer == old(self).buffer,
            final(self).name == old(self).name,
            ({
                let r = apply_transport(
                    old(self).inner@,
                    data@,
                    data@.len() / (old(self).element_size as nat),
                    old(self).element_size as nat,
                    transport,
                );
                &&& res is Ok == r is Some
                &&& res matches Err(e) ==> e@ == transport_error(
                    old(self).inner@.len() / (old(self).element_size as nat),
                    data@.len() / (old(self).element_size as nat),
                    transport,
                )
                &&& final(self).inner@ == match r {
                    Some(inner) => inner,
                    None => old(self).inner@,
                }
            }),
    {
        let es = self.element_size;
        let n = data.len() / es;
        proof {
            lemma_whole(data@.len(), es as nat);
        }
        match transport {
            TransportType::SetAll(count) => {
                if n as u64 != count {
                    return Err(count_text(n as u128, count, " for Set transport type"));
                }
                self.inner = data;
                Ok(())
            },
            TransportType::Add(count) => {
                if n as u64 != count {
                    return Err(count_text(n as u128, count, " for Add transport type"));
                }
                proof {
                    vstd::arithmetic::div_mod::lemma_mod_adds(
                        self.inner@.len() as int,
                        data@.len() as int,
                        es as int,
                    );
                }
                self.inner.append(&mut data);
                Ok(())
            },
            TransportType::Replace(start, count) => {
                if n as u64 != count {
                    return Err(count_text(n as u128, count, " for Replace transport type"));
                }
                proof {
                    lemma_mul_bound((start + n) as nat, es as nat);
                }
                if (start as u128 + n as u128) * es as u128 > self.inner.len() as u128 {
                    return Err(
                        range_text(
                            "Replace",
                            start as u128,
                            start as u128 + count as u128,
                            (self.inner.len() / es) as u128,
                        ),
                    );
                }
                proof {
                    lemma_add_mul(start as nat, n as nat, es as nat);
                    lemma_mul_mod(start as nat, es as nat);
                    lemma_mul_mod((start + n) as nat, es as nat);
                }
                let start_byte = start as usize * es;
                let end_byte = start_byte + data.len();
                let ghost old_inner = self.inner@;
                let ghost d0 = data@;
                let mut tail = self.inner.split_off(end_byte);
                self.inner.truncate(start_byte);
                self.inner.append(&mut data);
                self.inner.append(&mut tail);
                proof {
                    assert(start_byte == start * es);
                    assert(end_byte == (start + n) * es);
                    assert(self.inner@ =~= old_inner.subrange(0, start_byte as int) + d0
                        + old_inner.subrange(end_byte as int, old_inner.len() as int));
                    assert(self.inner@.len() == old_inner.len());
                }
                Ok(())
            },
        }
    }

    /// Applies a message from the server.
    pub fn update(&mut self, message: DataMessage, out: &mut Vec<ChannelMessage>) -> (res: Result<(), String>)
        requires
            old(self).wf(),
        ensures
            final(self).wf(),
            final(self).spec_id() == old(self).spec_id(),
            final(self).spec_data_type() == old(self).spec_data_type(),
            ({
                let o = data_step(
                    old(self).spec_data_type().spec_item_size(),
                    old(self).spec_data_type(),
                    old(self).state(),
                    message,
                );
                &&& final(self).state() == o.state
                &&& final(out)@ == acked(old(out)@, o.ack, old(self).spec_id())
                &&& res is Ok == o.ok
                &&& res matches Err(e) ==> e@ == data_error(
                    old(self).spec_data_type().spec_item_size(),
                    old(self).spec_data_type(),
                    old(self).spec_name(),
                    old(self).state(),
                    message,
                )
            }),
            final(self).spec_name() == old(self).spec_name(),
    {
        match message {
            DataMessage::All(d, transport, data) => self.set_all(d, transport, data, out),
            DataMessage::BatchStart(count, data) => self.batch_start(count, data, out),
            DataMessage::Batch(data) => self.batch(data, out),
            DataMessage::BatchEnd(d, transport, data) => self.batch_end(d, transport, data, out),
            DataMessage::Drain(index, count) => self.drain(index, count, out),
            DataMessage::Clear => {
                self.inner.clear();
                self.buffer = None;
                proof {
                    vstd::arithmetic::div_mod::lemma_small_mod(0, self.element_size as nat);
                }
                Ok(())
            },
        }
    }

    fn set_all(&mut self, d: DataType, transport: TransportType, data: Vec<u8>, out: &mut Vec<ChannelMessage>) -> (res: Result<(), String>)
        requires
            old(self).wf(),
        ensures
            final(self).wf(),
            final(self).id == old(self).id,
            final(self).data_type == old(self).data_type,
            ({
                let o = data_step(old(self).element_size as nat, old(self).data_type, old(self).state(), DataMessage::All(d, transport, data));
                &&& final(self).state() == o.state
                &&& final(out)@ == acked(old(out)@, o.ack, old(self).id)
                &&& res is Ok == o.ok
                &&& res matches Err(e) ==> e@ == data_error(
                    old(self).element_size as nat,
                    old(self).data_type,
                    old(self).name@,
                    old(self).state(),
                    DataMessage::All(d, transport, data),
                )
            }),
            final(self).name == old(self).name,
    {
        let es = self.element_size;
        if d != self.data_type {
            return Err(type_error(d, self.data_type, &self.name));
        }
        send_ack(out, self.id);
        if data.len() % es != 0 {
            return Err(message_text("Data size ", data.len() as u128, " is not a multiple of element size ", es as u128));
        }
        self.save_data(data, transport)
    }

    fn batch_start(&mut self, count: u64, data: Vec<u8>, out: &mut Vec<ChannelMessage>) -> (res: Result<(), String>)
        requires
            old(self).wf(),
        ensures
            final(self).wf(),
            final(self).id == old(self).id,
            final(self).data_type == old(self).data_type,
            ({
                let o = data_step(old(self).element_size as nat, old(self).data_type, old(self).state(), DataMessage::BatchStart(count, data));
                &&& final(self).state() == o.state
                &&& final(out)@ == acked(old(out)@, o.ack, old(self).id)
                &&& res is Ok == o.ok
                &&& res matches Err(e) ==> e@ == data_error(
                    old(self).element_size as nat,
                    old(self).data_type,
                    old(self).name@,
                    old(self).state(),
                    DataMessage::BatchStart(count, data),
                )
            }),
            final(self).name == old(self).name,
    {
        let es = self.element_size;
        let ghost esn = es as nat;
        proof {
            lemma_mul_bound(count as nat, esn);
        }
        if data.len() as u128 > count as u128 * es as u128 {
            return Err(
                message_text(
                    "Batch start data size ",
                    data.len() as u128,
                    " exceeds total data size ",
                    count as u128 * es as u128,
                ),
            );
        }
        if data.len() % es != 0 {
            return Err(message_text("Batch start data size ", data.len() as u128, " is not a multiple of element size ", es as u128));
        }
        proof {
            lemma_whole(data@.len(), esn);
            assert(data@.len() / esn <= count) by (nonlinear_arith)
                requires
                    data@.len() == (data@.len() / esn) * esn,
                    data@.len() <= count * esn,
                    esn > 0,
            ;
        }
        let elements = (data.len() / es) as u64;
        self.buffer = Some((data, elements, count));
        Ok(())
    }

    fn batch(&mut self, data: Vec<u8>, out: &mut Vec<ChannelMessage>) -> (res: Result<(), String>)
        requires
            old(self).wf(),
        ensures
            final(self).wf(),
            final(self).id == old(self).id,
            final(self).data_type == old(self).data_type,
            ({
                let o = data_step(old(self).element_size as nat, old(self).data_type, old(self).state(), DataMessage::Batch(data));
                &&& final(self).state() == o.state
                &&& final(out)@ == acked(old(out)@, o.ack, old(self).id)
                &&& res is Ok == o.ok
                &&& res matches Err(e) ==> e@ == data_error(
                    old(self).element_size as nat,
                    old(self).data_type,
                    old(self).name@,
                    old(self).state(),
                    DataMessage::Batch(data),
                )
            }),
            final(self).name == old(self).name,
    {
        let es = self.element_size;
        let ghost esn = es as nat;
        let ghost d0 = data@;
        let mut data = data;
        let mut taken: Option<(Vec<u8>, u64, u64)> = None;
        std::mem::swap(&mut taken, &mut self.buffer);
        match taken {
            Some((mut bytes, elements, total)) => {
                if data.len() % es != 0 {
                    self.buffer = Some((bytes, elements, total));
                    return Err(message_text("Batch data size ", data.len() as u128, " is not a multiple of element size ", es as u128));
                }
                let added = (data.len() / es) as u64;
                if elements as u128 + added as u128 > total as u128 {
                    self.buffer = Some((bytes, elements, total));
                    return Err(
                        message_text(
                            "Batch data size ",
                            elements as u128 + added as u128,
                            " exceeds total data size ",
                            total as u128,
                        ),
                    );
                }
                proof {
                    lemma_whole(data@.len(), esn);
                    lemma_add_mul(elements as nat, added as nat, esn);
                }
                bytes.append(&mut data);
                self.buffer = Some((bytes, elements + added, total));
                Ok(())
            },
            None => Err(named_text("No header found for Data: ", &self.name, " when updating batch")),
        }
    }

    fn batch_end(&mut self, d: DataType, transport: TransportType, data: Vec<u8>, out: &mut Vec<ChannelMessage>) -> (res: Result<(), String>)
        requires
            old(self).wf(),
        ensures
            final(self).wf(),
            final(self).id == old(self).id,
            final(self).data_type == old(self).data_type,
            ({
                let o = data_step(old(self).element_size as nat, old(self).data_type, old(self).state(), DataMessage::BatchEnd(d, transport, data));
                &&& final(self).state() == o.state
                &&& final(out)@ == acked(old(out)@, o.ack, old(self).id)
                &&& res is Ok == o.ok
                &&& res matches Err(e) ==> e@ == data_error(
                    old(self).element_size as nat,
                    old(self).data_type,
                    old(self).name@,
                    old(self).state(),
                    DataMessage::BatchEnd(d, transport, data),
                )
            }),
            final(self).name == old(self).name,
    {
        let es = self.element_size;
        let ghost esn = es as nat;
        let mut data = data;
        if d != self.data_type {
            return Err(type_error(d, self.data_type, &self.name));
        }
        send_ack(out, self.id);
        let mut taken: Option<(Vec<u8>, u64, u64)> = None;
        std::mem::swap(&mut taken, &mut self.buffer);
        match taken {
            Some((mut bytes, elements, total)) => {
                if data.len() % es != 0 {
                    return Err(message_text("Batch data size ", data.len() as u128, " is not a multiple of element size ", es as u128));
                }
                let added = (data.len() / es) as u64;
                if elements as u128 + added as u128 != total as u128 {
                    return Err(
                        message_text(
                            "Batch end data size ",
                            elements as u128 + added as u128,
                            " does not match total data size ",
                            total as u128,
                        ),
                    );
                }
                proof {
                    lemma_whole(data@.len(), esn);
                    lemma_add_mul(elements as nat, added as nat, esn);
                    lemma_mul_mod(total as nat, esn);
                }
                bytes.append(&mut data);
                self.save_data(bytes, transport)
            },
            None => Err(named_text("No header found for Data: ", &self.name, " when updating batch end")),
        }
    }

    fn drain(&mut self, index: u64, count: u64, out: &mut Vec<ChannelMessage>) -> (res: Result<(), String>)
        requires
            old(self).wf(),
        ensures
            final(self).wf(),
            final(self).id == old(self).id,
            final(self).data_type == old(self).data_type,
            ({
                let o = data_step(old(self).element_size as nat, old(self).data_type, old(self).state(), DataMessage::Drain(index, count));
                &&& final(self).state() == o.state
                &&& final(out)@ == acked(old(out)@, o.ack, old(self).id)
                &&& res is Ok == o.ok
                &&& res matches Err(e) ==> e@ == data_error(
                    old(self).element_size as nat,
                    old(self).data_type,
                    old(self).name@,
                    old(self).state(),
                    DataMessage::Drain(index, count),
                )
            }),
            final(self).name == old(self).name,
    {
        let es = self.element_size;
        let ghost esn = es as nat;
        send_ack(out, self.id);
        proof {
            lemma_mul_bound((index + count) as nat, esn);
        }
        if (index as u128 + count as u128) * es as u128 > self.inner.len() as u128 {
            return Err(
                range_text(
                    "Drain",
                    index as u128,
                    index as u128 + count as u128,
                    (self.inner.len() / es) as u128,
                ),
            );
        }
        proof {
            lemma_add_mul(index as nat, count as nat, esn);
            lemma_mul_mod(index as nat, esn);
            lemma_mul_mod(count as nat, esn);
        }
        let start_byte = index as usize * es;
        let end_byte = start_byte + count as usize * es;
        let ghost old_inner = self.inner@;
        let mut tail = self.inner.split_off(end_byte);
        self.inner.truncate(start_byte);
        self.inner.append(&mut tail);
        proof {
            assert(self.inner@ =~= old_inner.subrange(0, index * esn) + old_inner.subrange(
                (index + count) * esn,
                old_inner.len() as int,
            ));
            vstd::arithmetic::div_mod::lemma_mod_adds(
                (index * esn) as int,
                (old_inner.len() - (index + count) * esn) as int,
                esn as int,
            );
            vstd::arithmetic::div_mod::lemma_mod_adds(
                ((index + count) * esn) as int,
                (old_inner.len() - (index + count) * esn) as int,
                esn as int,
            );
            lemma_mul_mod((index + count) as nat, esn);
        }
        Ok(())
    }
}

fn type_error(got: DataType, expected: DataType, name: &String) -> (e: String)
    ensures
        e@ == data_type_error(got, expected, name@),
{
    let mut e = String::from_str("Data type ");
    e.append(got.name());
    e.append(" does not match expected type ");
    e.append(expected.name());
    e.append(" for Data: ");
    e.append(name.as_str());
    e
}

fn named_text(first: &str, name: &String, tail: &str) -> (e: String)
    ensures
        e@ == first@ + name@ + tail@,
{
    let mut e = String::from_str(first);
    e.append(name.as_str());
    e.append(tail);
    e
}

/// The state of a buffer that has received nothing yet.
pub open spec fn empty_data_state() -> DataState {
    DataState { inner: Seq::empty(), buffer: None }
}

/// Result of applying one message to a keyed collection of data buffers.
pub struct MultiDataOutcome {
    pub states: Map<u32, DataState>,
    pub ack: bool,
    pub ok: bool,
}

/// What applying `msg` to the buffer under `key` does to the collection: the
/// buffer under `key` (an empty one if there was none) changes as
/// [`data_step`] says, and every other key is left alone.
pub open spec fn multi_data_step(
    es: nat,
    dt: DataType,
    states: Map<u32, DataState>,
    key: u32,
    msg: DataMessage,
) -> MultiDataOutcome {
    let st = if states.contains_key(key) {
        states[key]
    } else {
        empty_data_state()
    };
    let o = data_step(es, dt, st, msg);
    MultiDataOutcome { states: states.insert(key, o.state), ack: o.ack, ok: o.ok }
}

/// A keyed collection of data buffers of one element type.
pub struct DataMulti {
    name: String,
    id: u64,
    data_type: DataType,
    inner: HashMap<u32, Data>,
}

impl DataMulti {
    /// The buffers' abstract states by key.
    pub closed spec fn states(&self) -> Map<u32, DataState> {
        self.inner@.map_values(|d: Data| d.state())
    }

    pub closed spec fn spec_id(&self) -> u64 {
        self.id
    }

    /// The id of this state.
    pub fn id(&self) -> (r: u64)
        ensures
            r == self.spec_id(),
    {
        self.id
    }

    pub closed spec fn spec_data_type(&self) -> DataType {
        self.data_type
    }

    /// The name the collection's errors give.
    pub closed spec fn spec_name(&self) -> Seq<char> {
        self.name@
    }

    /// Every buffer is well formed and shares the collection's id, name and
    /// type.
    pub closed spec fn wf(&self) -> bool {
        forall|k: u32| #[trigger]
            self.inner@.contains_key(k) ==> self.inner@[k].wf() && self.inner@[k].spec_id() == self.id
                && self.inner@[k].spec_data_type() == self.data_type && self.inner@[k].spec_name() == self.name@
    }

    /// Creates an empty collection for elements of `data_type`.
    pub fn new(name: String, id: u64, data_type: DataType) -> (s: Self)
        ensures
            s.wf(),
            s.spec_id() == id,
            s.spec_name() == name@,
            s.spec_data_type() == data_type,
            s.states() == Map::<u32, DataState>::empty(),
    {
        let s = DataMulti { name, id, data_type, inner: HashMap::new() };
        assert(s.states() =~= Map::<u32, DataState>::empty());
        s
    }

    /// Returns a copy of the elements' bytes stored under `key`.
    pub fn get(&self, key: u32) -> (res: Option<Vec<u8>>)
        ensures
            self.states().contains_key(key) ==> res is Some && res->0@ == self.states()[key].inner,
            !self.states().contains_key(key) ==> res is None,
    {
        match self.inner.get(&key) {
            Some(d) => Some(d.get()),
            None => None,
        }
    }

    /// Drops the buffer under `key`.
    pub fn remove(&mut self, key: u32)
        requires
            old(self).wf(),
        ensures
            final(self).wf(),
            final(self).spec_id() == old(self).spec_id(),
            final(self).spec_data_type() == old(self).spec_data_type(),
            final(self).states() == old(self).states().remove(key),
            final(self).spec_name() == old(self).spec_name(),
    {
        self.inner.remove(&key);
        assert(self.states() =~= old(self).states().remove(key));
    }

    /// Drops every buffer.
    pub fn reset(&mut self)
        requires
            old(self).wf(),
        ensures
            final(self).wf(),
            final(self).spec_id() == old(self).spec_id(),
            final(self).spec_data_type() == old(self).spec_data_type(),
            final(self).states() == Map::<u32, DataState>::empty(),
            final(self).spec_name() == old(self).spec_name(),
    {
        self.inner.clear();
        assert(self.states() =~= Map::<u32, DataState>::empty());
    }

    /// Applies a message from the server to the buffer under `key`.
    pub fn update(&mut self, key: u32, message: DataMessage, out: &mut Vec<ChannelMessage>) -> (res: Result<(), String>)
        requires
            old(self).wf(),
        ensures
            final(self).wf(),
            final(self).spec_id() == old(self).spec_id(),
            final(self).spec_data_type() == old(self).spec_data_type(),
            ({
                let o = multi_data_step(
                    old(self).spec_data_type().spec_item_size(),
                    old(self).spec_data_type(),
                    old(self).states(),
                    key,
                    message,
                );
                &&& final(self).states() == o.states
                &&& final(out)@ == acked(old(out)@, o.ack, old(self).spec_id())
                &&& res is Ok == o.ok
                &&& res matches Err(e) ==> e@ == data_error(
                    old(self).spec_data_type().spec_item_size(),
                    old(self).spec_data_type(),
                    old(self).spec_name(),
                    if old(self).states().contains_key(key) {
                        old(self).states()[key]
                    } else {
                        empty_data_state()
                    },
                    message,
                )
            }),
            final(self).spec_name() == old(self).spec_name(),
    {
        let ghost pre = self.states();
        let mut entry = match self.inner.remove(&key) {
            Some(d) => d,
            None => Data::new(self.name.clone(), self.id, self.data_type),
        };
        proof {
            if pre.contains_key(key) {
                assert(entry.state() == pre[key]);
            } else {
                assert(entry.state() =~= empty_data_state());
            }
        }
        let res = entry.update(message, out);
        self.inner.insert(key, entry);
        proof {
            let o = multi_data_step(self.data_type.spec_item_size(), self.data_type, pre, key, message);
            assert(self.states() =~= o.states);
        }
        res
    }
}

} // verus!
