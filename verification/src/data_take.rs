use vstd::prelude::*;

use crate::channel::{acked, send_ack, ChannelMessage};
use crate::data_transport::DataType;
use crate::data::numbers_text;
use crate::text::{decimal, push_decimal, push_wide_decimal};
use std::collections::HashMap;

verus! {

broadcast use vstd::std_specs::hash::group_hash_axioms;

/// A message for a one-shot data buffer, carrying its raw bytes.
#[derive(Debug)]
pub enum DataTakeMessage {
    /// data type, element count, bytes of all elements
    All(DataType, u64, Vec<u8>),
    /// total element count, bytes of the first batch
    BatchStart(u64, Vec<u8>),
    /// bytes of a middle batch
    Batch(Vec<u8>),
    /// data type, total element count, bytes of the last batch
    BatchEnd(DataType, u64, Vec<u8>),
}

/// A message for a keyed collection of one-shot data buffers.
#[derive(Debug)]
pub enum DataMultiTakeMessage {
    Remove(u32),
    /// key, message for the buffer under the key, blocking flag
    Modify(u32, DataTakeMessage, bool),
    Reset,
}

impl DataTakeMessage {
    /// A message is terminal when it completes a transfer.
    pub open spec fn spec_is_terminal(&self) -> bool {
        self is All || self is BatchEnd
    }

    /// Returns whether the message completes a transfer.
    pub fn is_terminal(&self) -> (res: bool)
        ensures
            res == self.spec_is_terminal(),
    {
        match self {
            DataTakeMessage::All(..) | DataTakeMessage::BatchEnd(..) => true,
            _ => false,
        }
    }
}

impl DataMultiTakeMessage {
    /// A message must be acknowledged when its target cannot take it exactly
    /// when it is a blocking, terminal modification.
    pub open spec fn spec_requires_ack_on_failure(&self) -> bool {
        match self {
            DataMultiTakeMessage::Modify(_, message, blocking) => *blocking
                && message.spec_is_terminal(),
            _ => false,
        }
    }

    /// Returns whether a failure to apply the message must be acknowledged.
    pub fn requires_ack_on_failure(&self) -> (res: bool)
        ensures
            res == self.spec_requires_ack_on_failure(),
    {
        match self {
            DataMultiTakeMessage::Modify(_, message, blocking) => *blocking && message.is_terminal(),
            DataMultiTakeMessage::Remove(_) | DataMultiTakeMessage::Reset => false,
        }
    }
}

/// State of a transfer that arrives in batches.
#[derive(Debug)]
pub enum TakeBatch {
    Empty,
    /// bytes received so far, their element count, the announced total
    /// element count and the blocking flag of the transfer
    Receiving { buffer: Vec<u8>, elements: u64, total: u64, blocking: bool },
    /// a batch was refused; the error is reported when the transfer ends
    Failed { error: String, blocking: bool },
}

/// Abstract state of a batch transfer.
pub enum BatchModel {
    Empty,
    Receiving { bytes: Seq<u8>, elements: nat, total: nat, blocking: bool },
    /// the error to report when the transfer ends
    Failed { error: Seq<char>, blocking: bool },
}

impl TakeBatch {
    pub open spec fn model(&self) -> BatchModel {
        match self {
            TakeBatch::Empty => BatchModel::Empty,
            TakeBatch::Receiving { buffer, elements, total, blocking } => BatchModel::Receiving {
                bytes: buffer@,
                elements: *elements as nat,
                total: *total as nat,
                blocking: *blocking,
            },
            TakeBatch::Failed { error, blocking } => BatchModel::Failed { error: error@, blocking: *blocking },
        }
    }
}

/// A received batch holds exactly its elements' bytes, never more elements
/// than announced.
pub open spec fn batch_wf(b: BatchModel, es: nat) -> bool {
    match b {
        BatchModel::Receiving { bytes, elements, total, .. } => bytes.len() == elements * es
            && elements <= total,
        _ => true,
    }
}

/// Abstract state of a one-shot buffer: the value waiting to be taken
/// (bytes and blocking flag) and the batch in progress.
pub struct TakeState {
    pub stored: Option<(Seq<u8>, bool)>,
    pub batch: BatchModel,
}

/// Result of applying one message: the new state, whether an acknowledgement
/// is sent, whether the message was accepted, and the error given when it
/// was not.
pub struct TakeOutcome {
    pub state: TakeState,
    pub ack: bool,
    pub ok: bool,
    pub error: Seq<char>,
}

/// The error of a message whose element type is not the buffer's; `kind`
/// names the kind of buffer.
pub open spec fn take_type_error(kind: Seq<char>, got: DataType, expected: DataType, name: Seq<char>) -> Seq<char> {
    "Data type "@ + got.spec_name() + " does not match expected type "@ + expected.spec_name() + " for "@ + kind
        + ": "@ + name
}

/// The batch after a middle batch `data` arrives with blocking flag
/// `blocking` at the buffer named `name`.
pub open spec fn next_batch(es: nat, label: Seq<char>, batch: BatchModel, data: Seq<u8>, blocking: bool) -> BatchModel {
    match batch {
        BatchModel::Receiving { bytes, elements, total, blocking: bb } => {
            if bb != blocking {
                BatchModel::Failed {
                    error: "Blocking flag changed within a batch for "@ + label,
                    blocking: bb || blocking,
                }
            } else if data.len() % es != 0 {
                BatchModel::Failed {
                    error: numbers_text(
                        "Batch data size "@,
                        data.len(),
                        " is not a multiple of element size "@,
                        es,
                    ),
                    blocking: bb || blocking,
                }
            } else if elements + data.len() / es > total {
                BatchModel::Failed {
                    error: numbers_text(
                        "Batch data size "@,
                        elements + data.len() / es,
                        " exceeds total data size "@,
                        total,
                    ),
                    blocking: bb || blocking,
                }
            } else {
                BatchModel::Receiving {
                    bytes: bytes + data,
                    elements: elements + data.len() / es,
                    total,
                    blocking: bb,
                }
            }
        },
        BatchModel::Failed { error, blocking: bb } => BatchModel::Failed { error, blocking: bb || blocking },
        BatchModel::Empty => BatchModel::Failed {
            error: "No header found for "@ + label + " when updating batch"@,
            blocking,
        },
    }
}

/// Why the last batch `data` of `count` elements, of element type `d`, does
/// not complete a transfer that is receiving, or `None` when it does.
pub open spec fn end_problem(
    es: nat,
    dt: DataType,
    kind: Seq<char>,
    name: Seq<char>,
    label: Seq<char>,
    elements: nat,
    bb: bool,
    d: DataType,
    count: u64,
    data: Seq<u8>,
    blocking: bool,
) -> Option<Seq<char>> {
    if bb != blocking {
        Some("Blocking flag changed within a batch for "@ + label)
    } else if d != dt {
        Some(take_type_error(kind, d, dt, name))
    } else if data.len() % es != 0 {
        Some(numbers_text("Batch data size "@, data.len(), " is not a multiple of element size "@, es))
    } else if elements + data.len() / es != count {
        Some(
            numbers_text(
                "Batch end data size "@,
                elements + data.len() / es,
                " does not match total data size "@,
                count as nat,
            ),
        )
    } else {
        None
    }
}

/// What applying `msg` with blocking flag `blocking` does to a one-shot buffer
/// of element type `dt`, whose elements are `es` bytes long, named `name`
/// (a buffer of the kind `kind`).
///
/// A complete payload is stored when its type and size match; a batch
/// transfer keeps collecting bytes until its end, and a refused batch is
/// remembered and reported at the end. Only terminal messages are ever
/// acknowledged, and only when they fail and the transfer is blocking.
pub open spec fn take_step(
    es: nat,
    dt: DataType,
    kind: Seq<char>,
    name: Seq<char>,
    label: Seq<char>,
    st: TakeState,
    msg: DataTakeMessage,
    blocking: bool,
) -> TakeOutcome {
    match msg {
        DataTakeMessage::All(d, count, data) => {
            if d != dt {
                TakeOutcome { state: st, ack: blocking, ok: false, error: take_type_error(kind, d, dt, name) }
            } else if data@.len() != count * es {
                TakeOutcome {
                    state: st,
                    ack: blocking,
                    ok: false,
                    error: numbers_text(
                        "Data size "@,
                        data@.len(),
                        " does not match expected count "@,
                        count as nat,
                    ) + " for "@ + kind + ": "@ + name,
                }
            } else {
                TakeOutcome {
                    state: TakeState { stored: Some((data@, blocking)), batch: st.batch },
                    ack: false,
                    ok: true,
                    error: Seq::empty(),
                }
            }
        },
        DataTakeMessage::BatchStart(count, data) => {
            let batch = if data@.len() > count * es {
                BatchModel::Failed {
                    error: numbers_text(
                        "Batch start data size "@,
                        data@.len(),
                        " exceeds total data size "@,
                        (count * es) as nat,
                    ),
                    blocking,
                }
            } else if data@.len() % es != 0 {
                BatchModel::Failed {
                    error: numbers_text(
                        "Batch start data size "@,
                        data@.len(),
                        " is not a multiple of element size "@,
                        es,
                    ),
                    blocking,
                }
            } else {
                BatchModel::Receiving {
                    bytes: data@,
                    elements: data@.len() / es,
                    total: count as nat,
                    blocking,
                }
            };
            TakeOutcome {
                state: TakeState { stored: st.stored, batch },
                ack: false,
                ok: true,
                error: Seq::empty(),
            }
        },
        DataTakeMessage::Batch(data) => TakeOutcome {
            state: TakeState { stored: st.stored, batch: next_batch(es, label, st.batch, data@, blocking) },
            ack: false,
            ok: true,
            error: Seq::empty(),
        },
        DataTakeMessage::BatchEnd(d, count, data) => {
            let cleared = TakeState { stored: st.stored, batch: BatchModel::Empty };
            match st.batch {
                BatchModel::Failed { error, blocking: bb } => TakeOutcome {
                    state: cleared,
                    ack: bb || blocking,
                    ok: false,
                    error,
                },
                BatchModel::Empty => TakeOutcome {
                    state: cleared,
                    ack: blocking,
                    ok: false,
                    error: "No header found for "@ + label + " when updating batch end"@,
                },
                BatchModel::Receiving { bytes, elements, blocking: bb, .. } => {
                    match end_problem(es, dt, kind, name, label, elements, bb, d, count, data@, blocking) {
                        None => TakeOutcome {
                            state: TakeState {
                                stored: Some((bytes + data@, blocking)),
                                batch: BatchModel::Empty,
                            },
                            ack: false,
                            ok: true,
                            error: Seq::empty(),
                        },
                        Some(error) => TakeOutcome { state: cleared, ack: bb || blocking, ok: false, error },
                    }
                },
            }
        },
    }
}

/// Acknowledgements of a one-shot buffer: only a terminal message that fails
/// is ever acknowledged on arrival, and a failing terminal message of a
/// blocking transfer always is, so the server is never left waiting; a
/// non-terminal message is always accepted and never acknowledged.
pub proof fn lemma_take_acks(
    es: nat,
    dt: DataType,
    kind: Seq<char>,
    name: Seq<char>,
    label: Seq<char>,
    st: TakeState,
    msg: DataTakeMessage,
    blocking: bool,
)
    ensures
        ({
            let o = take_step(es, dt, kind, name, label, st, msg, blocking);
            &&& o.ack ==> !o.ok && msg.spec_is_terminal()
            &&& !msg.spec_is_terminal() ==> o.ok && !o.ack
            &&& msg.spec_is_terminal() && blocking && !o.ok ==> o.ack
        }),
{
}

/// A refused message never replaces the value waiting to be taken, and an
/// accepted terminal message stores exactly the transferred bytes, remembering
/// whether the transfer was blocking.
pub proof fn lemma_take_stores(
    es: nat,
    dt: DataType,
    kind: Seq<char>,
    name: Seq<char>,
    label: Seq<char>,
    st: TakeState,
    msg: DataTakeMessage,
    blocking: bool,
)
    requires
        es > 0,
        batch_wf(st.batch, es),
    ensures
        ({
            let o = take_step(es, dt, kind, name, label, st, msg, blocking);
            &&& !o.ok ==> o.state.stored == st.stored
            &&& !msg.spec_is_terminal() ==> o.state.stored == st.stored
            &&& o.ok && msg.spec_is_terminal() ==> (o.state.stored matches Some((bytes, b)) && b
                == blocking && bytes.len() == (match msg {
                DataTakeMessage::All(_, count, _) => count * es,
                DataTakeMessage::BatchEnd(_, count, _) => count * es,
                _ => 0,
            }))
            &&& msg.spec_is_terminal() ==> o.state.batch is Empty || msg is All
        }),
{
    let o = take_step(es, dt, kind, name, label, st, msg, blocking);
    match msg {
        DataTakeMessage::BatchEnd(d, count, data) => {
            match st.batch {
                BatchModel::Receiving { bytes, elements, .. } => {
                    if o.ok {
                        lemma_len_elements(data@.len(), es);
                        assert((elements + data@.len() / es) * es == elements * es + (data@.len() / es) * es)
                            by (nonlinear_arith);
                    }
                },
                _ => {},
            }
        },
        _ => {},
    }
}

fn type_mismatch_error(kind: &str, got: DataType, expected: DataType, name: &String) -> (e: String)
    ensures
        e@ == take_type_error(kind@, got, expected, name@),
{
    let mut e = String::from_str("Data type ");
    e.append(got.name());
    e.append(" does not match expected type ");
    e.append(expected.name());
    e.append(" for ");
    e.append(kind);
    e.append(": ");
    e.append(name.as_str());
    e
}

fn size_error(first: &str, size: u128, second: &str, expected: u128) -> (e: String)
    ensures
        e@ == numbers_text(first@, size as nat, second@, expected as nat),
{
    let mut e = String::from_str(first);
    push_wide_decimal(&mut e, size);
    e.append(second);
    push_wide_decimal(&mut e, expected);
    e
}

fn named_error(first: &str, name: &String, tail: &str) -> (e: String)
    ensures
        e@ == first@ + name@ + tail@,
{
    let mut e = String::from_str(first);
    e.append(name.as_str());
    e.append(tail);
    e
}

fn flag_error(label: &String) -> (e: String)
    ensures
        e@ == "Blocking flag changed within a batch for "@ + label@,
{
    let mut e = String::from_str("Blocking flag changed within a batch for ");
    e.append(label.as_str());
    e
}

proof fn lemma_len_elements(len: nat, es: nat)
    requires
        es > 0,
        len % es == 0,
    ensures
        len == (len / es) * es,
{
    vstd::arithmetic::div_mod::lemma_fundamental_div_mod(len as int, es as int);
    assert(len == (len / es) * es) by (nonlinear_arith)
        requires
            len as int == es * (len / es) + len % es,
            len % es == 0,
    ;
}

proof fn lemma_le_mul(len: nat, count: nat, es: nat)
    requires
        es > 0,
        len % es == 0,
        len <= count * es,
    ensures
        len / es <= count,
{
    lemma_len_elements(len, es);
    assert(len / es <= count) by (nonlinear_arith)
        requires
            len == (len / es) * es,
            len <= count * es,
            es > 0,
    ;
}

/// The batch that a first batch `data` of a transfer of `count` elements
/// starts.
fn started_batch(dt: DataType, es: usize, count: u64, data: Vec<u8>, blocking: bool) -> (b: TakeBatch)
    requires
        es == dt.spec_item_size(),
    ensures
        b.model() == (if data@.len() > count * es {
            BatchModel::Failed {
                error: numbers_text(
                    "Batch start data size "@,
                    data@.len(),
                    " exceeds total data size "@,
                    (count * es) as nat,
                ),
                blocking,
            }
        } else if data@.len() % (es as nat) != 0 {
            BatchModel::Failed {
                error: numbers_text(
                    "Batch start data size "@,
                    data@.len(),
                    " is not a multiple of element size "@,
                    es as nat,
                ),
                blocking,
            }
        } else {
            BatchModel::Receiving {
                bytes: data@,
                elements: data@.len() / (es as nat),
                total: count as nat,
                blocking,
            }
        }),
        batch_wf(b.model(), es as nat),
{
    let ghost esn = es as nat;
    proof {
        lemma_count_bytes(count, es);
    }
    if data.len() as u128 > count as u128 * es as u128 {
        let e = size_error(
            "Batch start data size ",
            data.len() as u128,
            " exceeds total data size ",
            count as u128 * es as u128,
        );
        return TakeBatch::Failed { error: e, blocking };
    }
    if data.len() % es != 0 {
        let e = size_error(
            "Batch start data size ",
            data.len() as u128,
            " is not a multiple of element size ",
            es as u128,
        );
        return TakeBatch::Failed { error: e, blocking };
    }
    proof {
        lemma_le_mul(data@.len(), count as nat, esn);
        lemma_len_elements(data@.len(), esn);
    }
    let elements = (data.len() / es) as u64;
    TakeBatch::Receiving { buffer: data, elements, total: count, blocking }
}

/// The batch after a middle batch `data` arrives (see [`next_batch`]).
fn continued_batch(dt: DataType, es: usize, label: &String, current: TakeBatch, data: Vec<u8>, blocking: bool) -> (b:
    TakeBatch)
    requires
        es == dt.spec_item_size(),
        batch_wf(current.model(), es as nat),
    ensures
        b.model() == next_batch(es as nat, label@, current.model(), data@, blocking),
        batch_wf(b.model(), es as nat),
{
    let ghost esn = es as nat;
    let mut data = data;
    match current {
        TakeBatch::Receiving { mut buffer, elements, total, blocking: batch_blocking } => {
            if batch_blocking != blocking {
                TakeBatch::Failed { error: flag_error(label), blocking: batch_blocking || blocking }
            } else if data.len() % es != 0 {
                TakeBatch::Failed {
                    error: size_error(
                        "Batch data size ",
                        data.len() as u128,
                        " is not a multiple of element size ",
                        es as u128,
                    ),
                    blocking: batch_blocking || blocking,
                }
            } else {
                let added = (data.len() / es) as u64;
                if elements as u128 + added as u128 > total as u128 {
                    TakeBatch::Failed {
                        error: size_error(
                            "Batch data size ",
                            elements as u128 + added as u128,
                            " exceeds total data size ",
                            total as u128,
                        ),
                        blocking: batch_blocking || blocking,
                    }
                } else {
                    proof {
                        lemma_len_elements(data@.len(), esn);
                        assert((elements + added) * esn == elements * esn + added * esn) by (nonlinear_arith);
                    }
                    buffer.append(&mut data);
                    TakeBatch::Receiving { buffer, elements: elements + added, total, blocking: batch_blocking }
                }
            }
        },
        TakeBatch::Failed { error, blocking: batch_blocking } => TakeBatch::Failed {
            error,
            blocking: batch_blocking || blocking,
        },
        TakeBatch::Empty => TakeBatch::Failed {
            error: named_error("No header found for ", label, " when updating batch"),
            blocking,
        },
    }
}

/// Checks that the last batch `data` completes a receiving transfer (see
/// [`end_problem`]).
fn end_check(
    kind: &str,
    name: &String,
    label: &String,
    dt: DataType,
    es: usize,
    elements: u64,
    batch_blocking: bool,
    d: DataType,
    count: u64,
    data: &Vec<u8>,
    blocking: bool,
) -> (r: Result<(), String>)
    requires
        es == dt.spec_item_size(),
    ensures
        match end_problem(es as nat, dt, kind@, name@, label@, elements as nat, batch_blocking, d, count, data@, blocking) {
            None => r is Ok,
            Some(e) => r matches Err(x) && x@ == e,
        },
{
    if batch_blocking != blocking {
        Err(flag_error(label))
    } else if d != dt {
        Err(type_mismatch_error(kind, d, dt, name))
    } else if data.len() % es != 0 {
        Err(size_error("Batch data size ", data.len() as u128, " is not a multiple of element size ", es as u128))
    } else if elements as u128 + (data.len() / es) as u128 != count as u128 {
        Err(
            size_error(
                "Batch end data size ",
                elements as u128 + (data.len() / es) as u128,
                " does not match total data size ",
                count as u128,
            ),
        )
    } else {
        Ok(())
    }
}

/// An element count times an element size never leaves `u128`.
proof fn lemma_count_bytes(count: u64, es: usize)
    requires
        es <= 8,
    ensures
        count * es <= 8 * 0xffff_ffff_ffff_ffff,
{
    assert(count * es <= 8 * 0xffff_ffff_ffff_ffff) by (nonlinear_arith)
        requires
            es <= 8,
            count <= 0xffff_ffff_ffff_ffff,
    ;
}

/// Applies one message to a one-shot buffer's stored value and batch.
fn take_update(
    kind: &str,
    name: &String,
    label: &String,
    id: u64,
    dt: DataType,
    es: usize,
    stored: &mut Option<(Vec<u8>, bool)>,
    batch: &mut TakeBatch,
    message: DataTakeMessage,
    blocking: bool,
    out: &mut Vec<ChannelMessage>,
) -> (res: Result<(), String>)
    requires
        es == dt.spec_item_size(),
        batch_wf(old(batch).model(), es as nat),
    ensures
        ({
            let o = take_step(
                es as nat,
                dt,
                kind@,
                name@,
                label@,
                TakeState {
                    stored: match *old(stored) {
                        Some((v, b)) => Some((v@, b)),
                        None => None,
                    },
                    batch: old(batch).model(),
                },
                message,
                blocking,
            );
            &&& o.state.stored == match *final(stored) {
                Some((v, b)) => Some((v@, b)),
                None => None,
            }
            &&& o.state.batch == final(batch).model()
            &&& final(out)@ == acked(old(out)@, o.ack, id)
            &&& res is Ok == o.ok
            &&& res matches Err(e) ==> e@ == o.error
        }),
        batch_wf(final(batch).model(), es as nat),
        *final(stored) is Some || *final(stored) == *old(stored),
{
    let ghost esn = es as nat;
    match message {
        DataTakeMessage::All(d, count, data) => {
            if d != dt {
                if blocking {
                    send_ack(out, id);
                }
                return Err(type_mismatch_error(kind, d, dt, name));
            }
            proof {
                lemma_count_bytes(count, es);
            }
            if data.len() as u128 != count as u128 * es as u128 {
                if blocking {
                    send_ack(out, id);
                }
                let mut e = size_error("Data size ", data.len() as u128, " does not match expected count ", count as u128);
                e.append(" for ");
                e.append(kind);
                e.append(": ");
                e.append(name.as_str());
                return Err(e);
            }
            *stored = Some((data, blocking));
            Ok(())
        },
        DataTakeMessage::BatchStart(count, data) => {
            *batch = started_batch(dt, es, count, data, blocking);
            Ok(())
        },
        DataTakeMessage::Batch(data) => {
            let mut current = TakeBatch::Empty;
            std::mem::swap(&mut current, batch);
            *batch = continued_batch(dt, es, label, current, data, blocking);
            Ok(())
        },
        DataTakeMessage::BatchEnd(d, count, mut data) => {
            let mut current = TakeBatch::Empty;
            std::mem::swap(&mut current, batch);
            match current {
                TakeBatch::Failed { error, blocking: batch_blocking } => {
                    if batch_blocking || blocking {
                        send_ack(out, id);
                    }
                    Err(error)
                },
                TakeBatch::Empty => {
                    if blocking {
                        send_ack(out, id);
                    }
                    Err(named_error("No header found for ", label, " when updating batch end"))
                },
                TakeBatch::Receiving { mut buffer, elements, total, blocking: batch_blocking } => {
                    match end_check(kind, name, label, dt, es, elements, batch_blocking, d, count, &data, blocking) {
                        Ok(()) => {
                            buffer.append(&mut data);
                            *stored = Some((buffer, blocking));
                            Ok(())
                        },
                        Err(error) => {
                            if batch_blocking || blocking {
                                send_ack(out, id);
                            }
                            Err(error)
                        },
                    }
                },
            }
        },
    }
}

/// A one-shot data buffer: each received buffer replaces an untaken one and
/// is consumed once by [`DataTake::take`].
///
/// Elements are kept as their raw bytes; the caller reinterprets them as
/// values of the element type.
pub struct DataTake {
    name: String,
    id: u64,
    data_type: DataType,
    element_size: usize,
    inner: Option<(Vec<u8>, bool)>,
    batch: TakeBatch,
}

impl DataTake {
    /// The buffer's abstract state.
    pub closed spec fn state(&self) -> TakeState {
        TakeState {
            stored: match self.inner {
                Some((v, b)) => Some((v@, b)),
                None => None,
            },
            batch: self.batch.model(),
        }
    }

    pub closed spec fn spec_id(&self) -> u64 {
        self.id
    }

    /// The id of this state.
    pub fn id(&self) -> (r: u64)
        ensures
            r == self.spec_id(),
    {
        self.id
    }

    pub closed spec fn spec_data_type(&self) -> DataType {
        self.data_type
    }

    /// The name the buffer's errors give.
    pub closed spec fn spec_name(&self) -> Seq<char> {
        self.name@
    }

    /// The element size matches the element type, and the batch in progress
    /// holds whole elements.
    pub closed spec fn wf(&self) -> bool {
        &&& self.element_size == self.data_type.spec_item_size()
        &&& batch_wf(self.batch.model(), self.element_size as nat)
    }

    /// Creates an empty buffer for elements of `data_type`.
    pub fn new(name: String, id: u64, data_type: DataType) -> (s: Self)
        ensures
            s.wf(),
            s.spec_id() == id,
            s.spec_name() == name@,
            s.spec_data_type() == data_type,
            s.state().stored is None,
            s.state().batch is Empty,
    {
        DataTake {
            name,
            id,
            data_type,
            element_size: data_type.item_size(),
            inner: None,
            batch: TakeBatch::Empty,
        }
    }

    /// Removes and returns the waiting bytes; taking a blocking value
    /// acknowledges it.
    pub fn take(&mut self, out: &mut Vec<ChannelMessage>) -> (res: Option<Vec<u8>>)
        requires
            old(self).wf(),
        ensures
            final(self).wf(),
            final(self).spec_id() == old(self).spec_id(),
            final(self).spec_data_type() == old(self).spec_data_type(),
            final(self).spec_name() == old(self).spec_name(),
            final(self).state().stored is None,
            final(self).state().batch == old(self).state().batch,
            match old(self).state().stored {
                Some((bytes, blocking)) => res is Some && res->0@ == bytes && final(out)@ == acked(
                    old(out)@,
                    blocking,
                    old(self).spec_id(),
                ),
                None => res is None && final(out)@ == old(out)@,
            },
    {
        match self.inner.take() {
            Some((val, blocking)) => {
                if blocking {
                    send_ack(out, self.id);
                }
                Some(val)
            },
            None => None,
        }
    }

    /// Returns whether a value waits to be taken.
    pub fn is_some(&self) -> (res: bool)
        ensures
            res == self.state().stored is Some,
    {
        self.inner.is_some()
    }

    /// Applies a message from the server.
    pub fn update(
        &mut self,
        message: DataTakeMessage,
        blocking: bool,
        out: &mut Vec<ChannelMessage>,
    ) -> (res: Result<(), String>)
        requires
            old(self).wf(),
        ensures
            final(self).wf(),
            final(self).spec_id() == old(self).spec_id(),
            final(self).spec_data_type() == old(self).spec_data_type(),
            final(self).spec_name() == old(self).spec_name(),
            ({
                let o = take_step(
                    old(self).spec_data_type().spec_item_size(),
                    old(self).spec_data_type(),
                    "DataTake"@,
                    old(self).spec_name(),
                    "DataTake: "@ + old(self).spec_name(),
                    old(self).state(),
                    message,
                    blocking,
                );
                &&& final(self).state() == o.state
                &&& final(out)@ == acked(old(out)@, o.ack, old(self).spec_id())
                &&& res is Ok == o.ok
                &&& res matches Err(e) ==> e@ == o.error
            }),
    {
        let mut label = String::from_str("DataTake: ");
        label.append(self.name.as_str());
        take_update(
            "DataTake",
            &self.name,
            &label,
            self.id,
            self.data_type,
            self.element_size,
            &mut self.inner,
            &mut self.batch,
            message,
            blocking,
            out,
        )
    }
}


/// The abstract state of the buffer under `key` of a keyed collection.
pub open spec fn key_state(
    stored: Map<u32, (Seq<u8>, bool)>,
    batches: Map<u32, BatchModel>,
    key: u32,
) -> TakeState {
    TakeState {
        stored: if stored.contains_key(key) {
            Some(stored[key])
        } else {
            None
        },
        batch: if batches.contains_key(key) {
            batches[key]
        } else {
            BatchModel::Empty
        },
    }
}

/// Result of applying one message to a keyed collection of one-shot buffers.
pub struct MultiTakeOutcome {
    pub stored: Map<u32, (Seq<u8>, bool)>,
    pub batches: Map<u32, BatchModel>,
    pub ack: bool,
    pub ok: bool,
    pub error: Seq<char>,
}

/// How the errors of a batch transfer of the collection named `name` name the
/// buffer under `key`.
pub open spec fn multi_label(name: Seq<char>, key: u32) -> Seq<char> {
    "DataMultiTake: "@ + name + " key "@ + decimal(key as nat)
}

/// What applying `msg` to the buffer under `key` does to the collection: the
/// buffer under `key` changes as [`take_step`] says and every other key is
/// left alone. A finished transfer leaves no batch behind.
pub open spec fn multi_take_step(
    es: nat,
    dt: DataType,
    name: Seq<char>,
    stored: Map<u32, (Seq<u8>, bool)>,
    batches: Map<u32, BatchModel>,
    key: u32,
    msg: DataTakeMessage,
    blocking: bool,
) -> MultiTakeOutcome {
    let o = take_step(
        es,
        dt,
        "DataMultiTake"@,
        name,
        multi_label(name, key),
        key_state(stored, batches, key),
        msg,
        blocking,
    );
    MultiTakeOutcome {
        stored: match o.state.stored {
            Some(x) => stored.insert(key, x),
            None => stored,
        },
        batches: if o.state.batch is Empty {
            batches.remove(key)
        } else {
            batches.insert(key, o.state.batch)
        },
        ack: o.ack,
        ok: o.ok,
        error: o.error,
    }
}

/// A keyed collection of one-shot data buffers.
pub struct DataMultiTake {
    name: String,
    id: u64,
    data_type: DataType,
    element_size: usize,
    inner: HashMap<u32, (Vec<u8>, bool)>,
    batches: HashMap<u32, TakeBatch>,
}

impl DataMultiTake {
    /// The waiting values by key: their bytes and blocking flags.
    pub closed spec fn stored(&self) -> Map<u32, (Seq<u8>, bool)> {
        self.inner@.map_values(|p: (Vec<u8>, bool)| (p.0@, p.1))
    }

    /// The batch transfers in progress by key.
    pub closed spec fn batches(&self) -> Map<u32, BatchModel> {
        self.batches@.map_values(|b: TakeBatch| b.model())
    }

    pub closed spec fn spec_id(&self) -> u64 {
        self.id
    }

    /// The id of this state.
    pub fn id(&self) -> (r: u64)
        ensures
            r == self.spec_id(),
    {
        self.id
    }

    pub closed spec fn spec_data_type(&self) -> DataType {
        self.data_type
    }

    /// The name the collection's errors give.
    pub closed spec fn spec_name(&self) -> Seq<char> {
        self.name@
    }

    /// The element size matches the element type and every batch in progress
    /// holds whole elements.
    pub closed spec fn wf(&self) -> bool {
        &&& self.element_size == self.data_type.spec_item_size()
        &&& forall|k: u32| #[trigger]
            self.batches@.contains_key(k) ==> batch_wf(self.batches@[k].model(), self.element_size as nat)
                && !(self.batches@[k].model() is Empty)
    }

    /// Creates an empty collection for elements of `data_type`.
    pub fn new(name: String, id: u64, data_type: DataType) -> (s: Self)
        ensures
            s.wf(),
            s.spec_id() == id,
            s.spec_name() == name@,
            s.spec_data_type() == data_type,
            s.stored() == Map::<u32, (Seq<u8>, bool)>::empty(),
            s.batches() == Map::<u32, BatchModel>::empty(),
    {
        let s = DataMultiTake {
            name,
            id,
            data_type,
            element_size: data_type.item_size(),
            inner: HashMap::new(),
            batches: HashMap::new(),
        };
        assert(s.stored() =~= Map::<u32, (Seq<u8>, bool)>::empty());
        assert(s.batches() =~= Map::<u32, BatchModel>::empty());
        s
    }

    /// Removes and returns the bytes waiting under `key`; taking a blocking
    /// value acknowledges it.
    pub fn take(&mut self, key: u32, out: &mut Vec<ChannelMessage>) -> (res: Option<Vec<u8>>)
        requires
            old(self).wf(),
        ensures
            final(self).wf(),
            final(self).spec_id() == old(self).spec_id(),
            final(self).spec_data_type() == old(self).spec_data_type(),
            final(self).spec_name() == old(self).spec_name(),
            final(self).stored() == old(self).stored().remove(key),
            final(self).batches() == old(self).batches(),
            if old(self).stored().contains_key(key) {
                let (bytes, blocking) = old(self).stored()[key];
                res is Some && res->0@ == bytes && final(out)@ == acked(
                    old(out)@,
                    blocking,
                    old(self).spec_id(),
                )
            } else {
                res is None && final(out)@ == old(out)@
            },
    {
        let removed = self.inner.remove(&key);
        assert(self.stored() =~= old(self).stored().remove(key));
        match removed {
            Some((val, blocking)) => {
                if blocking {
                    send_ack(out, self.id);
                }
                Some(val)
            },
            None => None,
        }
    }

    /// Returns whether a value waits under `key`.
    pub fn is_some(&self, key: u32) -> (res: bool)
        ensures
            res == self.stored().contains_key(key),
    {
        self.inner.contains_key(&key)
    }

    /// Drops the value and the transfer under `key`.
    pub fn remove(&mut self, key: u32)
        requires
            old(self).wf(),
        ensures
            final(self).wf(),
            final(self).spec_id() == old(self).spec_id(),
            final(self).spec_data_type() == old(self).spec_data_type(),
            final(self).spec_name() == old(self).spec_name(),
            final(self).stored() == old(self).stored().remove(key),
            final(self).batches() == old(self).batches().remove(key),
    {
        self.inner.remove(&key);
        self.batches.remove(&key);
        assert(self.stored() =~= old(self).stored().remove(key));
        assert(self.batches() =~= old(self).batches().remove(key));
    }

    /// Drops every value and transfer.
    pub fn reset(&mut self)
        requires
            old(self).wf(),
        ensures
            final(self).wf(),
            final(self).spec_id() == old(self).spec_id(),
            final(self).spec_data_type() == old(self).spec_data_type(),
            final(self).spec_name() == old(self).spec_name(),
            final(self).stored() == Map::<u32, (Seq<u8>, bool)>::empty(),
            final(self).batches() == Map::<u32, BatchModel>::empty(),
    {
        self.inner.clear();
        self.batches.clear();
        assert(self.stored() =~= Map::<u32, (Seq<u8>, bool)>::empty());
        assert(self.batches() =~= Map::<u32, BatchModel>::empty());
    }

    /// Applies a message from the server to the buffer under `key`.
    pub fn update(
        &mut self,
        key: u32,
        message: DataTakeMessage,
        blocking: bool,
        out: &mut Vec<ChannelMessage>,
    ) -> (res: Result<(), String>)
        requires
            old(self).wf(),
        ensures
            final(self).wf(),
            final(self).spec_id() == old(self).spec_id(),
            final(self).spec_data_type() == old(self).spec_data_type(),
            final(self).spec_name() == old(self).spec_name(),
            ({
                let o = multi_take_step(
                    old(self).spec_data_type().spec_item_size(),
                    old(self).spec_data_type(),
                    old(self).spec_name(),
                    old(self).stored(),
                    old(self).batches(),
                    key,
                    message,
                    blocking,
                );
                &&& final(self).stored() == o.stored
                &&& final(self).batches() == o.batches
                &&& final(out)@ == acked(old(out)@, o.ack, old(self).spec_id())
                &&& res is Ok == o.ok
                &&& res matches Err(e) ==> e@ == o.error
            }),
    {
        let ghost pre_stored = self.stored();
        let ghost pre_batches = self.batches();
        let mut batch = match self.batches.remove(&key) {
            Some(b) => b,
            None => TakeBatch::Empty,
        };
        let mut slot: Option<(Vec<u8>, bool)> = None;
        proof {
            if pre_batches.contains_key(key) {
                assert(batch.model() == pre_batches[key]);
            }
        }
        let ghost key_st = key_state(pre_stored, pre_batches, key);
        let ghost empty_st = TakeState { stored: None, batch: key_st.batch };
        let ghost o_full = take_step(
            self.element_size as nat,
            self.data_type,
            "DataMultiTake"@,
            self.name@,
            multi_label(self.name@, key),
            key_st,
            message,
            blocking,
        );
        let ghost o_empty = take_step(
            self.element_size as nat,
            self.data_type,
            "DataMultiTake"@,
            self.name@,
            multi_label(self.name@, key),
            empty_st,
            message,
            blocking,
        );
        proof {
            assert(o_full.ack == o_empty.ack);
            assert(o_full.ok == o_empty.ok);
            assert(o_full.error == o_empty.error);
            assert(o_full.state.batch == o_empty.state.batch);
            assert(o_full.state.stored == match o_empty.state.stored {
                Some(x) => Some(x),
                None => key_st.stored,
            });
        }
        let mut label = named_error("DataMultiTake: ", &self.name, " key ");
        push_decimal(&mut label, key as u64);
        let res = take_update(
            "DataMultiTake",
            &self.name,
            &label,
            self.id,
            self.data_type,
            self.element_size,
            &mut slot,
            &mut batch,
            message,
            blocking,
            out,
        );
        let is_empty = match batch {
            TakeBatch::Empty => true,
            _ => false,
        };
        if !is_empty {
            self.batches.insert(key, batch);
        }
        match slot {
            Some(v) => {
                self.inner.insert(key, v);
            },
            None => {},
        }
        proof {
            let o = multi_take_step(
                self.element_size as nat,
                self.data_type,
                self.name@,
                pre_stored,
                pre_batches,
                key,
                message,
                blocking,
            );
            assert(self.stored() =~= o.stored);
            assert(self.batches() =~= o.batches);
        }
        res
    }
}
} // verus!
