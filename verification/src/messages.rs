use vstd::prelude::*;

use crate::data::{DataMessage, DataMultiMessage};
use crate::data_take::{DataMultiTakeMessage, DataTakeMessage};
use crate::data_transport::{DataHeader, DataMultiTakeHeader, DataTakeHeader, MultiDataHeader};
use crate::image::{ImageMessage, ImageSetMessage, ImageType};
use bytes::Bytes;
use vstd::slice::{slice_subrange, slice_to_vec};

verus! {

/// `bytes::Bytes`, a cheaply cloneable and sliceable byte buffer.
#[verifier::external_type_specification]
#[verifier::external_body]
pub struct ExBytes(Bytes);

/// The bytes a `Bytes` buffer holds.
pub uninterp spec fn bytes_view(b: Bytes) -> Seq<u8>;

/// `Bytes::new`: an empty buffer.
#[verifier::external_body]
pub(crate) fn bytes_empty() -> (r: Bytes)
    ensures
        bytes_view(r) == Seq::<u8>::empty(),
{
    Bytes::new()
}

/// `Bytes::len`: the number of bytes held.
#[verifier::external_body]
pub(crate) fn bytes_len(b: &Bytes) -> (n: usize)
    ensures
        n == bytes_view(*b).len(),
{
    b.len()
}

/// `Bytes::slice`: a buffer holding bytes `start..end` of `b` (it panics
/// unless `start <= end <= len`).
#[verifier::external_body]
pub(crate) fn bytes_slice(b: &Bytes, start: usize, end: usize) -> (r: Bytes)
    requires
        start <= end <= bytes_view(*b).len(),
    ensures
        bytes_view(r) == bytes_view(*b).subrange(start as int, end as int),
{
    b.slice(start..end)
}

/// `<Bytes as AsRef<[u8]>>::as_ref`: the held bytes as a slice.
#[verifier::external_body]
pub(crate) fn bytes_as_slice(b: &Bytes) -> (r: &[u8])
    ensures
        r@ == bytes_view(*b),
{
    b.as_ref()
}

/// Header of a list update.
#[derive(Clone, Copy, Debug)]
pub enum VecHeader {
    /// the whole list with this many items
    All(u64),
    /// overwrite the item at this index
    SetItem(u64),
    /// append an item
    Add,
    /// remove the item at this index
    Remove(u64),
}

/// Header of a map update.
#[derive(Clone, Copy, Debug)]
pub enum MapHeader {
    /// the whole map with this many entries
    All(u64),
    /// insert or overwrite one entry
    SetItem,
    /// remove one entry
    Remove,
}

/// Header of a whole-image transfer.
#[derive(Clone, Copy, Debug)]
pub enum ImageSetHeader {
    /// image size, update flag
    All([u32; 2], bool),
    /// image size, pixels of the first batch
    Start([u32; 2], u32),
    /// pixels of a middle batch
    Batch(u32),
    /// pixels of the last batch, update flag
    End(u32, bool),
}

/// Header of an image message.
#[derive(Clone, Copy, Debug)]
pub enum ImageHeader {
    SetImage(ImageSetHeader, ImageType),
    /// rectangle (x, y, width, height), pixel layout, update flag
    Update([u32; 4], ImageType, bool),
    /// size, colour, update flag
    Fill([u32; 2], [u8; 4], bool),
}

/// Header of a message from the server, as decoded from the wire. The last
/// `u32` of the variants that carry bytes is the size of their payload.
#[derive(Clone, Copy, Debug)]
pub enum ServerHeader {
    /// id, type id, update flag, payload size
    Value(u64, u32, bool, u32),
    /// id, type id, update flag, payload size
    Static(u64, u32, bool, u32),
    /// id, type id, blocking flag, update flag, payload size
    ValueTake(u64, u32, bool, bool, u32),
    /// id, type id, update flag, list header, payload size
    ValueVec(u64, u32, bool, VecHeader, u32),
    /// id, type id, update flag, map header, payload size
    ValueMap(u64, u32, bool, MapHeader, u32),
    /// repaint request; the bits of the `f32` delay in seconds
    Update(u32),
    /// id, image header, payload size
    Image(u64, ImageHeader, u32),
    Data(u64, DataHeader),
    /// id, header, blocking flag
    DataTake(u64, DataTakeHeader, bool),
    MultiData(u64, MultiDataHeader),
    DataMultiTake(u64, DataMultiTakeHeader),
}

/// A message from the server with its payload cut out of the frame.
#[derive(Debug)]
pub enum ServerMessage {
    /// id, type id, update flag, serialized value
    Value(u64, u32, bool, Bytes),
    /// id, type id, blocking flag, update flag, serialized value
    ValueTake(u64, u32, bool, bool, Bytes),
    /// id, type id, update flag, serialized value
    Static(u64, u32, bool, Bytes),
    /// id, update flag, message, pixel bytes
    Image(u64, bool, ImageMessage, Bytes),
    /// id, type id, update flag, list header, serialized items
    ValueVec(u64, u32, bool, VecHeader, Bytes),
    /// id, type id, update flag, map header, serialized entries
    ValueMap(u64, u32, bool, MapHeader, Bytes),
    /// id, update flag, message
    Data(u64, bool, DataMessage),
    /// id, blocking flag, update flag, message
    DataTake(u64, bool, bool, DataTakeMessage),
    /// id, update flag, message
    DataMulti(u64, bool, DataMultiMessage),
    /// id, update flag, message
    DataMultiTake(u64, bool, DataMultiTakeMessage),
    /// repaint request; the bits of the `f32` delay in seconds
    Update(u32),
}

/// Payload size of a data header.
pub open spec fn data_payload(h: DataHeader) -> nat {
    match h {
        DataHeader::All(_, _, _, s) => s as nat,
        DataHeader::StartBatch(_, s) => s as nat,
        DataHeader::Batch(s) => s as nat,
        DataHeader::End(_, _, _, s) => s as nat,
        DataHeader::Drain(..) => 0,
        DataHeader::Clear(_) => 0,
    }
}

/// Payload size of a one-shot data header.
pub open spec fn data_take_payload(h: DataTakeHeader) -> nat {
    match h {
        DataTakeHeader::All(_, _, _, s) => s as nat,
        DataTakeHeader::StartBatch(_, s) => s as nat,
        DataTakeHeader::Batch(s) => s as nat,
        DataTakeHeader::End(_, _, _, s) => s as nat,
    }
}

/// Number of payload bytes that follow a header in the frame.
pub open spec fn payload_len(h: ServerHeader) -> nat {
    match h {
        ServerHeader::Value(_, _, _, s) => s as nat,
        ServerHeader::Static(_, _, _, s) => s as nat,
        ServerHeader::ValueTake(_, _, _, _, s) => s as nat,
        ServerHeader::ValueVec(_, _, _, _, s) => s as nat,
        ServerHeader::ValueMap(_, _, _, _, s) => s as nat,
        ServerHeader::Update(_) => 0,
        ServerHeader::Image(_, _, s) => s as nat,
        ServerHeader::Data(_, h) => data_payload(h),
        ServerHeader::DataTake(_, h, _) => data_take_payload(h),
        ServerHeader::MultiData(_, h) => match h {
            MultiDataHeader::Modify(_, d) => data_payload(d),
            _ => 0,
        },
        ServerHeader::DataMultiTake(_, h) => match h {
            DataMultiTakeHeader::Modify(_, d, _) => data_take_payload(d),
            _ => 0,
        },
    }
}

/// `m` is the data message of header `h` with payload `p`, and `update` its
/// update flag (batches before the last never ask for an update).
pub open spec fn data_message_of(h: DataHeader, m: DataMessage, update: bool, p: Seq<u8>) -> bool {
    match h {
        DataHeader::All(d, t, u, _) => (m matches DataMessage::All(d2, t2, v) && d2 == d && t2 == t && v@ == p) && update == u,
        DataHeader::StartBatch(c, _) => (m matches DataMessage::BatchStart(c2, v) && c2 == c && v@ == p) && !update,
        DataHeader::Batch(_) => (m matches DataMessage::Batch(v) && v@ == p) && !update,
        DataHeader::End(d, t, u, _) => (m matches DataMessage::BatchEnd(d2, t2, v) && d2 == d && t2 == t && v@ == p) && update == u,
        DataHeader::Drain(s, c, u) => (m matches DataMessage::Drain(s2, c2) && s2 == s && c2 == c) && update == u,
        DataHeader::Clear(u) => m is Clear && update == u,
    }
}

/// `m` is the one-shot data message of header `h` with payload `p`, and
/// `update` its update flag.
pub open spec fn data_take_message_of(h: DataTakeHeader, m: DataTakeMessage, update: bool, p: Seq<u8>) -> bool {
    match h {
        DataTakeHeader::All(d, c, u, _) => (m matches DataTakeMessage::All(d2, c2, v) && d2 == d && c2 == c && v@ == p) && update == u,
        DataTakeHeader::StartBatch(c, _) => (m matches DataTakeMessage::BatchStart(c2, v) && c2 == c && v@ == p) && !update,
        DataTakeHeader::Batch(_) => (m matches DataTakeMessage::Batch(v) && v@ == p) && !update,
        DataTakeHeader::End(d, c, u, _) => (m matches DataTakeMessage::BatchEnd(d2, c2, v) && d2 == d && c2 == c && v@ == p) && update == u,
    }
}

/// `m` is the image message of header `h`, and `update` its update flag.
pub open spec fn image_message_of(h: ImageHeader, m: ImageMessage, update: bool) -> bool {
    match h {
        ImageHeader::SetImage(s, t) => m matches ImageMessage::SetImage(s2, t2) && t2 == t && match s {
            ImageSetHeader::All(size, u) => s2 matches ImageSetMessage::All(size2) && size2 == size && update == u,
            ImageSetHeader::Start(size, p) => s2 matches ImageSetMessage::Start(size2, p2) && size2 == size && p2 == p && !update,
            ImageSetHeader::Batch(p) => s2 matches ImageSetMessage::Batch(p2) && p2 == p && !update,
            ImageSetHeader::End(p, u) => s2 matches ImageSetMessage::End(p2) && p2 == p && update == u,
        },
        ImageHeader::Update(rect, t, u) => (m matches ImageMessage::Update(rect2, t2) && rect2 == rect && t2 == t) && update == u,
        ImageHeader::Fill(size, rgba, u) => (m matches ImageMessage::Fill(size2, rgba2) && size2 == size && rgba2 == rgba) && update == u,
    }
}

/// `m` is the message that header `h` with payload `p` stands for.
pub open spec fn message_of(h: ServerHeader, m: ServerMessage, p: Seq<u8>) -> bool {
    match h {
        ServerHeader::Value(id, t, u, _) => m matches ServerMessage::Value(id2, t2, u2, b) && id2 == id && t2 == t && u2 == u && bytes_view(b) == p,
        ServerHeader::Static(id, t, u, _) => m matches ServerMessage::Static(id2, t2, u2, b) && id2 == id && t2 == t && u2 == u && bytes_view(b) == p,
        ServerHeader::ValueTake(id, t, bl, u, _) => m matches ServerMessage::ValueTake(id2, t2, bl2, u2, b) && id2 == id && t2 == t && bl2 == bl && u2 == u && bytes_view(b) == p,
        ServerHeader::ValueVec(id, t, u, vh, _) => m matches ServerMessage::ValueVec(id2, t2, u2, vh2, b) && id2 == id && t2 == t && u2 == u && vh2 == vh && bytes_view(b) == p,
        ServerHeader::ValueMap(id, t, u, mh, _) => m matches ServerMessage::ValueMap(id2, t2, u2, mh2, b) && id2 == id && t2 == t && u2 == u && mh2 == mh && bytes_view(b) == p,
        ServerHeader::Update(bits) => m matches ServerMessage::Update(bits2) && bits2 == bits,
        ServerHeader::Image(id, ih, _) => m matches ServerMessage::Image(id2, u, im, b) && id2 == id && image_message_of(ih, im, u) && bytes_view(b) == p,
        ServerHeader::Data(id, dh) => m matches ServerMessage::Data(id2, u, dm) && id2 == id && data_message_of(dh, dm, u, p),
        ServerHeader::DataTake(id, dh, bl) => m matches ServerMessage::DataTake(id2, bl2, u, dm) && id2 == id && bl2 == bl && data_take_message_of(dh, dm, u, p),
        ServerHeader::MultiData(id, mh) => m matches ServerMessage::DataMulti(id2, u, mm) && id2 == id && match mh {
            MultiDataHeader::Remove(k, u0) => mm matches DataMultiMessage::Remove(k2) && k2 == k && u == u0,
            MultiDataHeader::Reset(u0) => mm is Reset && u == u0,
            MultiDataHeader::Modify(k, dh) => mm matches DataMultiMessage::Modify(k2, dm) && k2 == k && data_message_of(dh, dm, u, p),
        },
        ServerHeader::DataMultiTake(id, mh) => m matches ServerMessage::DataMultiTake(id2, u, mm) && id2 == id && match mh {
            DataMultiTakeHeader::Remove(k, u0) => mm matches DataMultiTakeMessage::Remove(k2) && k2 == k && u == u0,
            DataMultiTakeHeader::Reset(u0) => mm is Reset && u == u0,
            DataMultiTakeHeader::Modify(k, dh, bl) => mm matches DataMultiTakeMessage::Modify(k2, dm, bl2) && k2 == k && bl2 == bl && data_take_message_of(dh, dm, u, p),
        },
    }
}

/// Reading one message at `pointer` of the frame `data`, with the header
/// decoded there (`None` when it could not be decoded): on success (`ok`) the
/// message `m` carries the payload that follows the header and reading goes
/// on after it; on failure reading stops after the header.
pub open spec fn read_step(
    data: Seq<u8>,
    pointer: nat,
    header: Option<(ServerHeader, usize)>,
    ok: bool,
    m: ServerMessage,
    new_pointer: nat,
) -> bool {
    match header {
        None => !ok && new_pointer == pointer,
        Some((h, hs)) => {
            let start = pointer + hs;
            let end = start + payload_len(h);
            &&& ok <==> end <= data.len()
            &&& ok ==> new_pointer == end && message_of(h, m, data.subrange(start, end))
            &&& !ok ==> new_pointer == start
        },
    }
}

/// Why reading a message with the header `header` failed: the header could
/// not be decoded, or its payload does not fit in the frame.
pub open spec fn read_error(header: Option<(ServerHeader, usize)>) -> Seq<char> {
    match header {
        None => "Failed to deserialize message header"@,
        Some((h, _)) => match h {
            ServerHeader::Value(..) => "Incomplete data for Value message"@,
            ServerHeader::Static(..) => "Incomplete data for Static message"@,
            ServerHeader::ValueTake(..) => "Incomplete data for ValueTake message"@,
            ServerHeader::ValueVec(..) => "Incomplete data for ValueVec message"@,
            ServerHeader::ValueMap(..) => "Incomplete data for Map message"@,
            ServerHeader::Image(..) => "Incomplete data for Image message"@,
            ServerHeader::Data(..) => "Incomplete data for Data/DataStatic message"@,
            ServerHeader::MultiData(..) => "Incomplete data for Data/DataStatic message"@,
            ServerHeader::DataTake(..) => "Incomplete data for DataTake message"@,
            ServerHeader::DataMultiTake(..) => "Incomplete data for DataTake message"@,
            ServerHeader::Update(_) => Seq::empty(),
        },
    }
}

/// Whether the header decoded at `pointer` was decoded and its payload fits
/// in the frame.
pub open spec fn read_fits(data: Seq<u8>, pointer: nat, header: Option<(ServerHeader, usize)>) -> bool {
    header matches Some((h, hs)) && pointer + hs + payload_len(h) <= data.len()
}

/// A frame made of messages, each the bytes of its header followed by its
/// payload.
pub open spec fn frame_of(parts: Seq<(Seq<u8>, Seq<u8>)>) -> Seq<u8>
    decreases parts.len(),
{
    if parts.len() == 0 {
        Seq::empty()
    } else {
        frame_of(parts.drop_last()) + parts.last().0 + parts.last().1
    }
}

/// Where the `i`-th message of a frame made of `parts` starts.
pub open spec fn part_start(parts: Seq<(Seq<u8>, Seq<u8>)>, i: int) -> nat {
    frame_of(parts.subrange(0, i)).len()
}

proof fn lemma_frame_concat(a: Seq<(Seq<u8>, Seq<u8>)>, b: Seq<(Seq<u8>, Seq<u8>)>)
    ensures
        frame_of(a + b) == frame_of(a) + frame_of(b),
    decreases b.len(),
{
    if b.len() == 0 {
        assert(a + b =~= a);
        assert(frame_of(a) + frame_of(b) =~= frame_of(a));
    } else {
        lemma_frame_concat(a, b.drop_last());
        assert((a + b).drop_last() =~= a + b.drop_last());
        assert((a + b).last() == b.last());
        assert(frame_of(a + b) =~= frame_of(a) + frame_of(b));
    }
}

/// The `i`-th message of a frame made of `parts` stands between the ones
/// before it and the ones after it.
pub proof fn lemma_frame_part(parts: Seq<(Seq<u8>, Seq<u8>)>, i: int)
    requires
        0 <= i < parts.len(),
    ensures
        frame_of(parts) == frame_of(parts.subrange(0, i)) + parts[i].0 + parts[i].1 + frame_of(
            parts.subrange(i + 1, parts.len() as int),
        ),
        part_start(parts, i + 1) == part_start(parts, i) + parts[i].0.len() + parts[i].1.len(),
        part_start(parts, 0) == 0,
        part_start(parts, parts.len() as int) == frame_of(parts).len(),
        i + 1 < parts.len() ==> frame_of(parts.subrange(i + 1, parts.len() as int)).len() >= parts[parts.len()
            - 1].0.len(),
{
    let pre = parts.subrange(0, i);
    let one = parts.subrange(i, i + 1);
    let post = parts.subrange(i + 1, parts.len() as int);
    assert(parts.subrange(0, 0) =~= Seq::<(Seq<u8>, Seq<u8>)>::empty());
    assert(parts.subrange(0, parts.len() as int) =~= parts);
    assert(parts.subrange(0, i + 1) =~= pre + one);
    assert(parts =~= (pre + one) + post);
    lemma_frame_concat(pre, one);
    lemma_frame_concat(pre + one, post);
    assert(one.len() == 1);
    assert(one.drop_last() =~= Seq::<(Seq<u8>, Seq<u8>)>::empty());
    assert(frame_of(one.drop_last()) =~= Seq::<u8>::empty());
    assert(one.last() == parts[i]);
    assert(frame_of(one) =~= parts[i].0 + parts[i].1);
    assert(frame_of(parts) =~= frame_of(pre) + parts[i].0 + parts[i].1 + frame_of(post));
    if i + 1 < parts.len() {
        assert(post.last() == parts[parts.len() - 1]);
    }
}

/// A frame holding messages reads back as those messages, in order: the
/// `i`-th read, made where the read before it stopped (the first at the
/// frame's start), with the header decoded there, gives the `i`-th
/// message with its payload and stops where the next message starts; the
/// last stops at the frame's end.
pub proof fn lemma_frame_reads_back(
    parts: Seq<(Seq<u8>, Seq<u8>)>,
    headers: Seq<ServerHeader>,
    i: int,
    ok: bool,
    m: ServerMessage,
    next: nat,
)
    requires
        parts.len() == headers.len(),
        forall|j: int| 0 <= j < parts.len() ==> payload_len(#[trigger] headers[j]) == parts[j].1.len(),
        0 <= i < parts.len(),
        parts[i].0.len() <= usize::MAX,
        read_step(
            frame_of(parts),
            part_start(parts, i),
            Some((headers[i], parts[i].0.len() as usize)),
            ok,
            m,
            next,
        ),
    ensures
        part_start(parts, 0) == 0,
        part_start(parts, parts.len() as int) == frame_of(parts).len(),
        ok,
        next == part_start(parts, i + 1),
        message_of(headers[i], m, parts[i].1),
{
    lemma_frame_part(parts, i);
    let f = frame_of(parts);
    let st = part_start(parts, i);
    let hl = parts[i].0.len();
    let pl = parts[i].1.len();
    assert(f.subrange((st + hl) as int, (st + hl + pl) as int) =~= parts[i].1);
}

/// Splits a frame received from the server into messages.
///
/// Each message is a header followed by its payload. Decoding a header is
/// left to the caller, who reads it from `unread()` and hands over the
/// decoded header with its size in bytes.
pub struct MessagesParser {
    data: Bytes,
    pointer: usize,
    is_empty: bool,
}

impl MessagesParser {
    /// The frame.
    pub closed spec fn spec_data(&self) -> Seq<u8> {
        bytes_view(self.data)
    }

    /// Where the next header starts.
    pub closed spec fn spec_pointer(&self) -> nat {
        self.pointer as nat
    }

    /// Whether the frame has been read to its end.
    pub closed spec fn spec_is_empty(&self) -> bool {
        self.is_empty
    }

    pub closed spec fn wf(&self) -> bool {
        self.pointer <= bytes_view(self.data).len()
    }

    /// A parser with nothing to read.
    pub fn empty() -> (s: Self)
        ensures
            s.wf(),
            s.spec_data() == Seq::<u8>::empty(),
            s.spec_pointer() == 0,
            s.spec_is_empty(),
    {
        MessagesParser { data: bytes_empty(), pointer: 0, is_empty: true }
    }

    /// The bytes not read yet; the next header starts with them.
    pub fn unread(&self) -> (r: Bytes)
        requires
            self.wf(),
        ensures
            bytes_view(r) == self.spec_data().subrange(self.spec_pointer() as int, self.spec_data().len() as int),
    {
        let len = bytes_len(&self.data);
        bytes_slice(&self.data, self.pointer, len)
    }

    /// Starts reading a frame and reads its first message.
    pub fn from_bytes(data: Bytes, header: Option<(ServerHeader, usize)>) -> (res: Result<(Self, ServerMessage), &'static str>)
        requires
            header matches Some((h, hs)) ==> hs <= bytes_view(data).len(),
        ensures
            res matches Err(e) ==> e@ == read_error(header),
            res is Ok <==> read_fits(bytes_view(data), 0, header),
            res is Ok ==> res->Ok_0.0.wf() && res->Ok_0.0.spec_data() == bytes_view(data)
                && !res->Ok_0.0.spec_is_empty() && read_step(
                bytes_view(data),
                0,
                header,
                true,
                res->Ok_0.1,
                res->Ok_0.0.spec_pointer(),
            ),
    {
        let mut obj = MessagesParser { data, pointer: 0, is_empty: false };
        let message = obj.next_inner(header);
        match message {
            Ok(m) => Ok((obj, m)),
            Err(e) => Err(e),
        }
    }

    /// Reads the next message of the frame; `None` once the frame is read.
    pub fn next(&mut self, header: Option<(ServerHeader, usize)>) -> (res: Result<Option<ServerMessage>, &'static str>)
        requires
            old(self).wf(),
            header matches Some((h, hs)) ==> old(self).spec_pointer() + hs <= old(self).spec_data().len(),
        ensures
            res matches Err(e) ==> e@ == read_error(header),
            final(self).wf(),
            final(self).spec_data() == old(self).spec_data(),
            old(self).spec_is_empty() ==> (res matches Ok(None)) && *final(self) == *old(self),
            !old(self).spec_is_empty() && old(self).spec_pointer() >= old(self).spec_data().len() ==> (res matches Ok(
                None,
            )) && final(self).spec_is_empty() && final(self).spec_pointer() == old(self).spec_pointer(),
            !old(self).spec_is_empty() && old(self).spec_pointer() < old(self).spec_data().len() ==> (res is Ok
                ==> res->Ok_0 is Some) && !final(self).spec_is_empty() && read_step(
                old(self).spec_data(),
                old(self).spec_pointer(),
                header,
                res is Ok,
                res->Ok_0->0,
                final(self).spec_pointer(),
            ),
    {
        if self.is_empty {
            return Ok(None);
        }
        if self.pointer >= bytes_len(&self.data) {
            self.is_empty = true;
            return Ok(None);
        }
        match self.next_inner(header) {
            Ok(m) => Ok(Some(m)),
            Err(e) => Err(e),
        }
    }

    /// Takes the next `size` bytes of the frame, if there are that many.
    fn take_bytes(&mut self, size: u32) -> (res: Option<Bytes>)
        requires
            old(self).wf(),
        ensures
            final(self).wf(),
            final(self).spec_data() == old(self).spec_data(),
            final(self).spec_is_empty() == old(self).spec_is_empty(),
            ({
                let p = old(self).spec_pointer();
                let end = p + size;
                &&& res is Some <==> end <= old(self).spec_data().len()
                &&& res is Some ==> bytes_view(res->0) == old(self).spec_data().subrange(p as int, end)
                    && final(self).spec_pointer() == end
                &&& res is None ==> final(self).spec_pointer() == p
            }),
    {
        let len = bytes_len(&self.data);
        let size = size as usize;
        if size > len - self.pointer {
            return None;
        }
        let b = bytes_slice(&self.data, self.pointer, self.pointer + size);
        self.pointer = self.pointer + size;
        Some(b)
    }

    /// Copies the next `size` bytes of the frame, if there are that many.
    fn take_vec(&mut self, size: u32) -> (res: Option<Vec<u8>>)
        requires
            old(self).wf(),
        ensures
            final(self).wf(),
            final(self).spec_data() == old(self).spec_data(),
            final(self).spec_is_empty() == old(self).spec_is_empty(),
            ({
                let p = old(self).spec_pointer();
                let end = p + size;
                &&& res is Some <==> end <= old(self).spec_data().len()
                &&& res is Some ==> res->0@ == old(self).spec_data().subrange(p as int, end)
                    && final(self).spec_pointer() == end
                &&& res is None ==> final(self).spec_pointer() == p
            }),
    {
        let all = bytes_as_slice(&self.data);
        let len = all.len();
        let size = size as usize;
        if size > len - self.pointer {
            return None;
        }
        let v = slice_to_vec(slice_subrange(all, self.pointer, self.pointer + size));
        self.pointer = self.pointer + size;
        Some(v)
    }

    /// Reads the message whose header, of `header.1` bytes, starts at the
    /// current position.
    pub fn next_inner(&mut self, header: Option<(ServerHeader, usize)>) -> (res: Result<ServerMessage, &'static str>)
        requires
            old(self).wf(),
            header matches Some((h, hs)) ==> old(self).spec_pointer() + hs <= old(self).spec_data().len(),
        ensures
            res matches Err(e) ==> e@ == read_error(header),
            final(self).wf(),
            final(self).spec_data() == old(self).spec_data(),
            final(self).spec_is_empty() == old(self).spec_is_empty(),
            read_step(
                old(self).spec_data(),
                old(self).spec_pointer(),
                header,
                res is Ok,
                res->Ok_0,
                final(self).spec_pointer(),
            ),
    {
        let (header, size) = match header {
            Some(h) => h,
            None => {
                return Err("Failed to deserialize message header");
            },
        };
        let total = bytes_len(&self.data);
        assert(self.pointer + size <= total);
        self.pointer = self.pointer + size;
        match header {
            ServerHeader::Value(id, type_id, update, size) => match self.take_bytes(size) {
                Some(data) => Ok(ServerMessage::Value(id, type_id, update, data)),
                None => Err("Incomplete data for Value message"),
            },
            ServerHeader::Static(id, type_id, update, size) => match self.take_bytes(size) {
                Some(data) => Ok(ServerMessage::Static(id, type_id, update, data)),
                None => Err("Incomplete data for Static message"),
            },
            ServerHeader::ValueTake(id, type_id, blocking, update, size) => match self.take_bytes(size) {
                Some(data) => Ok(ServerMessage::ValueTake(id, type_id, blocking, update, data)),
                None => Err("Incomplete data for ValueTake message"),
            },
            ServerHeader::ValueVec(id, type_id, update, header, size) => match self.take_bytes(size) {
                Some(data) => Ok(ServerMessage::ValueVec(id, type_id, update, header, data)),
                None => Err("Incomplete data for ValueVec message"),
            },
            ServerHeader::ValueMap(id, type_id, update, header, size) => match self.take_bytes(size) {
                Some(data) => Ok(ServerMessage::ValueMap(id, type_id, update, header, data)),
                None => Err("Incomplete data for Map message"),
            },
            ServerHeader::Update(dt) => Ok(ServerMessage::Update(dt)),
            ServerHeader::Image(id, header, size) => match self.take_bytes(size) {
                Some(data) => {
                    let (update, message) = image_message(header);
                    Ok(ServerMessage::Image(id, update, message, data))
                },
                None => Err("Incomplete data for Image message"),
            },
            ServerHeader::Data(id, data_header) => match self.process_data(data_header) {
                Ok((message, update)) => Ok(ServerMessage::Data(id, update, message)),
                Err(e) => Err(e),
            },
            ServerHeader::DataTake(id, data_take_header, blocking) => match self.process_data_take(data_take_header) {
                Ok((message, update)) => Ok(ServerMessage::DataTake(id, blocking, update, message)),
                Err(e) => Err(e),
            },
            ServerHeader::MultiData(id, multi_data_header) => match multi_data_header {
                MultiDataHeader::Remove(key, update) => Ok(ServerMessage::DataMulti(id, update, DataMultiMessage::Remove(key))),
                MultiDataHeader::Reset(update) => Ok(ServerMessage::DataMulti(id, update, DataMultiMessage::Reset)),
                MultiDataHeader::Modify(key, data_header) => match self.process_data(data_header) {
                    Ok((message, update)) => Ok(ServerMessage::DataMulti(id, update, DataMultiMessage::Modify(key, message))),
                    Err(e) => Err(e),
                },
            },
            ServerHeader::DataMultiTake(id, data_multi_take_header) => match data_multi_take_header {
                DataMultiTakeHeader::Remove(key, update) => Ok(
                    ServerMessage::DataMultiTake(id, update, DataMultiTakeMessage::Remove(key)),
                ),
                DataMultiTakeHeader::Reset(update) => Ok(ServerMessage::DataMultiTake(id, update, DataMultiTakeMessage::Reset)),
                DataMultiTakeHeader::Modify(key, data_take_header, blocking) => match self.process_data_take(data_take_header) {
                    Ok((message, update)) => Ok(
                        ServerMessage::DataMultiTake(id, update, DataMultiTakeMessage::Modify(key, message, blocking)),
                    ),
                    Err(e) => Err(e),
                },
            },
        }
    }

    fn process_data(&mut self, data_header: DataHeader) -> (res: Result<(DataMessage, bool), &'static str>)
        requires
            old(self).wf(),
        ensures
            res matches Err(e) ==> e@ == "Incomplete data for Data/DataStatic message"@,
            final(self).wf(),
            final(self).spec_data() == old(self).spec_data(),
            final(self).spec_is_empty() == old(self).spec_is_empty(),
            ({
                let p = old(self).spec_pointer();
                let end = p + data_payload(data_header);
                &&& res is Ok <==> end <= old(self).spec_data().len()
                &&& res is Ok ==> final(self).spec_pointer() == end && data_message_of(
                    data_header,
                    res->Ok_0.0,
                    res->Ok_0.1,
                    old(self).spec_data().subrange(p as int, end as int),
                )
                &&& res is Err ==> final(self).spec_pointer() == p
            }),
    {
        match data_header {
            DataHeader::All(data_type, transport_type, update, data_size) => match self.take_vec(data_size) {
                Some(d) => Ok((DataMessage::All(data_type, transport_type, d), update)),
                None => Err("Incomplete data for Data/DataStatic message"),
            },
            DataHeader::StartBatch(count, data_size) => match self.take_vec(data_size) {
                Some(d) => Ok((DataMessage::BatchStart(count, d), false)),
                None => Err("Incomplete data for Data/DataStatic message"),
            },
            DataHeader::Batch(data_size) => match self.take_vec(data_size) {
                Some(d) => Ok((DataMessage::Batch(d), false)),
                None => Err("Incomplete data for Data/DataStatic message"),
            },
            DataHeader::End(data_type, transport_type, update, data_size) => match self.take_vec(data_size) {
                Some(d) => Ok((DataMessage::BatchEnd(data_type, transport_type, d), update)),
                None => Err("Incomplete data for Data/DataStatic message"),
            },
            DataHeader::Drain(start, count, update) => {
                proof {
                    assert(old(self).spec_data().subrange(self.pointer as int, self.pointer as int) =~= Seq::<u8>::empty());
                }
                Ok((DataMessage::Drain(start, count), update))
            },
            DataHeader::Clear(update) => Ok((DataMessage::Clear, update)),
        }
    }

    fn process_data_take(&mut self, data_header: DataTakeHeader) -> (res: Result<(DataTakeMessage, bool), &'static str>)
        requires
            old(self).wf(),
        ensures
            res matches Err(e) ==> e@ == "Incomplete data for DataTake message"@,
            final(self).wf(),
            final(self).spec_data() == old(self).spec_data(),
            final(self).spec_is_empty() == old(self).spec_is_empty(),
            ({
                let p = old(self).spec_pointer();
                let end = p + data_take_payload(data_header);
                &&& res is Ok <==> end <= old(self).spec_data().len()
                &&& res is Ok ==> final(self).spec_pointer() == end && data_take_message_of(
                    data_header,
                    res->Ok_0.0,
                    res->Ok_0.1,
                    old(self).spec_data().subrange(p as int, end as int),
                )
                &&& res is Err ==> final(self).spec_pointer() == p
            }),
    {
        match data_header {
            DataTakeHeader::All(data_type, count, update, data_size) => match self.take_vec(data_size) {
                Some(d) => Ok((DataTakeMessage::All(data_type, count, d), update)),
                None => Err("Incomplete data for DataTake message"),
            },
            DataTakeHeader::StartBatch(count, data_size) => match self.take_vec(data_size) {
                Some(d) => Ok((DataTakeMessage::BatchStart(count, d), false)),
                None => Err("Incomplete data for DataTake message"),
            },
            DataTakeHeader::Batch(data_size) => match self.take_vec(data_size) {
                Some(d) => Ok((DataTakeMessage::Batch(d), false)),
                None => Err("Incomplete data for DataTake message"),
            },
            DataTakeHeader::End(data_type, count, update, data_size) => match self.take_vec(data_size) {
                Some(d) => Ok((DataTakeMessage::BatchEnd(data_type, count, d), update)),
                None => Err("Incomplete data for DataTake message"),
            },
        }
    }
}

/// The image message and update flag of an image header.
fn image_message(header: ImageHeader) -> (res: (bool, ImageMessage))
    ensures
        image_message_of(header, res.1, res.0),
{
    match header {
        ImageHeader::SetImage(set_header, image_type) => {
            let (update, set_message) = match set_header {
                ImageSetHeader::All(size, upd) => (upd, ImageSetMessage::All(size)),
                ImageSetHeader::Start(size, pixels) => (false, ImageSetMessage::Start(size, pixels)),
                ImageSetHeader::Batch(pixels) => (false, ImageSetMessage::Batch(pixels)),
                ImageSetHeader::End(pixels, upd) => (upd, ImageSetMessage::End(pixels)),
            };
            (update, ImageMessage::SetImage(set_message, image_type))
        },
        ImageHeader::Update(rect, image_type, update) => (update, ImageMessage::Update(rect, image_type)),
        ImageHeader::Fill(size, rgba, update) => (update, ImageMessage::Fill(size, rgba)),
    }
}

/// Reading a message never moves back and never passes the end of the
/// frame; a message that is read takes exactly its header and payload.
pub proof fn lemma_read_moves_forward(
    data: Seq<u8>,
    pointer: nat,
    header: Option<(ServerHeader, usize)>,
    ok: bool,
    m: ServerMessage,
    new_pointer: nat,
)
    requires
        pointer <= data.len(),
        header matches Some((h, hs)) ==> pointer + hs <= data.len(),
        read_step(data, pointer, header, ok, m, new_pointer),
    ensures
        pointer <= new_pointer <= data.len(),
        ok ==> (header matches Some((h, hs)) && new_pointer == pointer + hs + payload_len(h)),
{
}

} // verus!
