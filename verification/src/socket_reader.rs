use vstd::prelude::*;

use crate::messages::{bytes_as_slice, bytes_len, bytes_slice, bytes_view, frame_of, lemma_frame_part, part_start};
use crate::server_states::ClientMessage;
use bytes::Bytes;
use vstd::slice::slice_subrange;

verus! {

/// `Bytes::copy_from_slice`: a new buffer holding a copy of the bytes.
#[verifier::external_body]
fn bytes_copy_from_slice(data: &[u8]) -> (r: Bytes)
    ensures
        bytes_view(r) == data@,
{
    Bytes::copy_from_slice(data)
}

/// Frames longer than this are sliced rather than copied.
pub const COPY_SIZE: usize = 1024;

/// Header of a message from the client, as decoded from the wire.
#[derive(Debug)]
pub enum ClientHeader {
    /// value id, signal flag, payload size
    Value(u64, bool, u32),
    /// signal id, payload size
    Signal(u64, u32),
    Ack(u64),
    Error(String),
    /// protocol version, hash of the client's states, (id, type) of each state
    Handshake(u16, u64, Vec<(u64, u64)>),
}

/// Number of payload bytes that follow a header.
pub open spec fn client_payload_len(h: ClientHeader) -> nat {
    match h {
        ClientHeader::Value(_, _, s) => s as nat,
        ClientHeader::Signal(_, s) => s as nat,
        _ => 0,
    }
}

/// `m` is the message that header `h` with payload `p` stands for.
pub open spec fn client_message_of(h: ClientHeader, m: ClientMessage, p: Seq<u8>) -> bool {
    match h {
        ClientHeader::Value(id, signal, _) => m matches ClientMessage::Value(id2, s2, b) && id2 == id && s2 == signal
            && bytes_view(b) == p,
        ClientHeader::Signal(id, _) => m matches ClientMessage::Signal(id2, b) && id2 == id && bytes_view(b) == p,
        ClientHeader::Ack(id) => m matches ClientMessage::Ack(id2) && id2 == id,
        ClientHeader::Error(e) => m matches ClientMessage::Error(e2) && e2@ == e@,
        ClientHeader::Handshake(v, hash, types) => m matches ClientMessage::Handshake(v2, hash2, types2) && v2 == v
            && hash2 == hash && types2@ == types@,
    }
}

/// Reading the message whose header, decoded at `pointer` of `data`, is
/// `header` (`None` when it could not be decoded): whether it succeeds, the
/// message, and what is left to read of the frame afterwards.
pub open spec fn client_read(
    data: Seq<u8>,
    pointer: nat,
    header: Option<(ClientHeader, usize)>,
    res: Result<ClientMessage, String>,
    rest: Option<(Seq<u8>, nat)>,
) -> bool {
    match header {
        None => (res matches Err(e) && e@ == "Failed to deserialize message header"@) && rest is None,
        Some((h, hs)) => {
            let end = (pointer + hs + client_payload_len(h)) as nat;
            &&& res is Ok <==> end <= data.len()
            &&& res matches Err(e) ==> e@ == "Incomplete data received"@
            &&& res is Ok ==> client_message_of(h, res->Ok_0, data.subrange(pointer + hs, end as int))
            &&& rest == if res is Ok && end < data.len() {
                Some((data, end as nat))
            } else {
                None::<(Seq<u8>, nat)>
            }
        },
    }
}

/// A frame from the client holding messages reads back as those messages,
/// in order: the `i`-th read, made where the read before it stopped (the
/// first on the new frame), with the header decoded there, gives the `i`-th
/// message with its payload; it leaves the rest of the frame for the next
/// read, and after the last message nothing, so that the next read takes a
/// new frame.
pub proof fn lemma_client_frame_reads_back(
    parts: Seq<(Seq<u8>, Seq<u8>)>,
    headers: Seq<ClientHeader>,
    i: int,
    res: Result<ClientMessage, String>,
    rest: Option<(Seq<u8>, nat)>,
)
    requires
        parts.len() == headers.len(),
        forall|j: int| 0 <= j < parts.len() ==> client_payload_len(#[trigger] headers[j]) == parts[j].1.len(),
        forall|j: int| 0 <= j < parts.len() ==> (#[trigger] parts[j]).0.len() > 0,
        0 <= i < parts.len(),
        parts[i].0.len() <= usize::MAX,
        client_read(
            frame_of(parts),
            part_start(parts, i),
            Some((headers[i], parts[i].0.len() as usize)),
            res,
            rest,
        ),
    ensures
        part_start(parts, 0) == 0,
        res is Ok,
        client_message_of(headers[i], res->Ok_0, parts[i].1),
        rest == if i + 1 < parts.len() {
            Some((frame_of(parts), part_start(parts, i + 1)))
        } else {
            None::<(Seq<u8>, nat)>
        },
{
    lemma_frame_part(parts, i);
    let f = frame_of(parts);
    let st = part_start(parts, i);
    let hl = parts[i].0.len();
    let pl = parts[i].1.len();
    assert(f.subrange((st + hl) as int, (st + hl + pl) as int) =~= parts[i].1);
    assert(parts[parts.len() - 1].0.len() > 0);
}

/// Splits the frames received from the client into messages.
///
/// A frame may hold several messages; what is left of it after a message is
/// kept for the next read. Decoding a header is left to the caller, who
/// reads it from `pending()` or from a new frame.
pub struct SocketReader {
    previous: Option<(Bytes, usize, bool)>,
}

impl SocketReader {
    /// What is left to read of the last frame: its bytes and where reading
    /// goes on.
    pub closed spec fn spec_rest(&self) -> Option<(Seq<u8>, nat)> {
        match self.previous {
            Some((d, p, _)) => Some((bytes_view(d), p as nat)),
            None => None,
        }
    }

    pub closed spec fn wf(&self) -> bool {
        match self.previous {
            Some((d, p, _)) => p < bytes_view(d).len(),
            None => true,
        }
    }

    /// Nothing read yet.
    pub fn new() -> (s: Self)
        ensures
            s.wf(),
            s.spec_rest() is None,
    {
        SocketReader { previous: None }
    }

    /// The unread bytes of the last frame, where the next header starts;
    /// `None` when the next message needs a new frame.
    pub fn pending(&self) -> (r: Option<Bytes>)
        requires
            self.wf(),
        ensures
            match self.spec_rest() {
                Some((d, p)) => r is Some && bytes_view(r->0) == d.subrange(p as int, d.len() as int),
                None => r is None,
            },
    {
        match &self.previous {
            Some((d, p, _)) => {
                let len = bytes_len(d);
                Some(bytes_slice(d, *p, len))
            },
            None => None,
        }
    }

    /// Reads the next message of the last frame.
    pub fn next_pending(&mut self, header: Option<(ClientHeader, usize)>) -> (res: Result<ClientMessage, String>)
        requires
            old(self).wf(),
            old(self).spec_rest() matches Some((d, p)) && (header matches Some((h, hs)) ==> p + hs <= d.len()),
        ensures
            final(self).wf(),
            client_read(
                old(self).spec_rest().unwrap().0,
                old(self).spec_rest().unwrap().1,
                header,
                res,
                final(self).spec_rest(),
            ),
    {
        let mut previous = None;
        std::mem::swap(&mut previous, &mut self.previous);
        match previous {
            Some((data, pointer, copy)) => self.read_at(data, pointer, copy, header),
            None => Err(String::from_str("nothing left to read")),
        }
    }

    /// Reads the first message of a new frame; long frames are sliced, short
    /// ones copied.
    pub fn next_frame(&mut self, frame: Bytes, header: Option<(ClientHeader, usize)>) -> (res: Result<ClientMessage, String>)
        requires
            header matches Some((h, hs)) ==> hs <= bytes_view(frame).len(),
        ensures
            final(self).wf(),
            client_read(bytes_view(frame), 0, header, res, final(self).spec_rest()),
    {
        let copy = bytes_len(&frame) > COPY_SIZE;
        self.previous = None;
        self.read_at(frame, 0, copy, header)
    }

    fn read_at(&mut self, data: Bytes, pointer: usize, copy: bool, header: Option<(ClientHeader, usize)>) -> (res: Result<
        ClientMessage,
        String,
    >)
        requires
            old(self).spec_rest() is None,
            pointer <= bytes_view(data).len(),
            header matches Some((h, hs)) ==> pointer + hs <= bytes_view(data).len(),
        ensures
            final(self).wf(),
            client_read(bytes_view(data), pointer as nat, header, res, final(self).spec_rest()),
    {
        let (header, size) = match header {
            Some(h) => h,
            None => {
                return Err(String::from_str("Failed to deserialize message header"));
            },
        };
        let len = bytes_len(&data);
        let start = pointer + size;
        match header {
            ClientHeader::Value(id, signal, data_size) => {
                if data_size as usize > len - start {
                    return Err(String::from_str("Incomplete data received"));
                }
                let end = start + data_size as usize;
                let payload = cut(&data, start, end, copy);
                if end < len {
                    self.previous = Some((data, end, copy));
                }
                Ok(ClientMessage::Value(id, signal, payload))
            },
            ClientHeader::Signal(id, data_size) => {
                if data_size as usize > len - start {
                    return Err(String::from_str("Incomplete data received"));
                }
                let end = start + data_size as usize;
                let payload = cut(&data, start, end, copy);
                if end < len {
                    self.previous = Some((data, end, copy));
                }
                Ok(ClientMessage::Signal(id, payload))
            },
            ClientHeader::Ack(id) => {
                if start < len {
                    self.previous = Some((data, start, copy));
                }
                Ok(ClientMessage::Ack(id))
            },
            ClientHeader::Error(err) => {
                if start < len {
                    self.previous = Some((data, start, copy));
                }
                Ok(ClientMessage::Error(err))
            },
            ClientHeader::Handshake(version, hash, types) => {
                if start < len {
                    self.previous = Some((data, start, copy));
                }
                Ok(ClientMessage::Handshake(version, hash, types))
            },
        }
    }
}

/// Bytes `start..end` of `data`: a slice of it, or a copy.
fn cut(data: &Bytes, start: usize, end: usize, copy: bool) -> (r: Bytes)
    requires
        start <= end <= bytes_view(*data).len(),
    ensures
        bytes_view(r) == bytes_view(*data).subrange(start as int, end as int),
{
    if copy {
        bytes_slice(data, start, end)
    } else {
        bytes_copy_from_slice(slice_subrange(bytes_as_slice(data), start, end))
    }
}

} // verus!
