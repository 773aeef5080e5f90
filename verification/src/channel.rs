use vstd::prelude::*;

verus! {

/// A message queued by the client for the server.
///
/// The client's handles push these onto an outgoing queue; the connection task
/// frames and sends them.
#[derive(Debug)]
pub enum ChannelMessage {
    /// value id, type id, signal flag, serialized value
    Value(u64, u32, bool, Vec<u8>),
    /// signal id, type id, serialized value
    Signal(u64, u32, Vec<u8>),
    /// serialized text message
    Message(Vec<u8>),
    /// acknowledgement of a value with this id
    Ack(u64),
}

/// The outgoing queue after an acknowledgement for `id` was pushed when `ack` holds.
pub open spec fn acked(before: Seq<ChannelMessage>, ack: bool, id: u64) -> Seq<ChannelMessage> {
    if ack {
        before.push(ChannelMessage::Ack(id))
    } else {
        before
    }
}

/// Pushes an acknowledgement for `id` onto the outgoing queue.
pub fn send_ack(out: &mut Vec<ChannelMessage>, id: u64)
    ensures
        final(out)@ == old(out)@.push(ChannelMessage::Ack(id)),
{
    out.push(ChannelMessage::Ack(id));
}

} // verus!
