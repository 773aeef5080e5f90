use vstd::prelude::*;

use crate::messages::bytes_view;
use bytes::Bytes;

verus! {

/// `<Bytes as Clone>::clone`: another handle on the same bytes.
#[verifier::external_body]
pub(crate) fn bytes_clone(b: &Bytes) -> (r: Bytes)
    ensures
        bytes_view(r) == bytes_view(*b),
{
    b.clone()
}

fn not_enabled(kind: &str, name: &String) -> (e: String)
    ensures
        e@ == kind@ + name@ + " is not enabled"@,
{
    let mut e = String::from_str(kind);
    e.append(name.as_str());
    e.append(" is not enabled");
    e
}

/// The number of changes sent to the client that wait for acknowledgement
/// after one more was sent.
pub open spec fn sent(pending: nat) -> nat {
    pending + 1
}

/// The number of changes waiting for acknowledgement after one was
/// acknowledged; an acknowledgement with none waiting changes nothing.
pub open spec fn acknowledged(pending: nat) -> nat {
    if pending > 0 {
        (pending - 1) as nat
    } else {
        0
    }
}

/// A value shared with the client, as the server keeps it: its serialized
/// bytes and the number of changes sent to the client that wait for
/// acknowledgement.
///
/// While changes wait, changes from the client are ignored: the client has
/// not seen the server's value yet.
pub struct ServerValue {
    name: String,
    id: u64,
    value: Bytes,
    pending: usize,
    enabled: bool,
}

impl ServerValue {
    pub closed spec fn spec_id(&self) -> u64 {
        self.id
    }

    /// The name the value's errors give.
    pub closed spec fn spec_name(&self) -> Seq<char> {
        self.name@
    }

    /// The value's serialized bytes.
    pub closed spec fn spec_value(&self) -> Seq<u8> {
        bytes_view(self.value)
    }

    /// Changes sent to the client that wait for acknowledgement.
    pub closed spec fn spec_pending(&self) -> nat {
        self.pending as nat
    }

    /// Whether the client may change the value.
    pub closed spec fn spec_enabled(&self) -> bool {
        self.enabled
    }

    /// A value that is not enabled and has nothing waiting.
    pub fn new(name: String, id: u64, value: Bytes) -> (s: Self)
        ensures
            s.spec_id() == id,
            s.spec_value() == bytes_view(value),
            s.spec_pending() == 0,
            !s.spec_enabled(),
    {
        ServerValue { name, id, value, pending: 0, enabled: false }
    }

    /// The value's serialized bytes.
    pub fn get(&self) -> (r: Bytes)
        ensures
            bytes_view(r) == self.spec_value(),
    {
        bytes_clone(&self.value)
    }

    /// Changes sent to the client that wait for acknowledgement.
    pub fn pending(&self) -> (r: usize)
        ensures
            r == self.spec_pending(),
    {
        self.pending
    }

    /// Allows or forbids changes from the client.
    pub fn enable(&mut self, enable: bool)
        ensures
            final(self).spec_enabled() == enable,
            final(self).spec_id() == old(self).spec_id(),
            final(self).spec_value() == old(self).spec_value(),
            final(self).spec_pending() == old(self).spec_pending(),
    {
        self.enabled = enable;
    }

    /// A change from the client. It fails when the value is not enabled; it
    /// is ignored while changes sent to the client wait; otherwise it is
    /// stored. Returns the value to raise as a signal, when one is asked for
    /// and the change was stored.
    pub fn update_value(&mut self, signal: bool, value: Bytes) -> (res: Result<Option<Bytes>, String>)
        ensures
            final(self).spec_id() == old(self).spec_id(),
            final(self).spec_enabled() == old(self).spec_enabled(),
            final(self).spec_pending() == old(self).spec_pending(),
            final(self).spec_name() == old(self).spec_name(),
            res is Err <==> !old(self).spec_enabled(),
            res matches Err(e) ==> e@ == "Value "@ + old(self).spec_name() + " is not enabled"@,
            final(self).spec_value() == if old(self).spec_enabled() && old(self).spec_pending() == 0 {
                bytes_view(value)
            } else {
                old(self).spec_value()
            },
            res is Ok ==> if signal && old(self).spec_pending() == 0 {
                res->Ok_0 is Some && bytes_view(res->Ok_0->0) == bytes_view(value)
            } else {
                res->Ok_0 is None
            },
    {
        if !self.enabled {
            return Err(not_enabled("Value ", &self.name));
        }
        if self.pending == 0 {
            let raised = if signal {
                Some(bytes_clone(&value))
            } else {
                None
            };
            self.value = value;
            Ok(raised)
        } else {
            Ok(None)
        }
    }

    /// A change made on the server. Returns whether it is sent to the
    /// client, which it is when the client is connected and the value
    /// enabled; a sent change waits for acknowledgement.
    pub fn set(&mut self, value: Bytes, connected: bool) -> (send: bool)
        requires
            old(self).spec_pending() < usize::MAX,
        ensures
            send == (connected && old(self).spec_enabled()),
            final(self).spec_id() == old(self).spec_id(),
            final(self).spec_enabled() == old(self).spec_enabled(),
            final(self).spec_value() == bytes_view(value),
            final(self).spec_pending() == if send {
                sent(old(self).spec_pending())
            } else {
                old(self).spec_pending()
            },
    {
        self.value = value;
        if connected && self.enabled {
            self.pending = self.pending + 1;
            true
        } else {
            false
        }
    }

    /// The client acknowledged a change.
    pub fn acknowledge(&mut self)
        ensures
            final(self).spec_id() == old(self).spec_id(),
            final(self).spec_enabled() == old(self).spec_enabled(),
            final(self).spec_value() == old(self).spec_value(),
            final(self).spec_pending() == acknowledged(old(self).spec_pending()),
    {
        if self.pending > 0 {
            self.pending = self.pending - 1;
        }
    }

    /// Sends the value to a newly connected client: the value is returned
    /// for sending, and exactly that change waits for acknowledgement.
    pub fn sync(&mut self) -> (r: Bytes)
        ensures
            bytes_view(r) == old(self).spec_value(),
            final(self).spec_id() == old(self).spec_id(),
            final(self).spec_enabled() == old(self).spec_enabled(),
            final(self).spec_value() == old(self).spec_value(),
            final(self).spec_pending() == 1,
    {
        self.pending = 1;
        bytes_clone(&self.value)
    }
}

/// Every change sent to the client is taken back by its acknowledgement:
/// sending a change and having it acknowledged leaves the number of waiting
/// changes as it was.
pub proof fn lemma_send_then_acknowledge(pending: nat)
    ensures
        acknowledged(sent(pending)) == pending,
{
}

/// A value the client can only read, as the server keeps it.
pub struct ServerValueStatic {
    id: u64,
    value: Bytes,
    enabled: bool,
}

impl ServerValueStatic {
    pub closed spec fn spec_id(&self) -> u64 {
        self.id
    }

    pub closed spec fn spec_value(&self) -> Seq<u8> {
        bytes_view(self.value)
    }

    pub closed spec fn spec_enabled(&self) -> bool {
        self.enabled
    }

    /// A value that is not enabled.
    pub fn new(id: u64, value: Bytes) -> (s: Self)
        ensures
            s.spec_id() == id,
            s.spec_value() == bytes_view(value),
            !s.spec_enabled(),
    {
        ServerValueStatic { id, value, enabled: false }
    }

    /// The value's serialized bytes.
    pub fn get(&self) -> (r: Bytes)
        ensures
            bytes_view(r) == self.spec_value(),
    {
        bytes_clone(&self.value)
    }

    /// Marks the value as used by the client or not.
    pub fn enable(&mut self, enable: bool)
        ensures
            final(self).spec_enabled() == enable,
            final(self).spec_id() == old(self).spec_id(),
            final(self).spec_value() == old(self).spec_value(),
    {
        self.enabled = enable;
    }

    /// A change made on the server. Returns whether it is sent to the
    /// client: when the client is connected and the value enabled.
    pub fn set(&mut self, value: Bytes, connected: bool) -> (send: bool)
        ensures
            send == (connected && old(self).spec_enabled()),
            final(self).spec_id() == old(self).spec_id(),
            final(self).spec_enabled() == old(self).spec_enabled(),
            final(self).spec_value() == bytes_view(value),
    {
        self.value = value;
        connected && self.enabled
    }

    /// The value to send to a newly connected client, when it is enabled.
    pub fn sync(&self) -> (r: Option<Bytes>)
        ensures
            self.spec_enabled() ==> r is Some && bytes_view(r->0) == self.spec_value(),
            !self.spec_enabled() ==> r is None,
    {
        if self.enabled {
            Some(bytes_clone(&self.value))
        } else {
            None
        }
    }
}

/// A signal from the client, as the server keeps it.
pub struct ServerSignal {
    name: String,
    id: u64,
    enabled: bool,
}

impl ServerSignal {
    pub closed spec fn spec_id(&self) -> u64 {
        self.id
    }

    /// The name the signal's errors give.
    pub closed spec fn spec_name(&self) -> Seq<char> {
        self.name@
    }

    pub closed spec fn spec_enabled(&self) -> bool {
        self.enabled
    }

    /// A signal that is not enabled.
    pub fn new(name: String, id: u64) -> (s: Self)
        ensures
            s.spec_id() == id,
            !s.spec_enabled(),
    {
        ServerSignal { name, id, enabled: false }
    }

    /// Allows or forbids the signal from the client.
    pub fn enable(&mut self, enable: bool)
        ensures
            final(self).spec_enabled() == enable,
            final(self).spec_id() == old(self).spec_id(),
    {
        self.enabled = enable;
    }

    /// The signal raised by the client: refused when not enabled, otherwise
    /// the value is handed back to be raised.
    pub fn update_signal(&self, value: Bytes) -> (res: Result<Bytes, String>)
        ensures
            res is Err <==> !self.spec_enabled(),
            res matches Err(e) ==> e@ == "Signal "@ + self.spec_name() + " is not enabled"@,
            res is Ok ==> bytes_view(res->Ok_0) == bytes_view(value),
    {
        if !self.enabled {
            return Err(not_enabled("Signal ", &self.name));
        }
        Ok(value)
    }
}

} // verus!
