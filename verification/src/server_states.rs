use vstd::prelude::*;

use crate::messages::bytes_view;
use crate::graphs::GraphType;
use crate::server_collections::{
    entry_get, entry_put, entry_remove, entry_views, keys_unique, lemma_entry_get_at, lemma_entry_get_none, lemma_entry_put,
    lemma_entry_remove_at, lemma_entry_remove_none, ServerList, ServerMap,
};
use crate::server_graphs::{opt_bytes, points_added, GraphView, ServerGraphs};
use crate::server_image::{image_set_post, ImageData, ServerImage};
use crate::server_values::{acknowledged, sent, ServerSignal, ServerValue, ServerValueStatic};
use crate::text::{decimal, push_decimal};
use bytes::Bytes;
use std::collections::HashMap;

verus! {

broadcast use vstd::std_specs::hash::group_hash_axioms;

/// A message from the client, with its payload cut out of the frame.
#[derive(Debug)]
pub enum ClientMessage {
    /// value id, signal flag, serialized value
    Value(u64, bool, Bytes),
    /// signal id, serialized value
    Signal(u64, Bytes),
    /// acknowledgement of the change of this id
    Ack(u64),
    /// an error reported by the client
    Error(String),
    /// protocol version, hash of the client's states, (id, type) of each state
    Handshake(u16, u64, Vec<(u64, u64)>),
}

/// What the server does after a message from the client was handled.
#[derive(Debug)]
pub enum ServerAction {
    /// raise the signal of this id with this value
    Signal(u64, Bytes),
    /// the image of this id was acknowledged, so its next change may go out
    ImageAcknowledged(u64),
    Nothing,
}

/// The registered states of a server, by id, with the type each was
/// registered with.
pub struct ServerModel {
    pub values: Map<u64, ServerValue>,
    pub static_values: Map<u64, ServerValueStatic>,
    pub signals: Map<u64, ServerSignal>,
    pub images: Map<u64, ServerImage>,
    pub lists: Map<u64, ServerList>,
    pub maps: Map<u64, ServerMap>,
    pub graphs: Map<u64, ServerGraphs>,
    pub types: Map<u64, u64>,
    pub finalized: bool,
    /// every registered id, in the order of registration
    pub ids: Seq<u64>,
}

/// Whether the client declared the state `id` with type `t`.
pub open spec fn declared(types: Seq<(u64, u64)>, id: u64, t: u64) -> bool {
    exists|i: int| 0 <= i < types.len() && types[i] == (id, t)
}

/// What handling a message from the client does to the registered states
/// (`before` to `after`) and what it returns.
///
/// An acknowledgement goes to the image, else the value, of its id; a value
/// change goes to the value of its id, a signal to the signal of its id.
/// Errors and handshakes after the connection are reported as errors, as is
/// a message for an id that is not registered.
pub open spec fn client_message_post(
    before: ServerModel,
    after: ServerModel,
    message: ClientMessage,
    res: Result<ServerAction, String>,
) -> bool {
    match message {
        ClientMessage::Ack(id) => if before.images.contains_key(id) {
            after == before && (res matches Ok(ServerAction::ImageAcknowledged(i)) && i == id)
        } else if before.values.contains_key(id) {
            let v = before.values[id];
            &&& after == ServerModel { values: before.values.insert(id, after.values[id]), ..before }
            &&& after.values[id].spec_pending() == acknowledged(v.spec_pending())
            &&& after.values[id].spec_value() == v.spec_value()
            &&& after.values[id].spec_enabled() == v.spec_enabled()
            &&& after.values[id].spec_id() == v.spec_id()
            &&& res matches Ok(ServerAction::Nothing)
        } else {
            after == before && (res matches Err(e) && e@ == "value with id "@ + decimal(id as nat)
                + " not found for Acknowledge"@)
        },
        ClientMessage::Value(id, signal, data) => if before.values.contains_key(id) {
            let v = before.values[id];
            let taken = v.spec_enabled() && v.spec_pending() == 0;
            &&& after == ServerModel { values: before.values.insert(id, after.values[id]), ..before }
            &&& after.values[id].spec_value() == if taken {
                bytes_view(data)
            } else {
                v.spec_value()
            }
            &&& after.values[id].spec_pending() == v.spec_pending()
            &&& after.values[id].spec_enabled() == v.spec_enabled()
            &&& after.values[id].spec_id() == v.spec_id()
            &&& res is Err <==> !v.spec_enabled()
            &&& res matches Err(e) ==> e@ == "value updating failed: "@ + ("Value "@ + v.spec_name() + " is not enabled"@)
            &&& res is Ok ==> if signal && taken {
                res->Ok_0 matches ServerAction::Signal(i, b) && i == id && bytes_view(b) == bytes_view(data)
            } else {
                res->Ok_0 is Nothing
            }
        } else {
            after == before && (res matches Err(e) && e@ == "value with id "@ + decimal(id as nat) + " not found"@)
        },
        ClientMessage::Signal(id, data) => {
            &&& after == before
            &&& res is Err <==> !(before.signals.contains_key(id) && before.signals[id].spec_enabled())
            &&& res matches Err(e) ==> e@ == if before.signals.contains_key(id) {
                "signal updating failed: "@ + ("Signal "@ + before.signals[id].spec_name() + " is not enabled"@)
            } else {
                "value with id "@ + decimal(id as nat) + " not found"@
            }
            &&& res is Ok ==> (res->Ok_0 matches ServerAction::Signal(i, b) && i == id && bytes_view(b) == bytes_view(data))
        },
        ClientMessage::Error(err) => after == before && (res matches Err(e) && e@ == "Error message from client: "@
            + err@),
        ClientMessage::Handshake(..) => after == before && (res matches Err(e) && e@
            == "unexpected handshake message after connection established"@),
    }
}

/// Whether some state is registered under `id`.
pub open spec fn registered(m: ServerModel, id: u64) -> bool {
    m.values.contains_key(id) || m.static_values.contains_key(id) || m.signals.contains_key(id)
        || m.images.contains_key(id) || m.lists.contains_key(id) || m.maps.contains_key(id) || m.graphs.contains_key(id)
}

/// Every registered state has a type, carries its own id and is listed
/// among the registered ids.
pub open spec fn server_wf(m: ServerModel) -> bool {
    &&& forall|id: u64| #[trigger] registered(m, id) ==> m.ids.contains(id)
    &&& forall|id: u64| #[trigger] m.values.contains_key(id) ==> m.types.contains_key(id) && m.values[id].spec_id() == id
    &&& forall|id: u64| #[trigger]
        m.static_values.contains_key(id) ==> m.types.contains_key(id) && m.static_values[id].spec_id() == id
    &&& forall|id: u64| #[trigger] m.signals.contains_key(id) ==> m.types.contains_key(id) && m.signals[id].spec_id() == id
    &&& forall|id: u64| #[trigger]
        m.images.contains_key(id) ==> m.types.contains_key(id) && m.images[id].spec_id() == id && m.images[id].wf()
    &&& forall|id: u64| #[trigger] m.lists.contains_key(id) ==> m.types.contains_key(id) && m.lists[id].spec_id() == id
    &&& forall|id: u64| #[trigger]
        m.maps.contains_key(id) ==> m.types.contains_key(id) && m.maps[id].spec_id() == id && m.maps[id].wf()
    &&& forall|id: u64| #[trigger] m.graphs.contains_key(id) ==> m.types.contains_key(id) && m.graphs[id].spec_id() == id
}

proof fn lemma_ids_after_register(before: ServerModel, after: ServerModel, id: u64)
    requires
        forall|x: u64| #[trigger] registered(before, x) ==> before.ids.contains(x),
        after.ids == before.ids.push(id),
        forall|x: u64| #[trigger] registered(after, x) ==> registered(before, x) || x == id,
    ensures
        forall|x: u64| #[trigger] registered(after, x) ==> after.ids.contains(x),
{
    assert forall|x: u64| #[trigger] registered(after, x) implies after.ids.contains(x) by {
        if x == id {
            assert(after.ids[before.ids.len() as int] == id);
        } else {
            assert(registered(before, x));
            let i = choose|i: int| 0 <= i < before.ids.len() && before.ids[i] == x;
            assert(after.ids[i] == x);
        }
    }
}

fn text_with_id(first: &str, id: u64, last: &str) -> (e: String)
    ensures
        e@ == first@ + decimal(id as nat) + last@,
{
    let mut e = String::from_str(first);
    push_decimal(&mut e, id);
    e.append(last);
    e
}

fn text_with_text(first: &str, second: &String) -> (e: String)
    ensures
        e@ == first@ + second@,
{
    let mut e = String::from_str(first);
    e.append(second.as_str());
    e
}

/// The states a server shares with its client, by id.
pub struct ServerStates {
    values: HashMap<u64, ServerValue>,
    static_values: HashMap<u64, ServerValueStatic>,
    signals: HashMap<u64, ServerSignal>,
    images: HashMap<u64, ServerImage>,
    lists: HashMap<u64, ServerList>,
    maps: HashMap<u64, ServerMap>,
    graphs: HashMap<u64, ServerGraphs>,
    types: HashMap<u64, u64>,
    finalized: bool,
    ids: Vec<u64>,
}

impl View for ServerStates {
    type V = ServerModel;

    closed spec fn view(&self) -> ServerModel {
        ServerModel {
            values: self.values@,
            static_values: self.static_values@,
            signals: self.signals@,
            images: self.images@,
            lists: self.lists@,
            maps: self.maps@,
            graphs: self.graphs@,
            types: self.types@,
            finalized: self.finalized,
            ids: self.ids@,
        }
    }
}

impl ServerStates {
    /// No states, open for registration.
    pub fn new() -> (s: Self)
        ensures
            server_wf(s@),
            s@.values.is_empty(),
            s@.static_values.is_empty(),
            s@.signals.is_empty(),
            s@.images.is_empty(),
            s@.lists.is_empty(),
            s@.maps.is_empty(),
            s@.graphs.is_empty(),
            s@.types.is_empty(),
            !s@.finalized,
            s@.ids == Seq::<u64>::empty(),
    {
        let s = ServerStates {
            values: HashMap::new(),
            static_values: HashMap::new(),
            signals: HashMap::new(),
            images: HashMap::new(),
            lists: HashMap::new(),
            maps: HashMap::new(),
            graphs: HashMap::new(),
            types: HashMap::new(),
            finalized: false,
            ids: Vec::new(),
        };
        proof {
            assert(s@.values =~= Map::empty());
            assert(s@.static_values =~= Map::empty());
            assert(s@.signals =~= Map::empty());
            assert(s@.images =~= Map::empty());
            assert(s@.lists =~= Map::empty());
            assert(s@.maps =~= Map::empty());
            assert(s@.graphs =~= Map::empty());
            assert(s@.types =~= Map::empty());
        }
        s
    }

    /// Closes registration; returns whether it was open.
    pub fn finalize(&mut self) -> (was_open: bool)
        requires
            server_wf(old(self)@),
        ensures
            server_wf(final(self)@),
            was_open == !old(self)@.finalized,
            final(self)@ == (ServerModel { finalized: true, ..old(self)@ }),
    {
        let was_open = !self.finalized;
        self.finalized = true;
        proof {
            assert forall|x: u64| #[trigger] registered(self@, x) implies self@.ids.contains(x) by {
                assert(registered(old(self)@, x));
            }
        }
        was_open
    }

    /// Registers a value of type `type_id` under `id`; refused after the
    /// registration closed or when a value has that id.
    pub fn add_value(&mut self, name: String, id: u64, type_id: u64, value: Bytes) -> (res: Result<u64, String>)
        requires
            server_wf(old(self)@),
        ensures
            server_wf(final(self)@),
            res is Err <==> old(self)@.finalized || old(self)@.values.contains_key(id),
            res is Err ==> final(self)@ == old(self)@,
            res matches Err(e) ==> e@ == if old(self)@.finalized {
                "Cannot add new values after server has been finalized"@
            } else {
                "Value with id "@ + decimal(id as nat) + " already exists"@
            },
            res is Ok ==> res->Ok_0 == id && final(self)@ == (ServerModel {
                values: old(self)@.values.insert(id, final(self)@.values[id]),
                types: old(self)@.types.insert(id, type_id),
                ids: old(self)@.ids.push(id),
                ..old(self)@
            }) && final(self)@.values[id].spec_value() == bytes_view(value) && final(self)@.values[id].spec_pending()
                == 0 && !final(self)@.values[id].spec_enabled(),
    {
        if self.finalized {
            return Err(String::from_str("Cannot add new values after server has been finalized"));
        }
        if self.values.contains_key(&id) {
            return Err(text_with_id("Value with id ", id, " already exists"));
        }
        self.values.insert(id, ServerValue::new(name, id, value));
        self.types.insert(id, type_id);
        self.ids.push(id);
        proof {
            lemma_ids_after_register(old(self)@, self@, id);
            assert(self@.graphs == old(self)@.graphs);
            assert(self@.static_values == old(self)@.static_values);
            assert(self@.signals == old(self)@.signals);
            assert(self@.images == old(self)@.images);
            assert(self@.lists == old(self)@.lists);
            assert(self@.maps == old(self)@.maps);
        }
        Ok(id)
    }

    /// Registers a static value of type `type_id` under `id`; refused after
    /// the registration closed or when a static value has that id.
    pub fn add_static(&mut self, id: u64, type_id: u64, value: Bytes) -> (res: Result<u64, String>)
        requires
            server_wf(old(self)@),
        ensures
            server_wf(final(self)@),
            res is Err <==> old(self)@.finalized || old(self)@.static_values.contains_key(id),
            res is Err ==> final(self)@ == old(self)@,
            res matches Err(e) ==> e@ == if old(self)@.finalized {
                "Cannot add new values after server has been finalized"@
            } else {
                "Static value with id "@ + decimal(id as nat) + " already exists"@
            },
            res is Ok ==> res->Ok_0 == id && final(self)@ == (ServerModel {
                static_values: old(self)@.static_values.insert(id, final(self)@.static_values[id]),
                types: old(self)@.types.insert(id, type_id),
                ids: old(self)@.ids.push(id),
                ..old(self)@
            }) && final(self)@.static_values[id].spec_value() == bytes_view(value)
                && !final(self)@.static_values[id].spec_enabled(),
    {
        if self.finalized {
            return Err(String::from_str("Cannot add new values after server has been finalized"));
        }
        if self.static_values.contains_key(&id) {
            return Err(text_with_id("Static value with id ", id, " already exists"));
        }
        self.static_values.insert(id, ServerValueStatic::new(id, value));
        self.types.insert(id, type_id);
        self.ids.push(id);
        proof {
            lemma_ids_after_register(old(self)@, self@, id);
            assert(self@.graphs == old(self)@.graphs);
            assert(self@.values == old(self)@.values);
            assert(self@.signals == old(self)@.signals);
            assert(self@.images == old(self)@.images);
            assert(self@.lists == old(self)@.lists);
            assert(self@.maps == old(self)@.maps);
        }
        Ok(id)
    }

    /// Registers a signal of type `type_id` under `id`; refused after the
    /// registration closed or when a signal has that id.
    pub fn add_signal(&mut self, name: String, id: u64, type_id: u64) -> (res: Result<u64, String>)
        requires
            server_wf(old(self)@),
        ensures
            server_wf(final(self)@),
            res is Err <==> old(self)@.finalized || old(self)@.signals.contains_key(id),
            res is Err ==> final(self)@ == old(self)@,
            res matches Err(e) ==> e@ == if old(self)@.finalized {
                "Cannot add new values after server has been finalized"@
            } else {
                "Signal with id "@ + decimal(id as nat) + " already exists"@
            },
            res is Ok ==> res->Ok_0 == id && final(self)@ == (ServerModel {
                signals: old(self)@.signals.insert(id, final(self)@.signals[id]),
                types: old(self)@.types.insert(id, type_id),
                ids: old(self)@.ids.push(id),
                ..old(self)@
            }) && !final(self)@.signals[id].spec_enabled(),
    {
        if self.finalized {
            return Err(String::from_str("Cannot add new values after server has been finalized"));
        }
        if self.signals.contains_key(&id) {
            return Err(text_with_id("Signal with id ", id, " already exists"));
        }
        self.signals.insert(id, ServerSignal::new(name, id));
        self.types.insert(id, type_id);
        self.ids.push(id);
        proof {
            lemma_ids_after_register(old(self)@, self@, id);
            assert(self@.graphs == old(self)@.graphs);
            assert(self@.values == old(self)@.values);
            assert(self@.static_values == old(self)@.static_values);
            assert(self@.images == old(self)@.images);
            assert(self@.lists == old(self)@.lists);
            assert(self@.maps == old(self)@.maps);
        }
        Ok(id)
    }

    /// Registers an image under `id`; refused after the registration closed
    /// or when an image has that id.
    pub fn add_image(&mut self, id: u64) -> (res: Result<u64, String>)
        requires
            server_wf(old(self)@),
        ensures
            server_wf(final(self)@),
            res is Err <==> old(self)@.finalized || old(self)@.images.contains_key(id),
            res is Err ==> final(self)@ == old(self)@,
            res matches Err(e) ==> e@ == if old(self)@.finalized {
                "Cannot add new values after server has been finalized"@
            } else {
                "Image with id "@ + decimal(id as nat) + " already exists"@
            },
            res is Ok ==> res->Ok_0 == id && final(self)@ == (ServerModel {
                images: old(self)@.images.insert(id, final(self)@.images[id]),
                types: old(self)@.types.insert(id, 42),
                ids: old(self)@.ids.push(id),
                ..old(self)@
            }) && final(self)@.images[id].spec_image() == Seq::<u8>::empty() && !final(self)@.images[id].spec_enabled(),
    {
        if self.finalized {
            return Err(String::from_str("Cannot add new values after server has been finalized"));
        }
        if self.images.contains_key(&id) {
            return Err(text_with_id("Image with id ", id, " already exists"));
        }
        self.images.insert(id, ServerImage::new(id));
        self.types.insert(id, 42);
        self.ids.push(id);
        proof {
            lemma_ids_after_register(old(self)@, self@, id);
            assert(self@.graphs == old(self)@.graphs);
            assert(self@.values == old(self)@.values);
            assert(self@.static_values == old(self)@.static_values);
            assert(self@.signals == old(self)@.signals);
            assert(self@.lists == old(self)@.lists);
            assert(self@.maps == old(self)@.maps);
        }
        Ok(id)
    }

    /// Registers a list of type `type_id` under `id`; refused after the
    /// registration closed or when a list has that id.
    pub fn add_list(&mut self, id: u64, type_id: u64) -> (res: Result<u64, String>)
        requires
            server_wf(old(self)@),
        ensures
            server_wf(final(self)@),
            res is Err <==> old(self)@.finalized || old(self)@.lists.contains_key(id),
            res is Err ==> final(self)@ == old(self)@,
            res matches Err(e) ==> e@ == if old(self)@.finalized {
                "Cannot add new values after server has been finalized"@
            } else {
                "List with id "@ + decimal(id as nat) + " already exists"@
            },
            res is Ok ==> res->Ok_0 == id && final(self)@ == (ServerModel {
                lists: old(self)@.lists.insert(id, final(self)@.lists[id]),
                types: old(self)@.types.insert(id, type_id),
                ids: old(self)@.ids.push(id),
                ..old(self)@
            }) && final(self)@.lists[id].spec_items() == Seq::<Seq<u8>>::empty() && !final(self)@.lists[id].spec_enabled(),
    {
        if self.finalized {
            return Err(String::from_str("Cannot add new values after server has been finalized"));
        }
        if self.lists.contains_key(&id) {
            return Err(text_with_id("List with id ", id, " already exists"));
        }
        self.lists.insert(id, ServerList::new(id));
        self.types.insert(id, type_id);
        self.ids.push(id);
        proof {
            lemma_ids_after_register(old(self)@, self@, id);
            assert(self@.graphs == old(self)@.graphs);
            assert(self@.values == old(self)@.values);
            assert(self@.static_values == old(self)@.static_values);
            assert(self@.signals == old(self)@.signals);
            assert(self@.images == old(self)@.images);
            assert(self@.maps == old(self)@.maps);
        }
        Ok(id)
    }

    /// Registers a map of type `type_id` under `id`; refused after the
    /// registration closed or when a map has that id.
    pub fn add_map(&mut self, id: u64, type_id: u64) -> (res: Result<u64, String>)
        requires
            server_wf(old(self)@),
        ensures
            server_wf(final(self)@),
            res is Err <==> old(self)@.finalized || old(self)@.maps.contains_key(id),
            res is Err ==> final(self)@ == old(self)@,
            res matches Err(e) ==> e@ == if old(self)@.finalized {
                "Cannot add new values after server has been finalized"@
            } else {
                "Map with id "@ + decimal(id as nat) + " already exists"@
            },
            res is Ok ==> res->Ok_0 == id && final(self)@ == (ServerModel {
                maps: old(self)@.maps.insert(id, final(self)@.maps[id]),
                types: old(self)@.types.insert(id, type_id),
                ids: old(self)@.ids.push(id),
                ..old(self)@
            }) && final(self)@.maps[id].spec_entries() == Seq::<(Seq<u8>, Seq<u8>)>::empty()
                && !final(self)@.maps[id].spec_enabled(),
    {
        if self.finalized {
            return Err(String::from_str("Cannot add new values after server has been finalized"));
        }
        if self.maps.contains_key(&id) {
            return Err(text_with_id("Map with id ", id, " already exists"));
        }
        self.maps.insert(id, ServerMap::new(id));
        self.types.insert(id, type_id);
        self.ids.push(id);
        proof {
            lemma_ids_after_register(old(self)@, self@, id);
            assert(self@.graphs == old(self)@.graphs);
            assert(self@.values == old(self)@.values);
            assert(self@.static_values == old(self)@.static_values);
            assert(self@.signals == old(self)@.signals);
            assert(self@.images == old(self)@.images);
            assert(self@.lists == old(self)@.lists);
        }
        Ok(id)
    }

    /// Handles a message from the client once the connection is set up.
    pub fn handle_client_message(&mut self, message: ClientMessage) -> (res: Result<ServerAction, String>)
        requires
            server_wf(old(self)@),
        ensures
            server_wf(final(self)@),
            client_message_post(old(self)@, final(self)@, message, res),
    {
        match message {
            ClientMessage::Ack(id) => {
                if self.images.contains_key(&id) {
                    return Ok(ServerAction::ImageAcknowledged(id));
                }
                match self.values.remove(&id) {
                    Some(mut v) => {
                        v.acknowledge();
                        self.values.insert(id, v);
                        proof {
                            assert(self@.values =~= old(self)@.values.insert(id, self@.values[id]));
                            assert(self@.static_values == old(self)@.static_values);
                            assert(self@.signals == old(self)@.signals);
                            assert(self@.images == old(self)@.images);
                            assert(self@.lists == old(self)@.lists);
                            assert(self@.maps == old(self)@.maps);
                            assert(self@.graphs == old(self)@.graphs);
                            assert(self@.values.dom() =~= old(self)@.values.dom());
                            assert forall|x: u64| #[trigger] registered(self@, x) implies self@.ids.contains(x) by {
                                assert(registered(old(self)@, x));
                            }
                        }
                        Ok(ServerAction::Nothing)
                    },
                    None => {
                        proof {
                            assert(self@.values =~= old(self)@.values);
                        }
                        Err(text_with_id("value with id ", id, " not found for Acknowledge"))
                    },
                }
            },
            ClientMessage::Value(id, signal, data) => {
                match self.values.remove(&id) {
                    Some(mut v) => {
                        let r = v.update_value(signal, data);
                        self.values.insert(id, v);
                        proof {
                            assert(self@.values =~= old(self)@.values.insert(id, self@.values[id]));
                            assert(self@.static_values == old(self)@.static_values);
                            assert(self@.signals == old(self)@.signals);
                            assert(self@.images == old(self)@.images);
                            assert(self@.lists == old(self)@.lists);
                            assert(self@.maps == old(self)@.maps);
                            assert(self@.graphs == old(self)@.graphs);
                            assert(self@.values.dom() =~= old(self)@.values.dom());
                            assert forall|x: u64| #[trigger] registered(self@, x) implies self@.ids.contains(x) by {
                                assert(registered(old(self)@, x));
                            }
                        }
                        match r {
                            Ok(Some(b)) => Ok(ServerAction::Signal(id, b)),
                            Ok(None) => Ok(ServerAction::Nothing),
                            Err(e) => Err(text_with_text("value updating failed: ", &e)),
                        }
                    },
                    None => {
                        proof {
                            assert(self@.values =~= old(self)@.values);
                        }
                        Err(text_with_id("value with id ", id, " not found"))
                    },
                }
            },
            ClientMessage::Signal(id, data) => {
                match self.signals.get(&id) {
                    Some(s) => match s.update_signal(data) {
                        Ok(b) => Ok(ServerAction::Signal(id, b)),
                        Err(e) => Err(text_with_text("signal updating failed: ", &e)),
                    },
                    None => Err(text_with_id("value with id ", id, " not found")),
                }
            },
            ClientMessage::Error(err) => Err(text_with_text("Error message from client: ", &err)),
            ClientMessage::Handshake(..) => Err(String::from_str("unexpected handshake message after connection established")),
        }
    }
}

/// Whether `hash` is among the allowed hashes, when some are listed.
pub open spec fn hash_allowed(allowed: Option<Vec<u64>>, hash: u64) -> bool {
    match allowed {
        Some(a) => a@.contains(hash),
        None => true,
    }
}

/// Why a client is refused: the protocol version is checked first, then
/// the hash.
pub open spec fn handshake_refusal(version: u16, hash: u64, expected: u16, allowed: Option<Vec<u64>>) -> Seq<char> {
    if version != expected {
        "attempted to connect with wrong protocol version: expected "@ + decimal(expected as nat) + ", got "@ + decimal(
            version as nat,
        )
    } else {
        "attempted to connect with wrong hash"@
    }
}

/// Whether a client may connect: it speaks the `expected` protocol version
/// and, when hashes are listed, its states' hash is one of them.
pub fn check_handshake(version: u16, hash: u64, expected: u16, allowed: &Option<Vec<u64>>) -> (res: Result<(), String>)
    ensures
        res is Ok <==> version == expected && hash_allowed(*allowed, hash),
        res matches Err(e) ==> e@ == handshake_refusal(version, hash, expected, *allowed),
{
    if version != expected {
        let mut e = String::from_str("attempted to connect with wrong protocol version: expected ");
        push_decimal(&mut e, expected as u64);
        e.append(", got ");
        push_decimal(&mut e, version as u64);
        return Err(e);
    }
    match allowed {
        Some(a) => {
            let mut i: usize = 0;
            while i < a.len()
                invariant
                    i <= a@.len(),
                    version == expected,
                    *allowed == Some(*a),
                    forall|j: int| 0 <= j < i ==> a@[j] != hash,
                decreases a@.len() - i,
            {
                if a[i] == hash {
                    proof {
                        assert(a@[i as int] == hash);
                    }
                    return Ok(());
                }
                i += 1;
            }
            Err(String::from_str("attempted to connect with wrong hash"))
        },
        None => Ok(()),
    }
}

/// Whether the client's list of (id, type) holds `id` with type `t`.
fn declares(types: &Vec<(u64, u64)>, id: u64, t: u64) -> (res: bool)
    ensures
        res == declared(types@, id, t),
{
    let mut i: usize = 0;
    while i < types.len()
        invariant
            i <= types@.len(),
            forall|j: int| 0 <= j < i ==> types@[j] != (id, t),
        decreases types@.len() - i,
    {
        if types[i].0 == id && types[i].1 == t {
            return true;
        }
        i += 1;
    }
    false
}

/// `after` is `before` with the enabled flag of every state under `id` set
/// to `flag`; nothing else changes.
pub open spec fn enabled_as(before: ServerModel, after: ServerModel, id: u64, flag: bool) -> bool {
    &&& after.values.dom() == before.values.dom()
    &&& after.static_values.dom() == before.static_values.dom()
    &&& after.signals.dom() == before.signals.dom()
    &&& after.images.dom() == before.images.dom()
    &&& after.lists.dom() == before.lists.dom()
    &&& after.maps.dom() == before.maps.dom()
    &&& after.graphs.dom() == before.graphs.dom()
    &&& after.types == before.types
    &&& after.finalized == before.finalized
    &&& after.ids == before.ids
    &&& forall|x: u64| x != id && #[trigger] before.values.contains_key(x) ==> after.values[x] == before.values[x]
    &&& forall|x: u64| x != id && #[trigger] before.static_values.contains_key(x) ==> after.static_values[x] == before.static_values[x]
    &&& forall|x: u64| x != id && #[trigger] before.signals.contains_key(x) ==> after.signals[x] == before.signals[x]
    &&& forall|x: u64| x != id && #[trigger] before.images.contains_key(x) ==> after.images[x] == before.images[x]
    &&& forall|x: u64| x != id && #[trigger] before.lists.contains_key(x) ==> after.lists[x] == before.lists[x]
    &&& forall|x: u64| x != id && #[trigger] before.maps.contains_key(x) ==> after.maps[x] == before.maps[x]
    &&& forall|x: u64| x != id && #[trigger] before.graphs.contains_key(x) ==> after.graphs[x] == before.graphs[x]
    &&& before.values.contains_key(id) ==> {
        let (a, b) = (before.values[id], after.values[id]);
        &&& b.spec_enabled() == flag && b.spec_id() == a.spec_id()
        &&& b.spec_value() == a.spec_value() && b.spec_pending() == a.spec_pending()
    }
    &&& before.static_values.contains_key(id) ==> {
        let (a, b) = (before.static_values[id], after.static_values[id]);
        b.spec_enabled() == flag && b.spec_id() == a.spec_id() && b.spec_value() == a.spec_value()
    }
    &&& before.signals.contains_key(id) ==> {
        let (a, b) = (before.signals[id], after.signals[id]);
        b.spec_enabled() == flag && b.spec_id() == a.spec_id()
    }
    &&& before.images.contains_key(id) ==> {
        let (a, b) = (before.images[id], after.images[id]);
        &&& b.spec_enabled() == flag && b.spec_id() == a.spec_id()
        &&& b.spec_image() == a.spec_image() && b.spec_size() == a.spec_size()
    }
    &&& before.lists.contains_key(id) ==> {
        let (a, b) = (before.lists[id], after.lists[id]);
        b.spec_enabled() == flag && b.spec_id() == a.spec_id() && b.spec_items() == a.spec_items()
    }
    &&& before.maps.contains_key(id) ==> {
        let (a, b) = (before.maps[id], after.maps[id]);
        b.spec_enabled() == flag && b.spec_id() == a.spec_id() && b.spec_entries() == a.spec_entries()
    }
    &&& before.graphs.contains_key(id) ==> {
        let (a, b) = (before.graphs[id], after.graphs[id]);
        &&& b.spec_enabled() == flag && b.spec_id() == a.spec_id()
        &&& b.spec_graphs() == a.spec_graphs() && b.spec_graph_type() == a.spec_graph_type()
    }
}

/// What a newly connected client is sent of the state under one id: the
/// value (always, and it then waits for acknowledgement), the static value
/// and the list when enabled, the image when enabled and not empty (`None`
/// inside when it is not sent, which releases the image for its next
/// change), and, when enabled, a reset of the graphs followed by every
/// graph (index, y and x coordinates' bytes).
pub struct SyncOutcome {
    pub value: Option<Bytes>,
    pub static_value: Option<Bytes>,
    pub image: Option<Option<(Vec<u8>, [usize; 2])>>,
    pub list: Option<Vec<Bytes>>,
    pub graphs: Option<Vec<(u16, Vec<u8>, Option<Vec<u8>>)>>,
}

impl ServerStates {
    /// Every registered id, in the order of registration.
    pub fn registered_ids(&self) -> (r: Vec<u64>)
        ensures
            r@ == self@.ids,
    {
        vstd::slice::slice_to_vec(self.ids.as_slice())
    }

    /// Enables or disables every state under `id`.
    pub fn set_enabled(&mut self, id: u64, flag: bool)
        requires
            server_wf(old(self)@),
        ensures
            server_wf(final(self)@),
            enabled_as(old(self)@, final(self)@, id, flag),
    {
        if let Some(mut v) = self.values.remove(&id) {
            v.enable(flag);
            self.values.insert(id, v);
        }
        if let Some(mut v) = self.static_values.remove(&id) {
            v.enable(flag);
            self.static_values.insert(id, v);
        }
        if let Some(mut v) = self.signals.remove(&id) {
            v.enable(flag);
            self.signals.insert(id, v);
        }
        if let Some(mut v) = self.images.remove(&id) {
            v.enable(flag);
            self.images.insert(id, v);
        }
        if let Some(mut v) = self.lists.remove(&id) {
            v.enable(flag);
            self.lists.insert(id, v);
        }
        if let Some(mut v) = self.maps.remove(&id) {
            v.enable(flag);
            self.maps.insert(id, v);
        }
        if let Some(mut v) = self.graphs.remove(&id) {
            v.enable(flag);
            self.graphs.insert(id, v);
        }
        proof {
            assert(self@.values.dom() =~= old(self)@.values.dom());
            assert(self@.static_values.dom() =~= old(self)@.static_values.dom());
            assert(self@.signals.dom() =~= old(self)@.signals.dom());
            assert(self@.images.dom() =~= old(self)@.images.dom());
            assert(self@.lists.dom() =~= old(self)@.lists.dom());
            assert(self@.maps.dom() =~= old(self)@.maps.dom());
            assert(self@.graphs.dom() =~= old(self)@.graphs.dom());
            assert forall|x: u64| #[trigger] registered(self@, x) implies self@.ids.contains(x) by {
                assert(registered(old(self)@, x));
            }
        }
    }

    /// Enables the states under `id` exactly when the connecting client
    /// declared `id` with the type it was registered with; returns whether
    /// they were enabled.
    pub fn connect_state(&mut self, id: u64, client_types: &Vec<(u64, u64)>) -> (enabled: bool)
        requires
            server_wf(old(self)@),
        ensures
            server_wf(final(self)@),
            enabled == (old(self)@.types.contains_key(id) && declared(client_types@, id, old(self)@.types[id])),
            enabled_as(old(self)@, final(self)@, id, enabled),
    {
        let flag = match self.types.get(&id) {
            Some(t) => declares(client_types, id, *t),
            None => false,
        };
        self.set_enabled(id, flag);
        flag
    }

    /// Sends the states under `id` to a newly connected client: see
    /// [`SyncOutcome`]. A value sent waits for exactly one acknowledgement.
    pub fn sync_state(&mut self, id: u64) -> (res: SyncOutcome)
        requires
            server_wf(old(self)@),
        ensures
            server_wf(final(self)@),
            final(self)@ == (ServerModel { values: final(self)@.values, ..old(self)@ }),
            final(self)@.values.dom() == old(self)@.values.dom(),
            forall|x: u64| x != id && #[trigger] old(self)@.values.contains_key(x) ==> final(self)@.values[x]
                == old(self)@.values[x],
            old(self)@.values.contains_key(id) ==> ({
                let (a, b) = (old(self)@.values[id], final(self)@.values[id]);
                &&& b.spec_pending() == 1
                &&& b.spec_value() == a.spec_value() && b.spec_enabled() == a.spec_enabled() && b.spec_id() == a.spec_id()
                &&& res.value matches Some(v) && bytes_view(v) == a.spec_value()
            }),
            !old(self)@.values.contains_key(id) ==> res.value is None,
            match res.static_value {
                Some(v) => old(self)@.static_values.contains_key(id) && old(self)@.static_values[id].spec_enabled()
                    && bytes_view(v) == old(self)@.static_values[id].spec_value(),
                None => !(old(self)@.static_values.contains_key(id) && old(self)@.static_values[id].spec_enabled()),
            },
            old(self)@.images.contains_key(id) ==> ({
                let im = old(self)@.images[id];
                let shown = im.spec_enabled() && im.spec_size()[0] != 0 && im.spec_size()[1] != 0;
                &&& res.image is Some
                &&& shown ==> (res.image->0 matches Some((p, s)) && p@ == im.spec_image() && s == im.spec_size())
                &&& !shown ==> res.image->0 is None
            }),
            !old(self)@.images.contains_key(id) ==> res.image is None,
            match res.list {
                Some(items) => old(self)@.lists.contains_key(id) && old(self)@.lists[id].spec_enabled()
                    && crate::server_collections::views(items@) == old(self)@.lists[id].spec_items(),
                None => !(old(self)@.lists.contains_key(id) && old(self)@.lists[id].spec_enabled()),
            },
            match res.graphs {
                Some(gs) => old(self)@.graphs.contains_key(id) && old(self)@.graphs[id].spec_enabled() && {
                    let g = old(self)@.graphs[id].spec_graphs();
                    &&& forall|i: int|
                        0 <= i < gs.len() ==> g.contains_key(#[trigger] gs@[i].0) && g[gs@[i].0] == (
                            gs@[i].1@,
                            opt_bytes(gs@[i].2),
                        )
                    &&& forall|k: u16| #[trigger] g.contains_key(k) ==> exists|i: int| 0 <= i < gs.len() && gs@[i].0 == k
                    &&& forall|i: int, j: int| 0 <= i < j < gs.len() ==> gs@[i].0 != gs@[j].0
                },
                None => !(old(self)@.graphs.contains_key(id) && old(self)@.graphs[id].spec_enabled()),
            },
    {
        let value = match self.values.remove(&id) {
            Some(mut v) => {
                let b = v.sync();
                self.values.insert(id, v);
                Some(b)
            },
            None => None,
        };
        let static_value = match self.static_values.get(&id) {
            Some(v) => v.sync(),
            None => None,
        };
        let image = match self.images.get(&id) {
            Some(im) => match im.sync() {
                Some(p) => Some(Some((p, im.get_size()))),
                None => Some(None),
            },
            None => None,
        };
        let list = match self.lists.get(&id) {
            Some(l) => if l.sync() {
                Some(l.get())
            } else {
                None
            },
            None => None,
        };
        let graphs = match self.graphs.get(&id) {
            Some(g) => if g.sync() {
                Some(g.snapshot())
            } else {
                None
            },
            None => None,
        };
        proof {
            assert(self@.values.dom() =~= old(self)@.values.dom());
            assert(self@.static_values == old(self)@.static_values);
            assert(self@.signals == old(self)@.signals);
            assert(self@.images == old(self)@.images);
            assert(self@.lists == old(self)@.lists);
            assert(self@.maps == old(self)@.maps);
            assert(self@.graphs == old(self)@.graphs);
            assert forall|x: u64| #[trigger] registered(self@, x) implies self@.ids.contains(x) by {
                assert(registered(old(self)@, x));
            }
        }
        SyncOutcome { value, static_value, image, list, graphs }
    }
}

/// Only the state of one kind under `id` changed, keeping its id; nothing
/// was registered or removed.
proof fn lemma_one_changed(before: ServerModel, after: ServerModel, id: u64)
    requires
        server_wf(before),
        after.types == before.types,
        after.ids == before.ids,
        after.values.dom() == before.values.dom(),
        after.static_values.dom() == before.static_values.dom(),
        after.signals.dom() == before.signals.dom(),
        after.images.dom() == before.images.dom(),
        after.lists.dom() == before.lists.dom(),
        after.maps.dom() == before.maps.dom(),
        after.graphs.dom() == before.graphs.dom(),
        forall|x: u64| #[trigger] after.values.contains_key(x) ==> after.values[x].spec_id() == x,
        forall|x: u64| #[trigger] after.static_values.contains_key(x) ==> after.static_values[x].spec_id() == x,
        forall|x: u64| #[trigger] after.images.contains_key(x) ==> after.images[x].spec_id() == x && after.images[x].wf(),
        forall|x: u64| #[trigger] after.lists.contains_key(x) ==> after.lists[x].spec_id() == x,
        forall|x: u64| #[trigger] after.maps.contains_key(x) ==> after.maps[x].spec_id() == x && after.maps[x].wf(),
        forall|x: u64| #[trigger] after.graphs.contains_key(x) ==> after.graphs[x].spec_id() == x,
        after.signals == before.signals,
    ensures
        server_wf(after),
{
    assert forall|x: u64| #[trigger] registered(after, x) implies after.ids.contains(x) by {
        assert(registered(before, x));
    }
    assert forall|x: u64| #[trigger] after.values.contains_key(x) implies after.types.contains_key(x) by {
        assert(before.values.contains_key(x));
    }
    assert forall|x: u64| #[trigger] after.static_values.contains_key(x) implies after.types.contains_key(x) by {
        assert(before.static_values.contains_key(x));
    }
    assert forall|x: u64| #[trigger] after.images.contains_key(x) implies after.types.contains_key(x) by {
        assert(before.images.contains_key(x));
    }
    assert forall|x: u64| #[trigger] after.lists.contains_key(x) implies after.types.contains_key(x) by {
        assert(before.lists.contains_key(x));
    }
    assert forall|x: u64| #[trigger] after.maps.contains_key(x) implies after.types.contains_key(x) by {
        assert(before.maps.contains_key(x));
    }
    assert forall|x: u64| #[trigger] after.graphs.contains_key(x) implies after.types.contains_key(x) by {
        assert(before.graphs.contains_key(x));
    }
}

impl ServerStates {
    /// Sets the value `id`, which waits for acknowledgement when it is
    /// sent; refused when there is no such value. Returns whether the change
    /// is sent.
    pub fn set_value(&mut self, id: u64, value: Bytes, connected: bool) -> (res: Result<bool, String>)
        requires
            server_wf(old(self)@),
            old(self)@.values.contains_key(id) ==> old(self)@.values[id].spec_pending() < usize::MAX,
        ensures
            server_wf(final(self)@),
            match res {
                Ok(send) => old(self)@.values.contains_key(id) && {
                    let (a, b) = (old(self)@.values[id], final(self)@.values[id]);
                    &&& final(self)@ == (ServerModel { values: old(self)@.values.insert(id, b), ..old(self)@ })
                    &&& send == (connected && a.spec_enabled())
                    &&& b.spec_id() == a.spec_id() && b.spec_enabled() == a.spec_enabled()
                    &&& b.spec_value() == bytes_view(value)
                    &&& b.spec_pending() == if send {
                        sent(a.spec_pending())
                    } else {
                        a.spec_pending()
                    }
                },
                Err(e) => !old(self)@.values.contains_key(id) && final(self)@ == old(self)@ && e@
                    == "Value ID not found"@,
            },
    {
        match self.values.remove(&id) {
            Some(mut v) => {
                let send = v.set(value, connected);
                self.values.insert(id, v);
                proof {
                    assert(self@.values =~= old(self)@.values.insert(id, self@.values[id]));
                    lemma_one_changed(old(self)@, self@, id);
                }
                Ok(send)
            },
            None => {
                proof {
                    assert(self@.values =~= old(self)@.values);
                }
                Err(String::from_str("Value ID not found"))
            },
        }
    }

    /// The current bytes of the value `id`; refused when there is no such
    /// value.
    pub fn get_value(&self, id: u64) -> (res: Result<Bytes, String>)
        ensures
            match res {
                Ok(b) => self@.values.contains_key(id) && bytes_view(b) == self@.values[id].spec_value(),
                Err(e) => !self@.values.contains_key(id) && e@ == "Value ID not found"@,
            },
    {
        match self.values.get(&id) {
            Some(v) => Ok(v.get()),
            None => Err(String::from_str("Value ID not found")),
        }
    }

    /// Sets the static value `id`; refused when there is no such value.
    /// Returns whether the change is sent.
    pub fn set_value_static(&mut self, id: u64, value: Bytes, connected: bool) -> (res: Result<bool, String>)
        requires
            server_wf(old(self)@),
        ensures
            server_wf(final(self)@),
            match res {
                Ok(send) => old(self)@.static_values.contains_key(id) && {
                    let (a, b) = (old(self)@.static_values[id], final(self)@.static_values[id]);
                    &&& final(self)@ == (ServerModel {
                        static_values: old(self)@.static_values.insert(id, b),
                        ..old(self)@
                    })
                    &&& send == (connected && a.spec_enabled())
                    &&& b.spec_id() == a.spec_id() && b.spec_enabled() == a.spec_enabled()
                    &&& b.spec_value() == bytes_view(value)
                },
                Err(e) => !old(self)@.static_values.contains_key(id) && final(self)@ == old(self)@ && e@
                    == "Value ID not found"@,
            },
    {
        match self.static_values.remove(&id) {
            Some(mut v) => {
                let send = v.set(value, connected);
                self.static_values.insert(id, v);
                proof {
                    assert(self@.static_values =~= old(self)@.static_values.insert(id, self@.static_values[id]));
                    lemma_one_changed(old(self)@, self@, id);
                }
                Ok(send)
            },
            None => {
                proof {
                    assert(self@.static_values =~= old(self)@.static_values);
                }
                Err(String::from_str("Value ID not found"))
            },
        }
    }

    /// Replaces the list `id`; refused when there is no such list. Returns
    /// whether the change is sent.
    pub fn list_set(&mut self, id: u64, items: Vec<Bytes>, connected: bool) -> (res: Result<bool, String>)
        requires
            server_wf(old(self)@),
        ensures
            server_wf(final(self)@),
            match res {
                Ok(send) => old(self)@.lists.contains_key(id) && {
                    let (a, b) = (old(self)@.lists[id], final(self)@.lists[id]);
                    &&& final(self)@ == (ServerModel { lists: old(self)@.lists.insert(id, b), ..old(self)@ })
                    &&& send == (connected && a.spec_enabled())
                    &&& b.spec_id() == a.spec_id() && b.spec_enabled() == a.spec_enabled()
                    &&& b.spec_items() == crate::server_collections::views(items@)
                },
                Err(e) => !old(self)@.lists.contains_key(id) && final(self)@ == old(self)@ && e@
                    == "Value ID not found or type mismatch."@,
            },
    {
        match self.lists.remove(&id) {
            Some(mut l) => {
                let send = l.set(items, connected);
                self.lists.insert(id, l);
                proof {
                    assert(self@.lists =~= old(self)@.lists.insert(id, self@.lists[id]));
                    lemma_one_changed(old(self)@, self@, id);
                }
                Ok(send)
            },
            None => {
                proof {
                    assert(self@.lists =~= old(self)@.lists);
                }
                Err(String::from_str("Value ID not found or type mismatch."))
            },
        }
    }

    /// A copy of the list `id`; refused when there is no such list.
    pub fn list_get(&self, id: u64) -> (res: Result<Vec<Bytes>, String>)
        ensures
            match res {
                Ok(items) => self@.lists.contains_key(id) && crate::server_collections::views(items@)
                    == self@.lists[id].spec_items(),
                Err(e) => !self@.lists.contains_key(id) && e@ == "Value ID not found or type mismatch."@,
            },
    {
        match self.lists.get(&id) {
            Some(l) => Ok(l.get()),
            None => Err(String::from_str("Value ID not found or type mismatch.")),
        }
    }

    /// Overwrites item `idx` of the list `id`; refused when there is no such
    /// list or item. Returns whether the change is sent.
    pub fn list_set_item(&mut self, id: u64, idx: usize, value: Bytes, connected: bool) -> (res: Result<bool, String>)
        requires
            server_wf(old(self)@),
        ensures
            server_wf(final(self)@),
            match res {
                Ok(send) => old(self)@.lists.contains_key(id) && {
                    let (a, b) = (old(self)@.lists[id], final(self)@.lists[id]);
                    &&& final(self)@ == (ServerModel { lists: old(self)@.lists.insert(id, b), ..old(self)@ })
                    &&& idx < a.spec_items().len()
                    &&& send == (connected && a.spec_enabled())
                    &&& b.spec_id() == a.spec_id() && b.spec_enabled() == a.spec_enabled()
                    &&& b.spec_items() == a.spec_items().update(idx as int, bytes_view(value))
                },
                Err(e) => final(self)@ == old(self)@ && if old(self)@.lists.contains_key(id) {
                    idx >= old(self)@.lists[id].spec_items().len() && e@ == "Index out of bounds"@
                } else {
                    e@ == "Value ID not found or type mismatch."@
                },
            },
    {
        match self.lists.remove(&id) {
            Some(mut l) => {
                let r = l.set_item(idx, value, connected);
                self.lists.insert(id, l);
                proof {
                    assert(self@.lists =~= old(self)@.lists.insert(id, self@.lists[id]));
                    lemma_one_changed(old(self)@, self@, id);
                }
                match r {
                    Ok(send) => Ok(send),
                    Err(e) => {
                        proof {
                            assert(self@.lists[id] == old(self)@.lists[id]);
                            assert(self@.lists =~= old(self)@.lists);
                        }
                        Err(String::from_str(e))
                    },
                }
            },
            None => {
                proof {
                    assert(self@.lists =~= old(self)@.lists);
                }
                Err(String::from_str("Value ID not found or type mismatch."))
            },
        }
    }

    /// Item `idx` of the list `id`; refused when there is no such list or
    /// item.
    pub fn list_get_item(&self, id: u64, idx: usize) -> (res: Result<Bytes, String>)
        ensures
            match res {
                Ok(b) => self@.lists.contains_key(id) && idx < self@.lists[id].spec_items().len() && bytes_view(b)
                    == self@.lists[id].spec_items()[idx as int],
                Err(e) => if self@.lists.contains_key(id) {
                    idx >= self@.lists[id].spec_items().len() && e@ == "Index out of bounds"@
                } else {
                    e@ == "Value ID not found or type mismatch."@
                },
            },
    {
        match self.lists.get(&id) {
            Some(l) => match l.get_item(idx) {
                Ok(b) => Ok(b),
                Err(e) => Err(String::from_str(e)),
            },
            None => Err(String::from_str("Value ID not found or type mismatch.")),
        }
    }

    /// Removes and returns item `idx` of the list `id`, with whether the
    /// removal is sent; refused when there is no such list or item.
    pub fn list_remove_item(&mut self, id: u64, idx: usize, connected: bool) -> (res: Result<(Bytes, bool), String>)
        requires
            server_wf(old(self)@),
        ensures
            server_wf(final(self)@),
            match res {
                Ok((item, send)) => old(self)@.lists.contains_key(id) && {
                    let (a, b) = (old(self)@.lists[id], final(self)@.lists[id]);
                    &&& final(self)@ == (ServerModel { lists: old(self)@.lists.insert(id, b), ..old(self)@ })
                    &&& idx < a.spec_items().len() && bytes_view(item) == a.spec_items()[idx as int]
                    &&& send == (connected && a.spec_enabled())
                    &&& b.spec_id() == a.spec_id() && b.spec_enabled() == a.spec_enabled()
                    &&& b.spec_items() == a.spec_items().remove(idx as int)
                },
                Err(e) => final(self)@ == old(self)@ && if old(self)@.lists.contains_key(id) {
                    idx >= old(self)@.lists[id].spec_items().len() && e@ == "Index out of bounds"@
                } else {
                    e@ == "Value ID not found or type mismatch."@
                },
            },
    {
        match self.lists.remove(&id) {
            Some(mut l) => {
                let r = l.remove_item(idx, connected);
                self.lists.insert(id, l);
                proof {
                    assert(self@.lists =~= old(self)@.lists.insert(id, self@.lists[id]));
                    lemma_one_changed(old(self)@, self@, id);
                }
                match r {
                    Ok(p) => Ok(p),
                    Err(e) => {
                        proof {
                            assert(self@.lists[id] == old(self)@.lists[id]);
                            assert(self@.lists =~= old(self)@.lists);
                        }
                        Err(String::from_str(e))
                    },
                }
            },
            None => {
                proof {
                    assert(self@.lists =~= old(self)@.lists);
                }
                Err(String::from_str("Value ID not found or type mismatch."))
            },
        }
    }

    /// Appends an item to the list `id`; refused when there is no such
    /// list. Returns whether the change is sent.
    pub fn list_append_item(&mut self, id: u64, value: Bytes, connected: bool) -> (res: Result<bool, String>)
        requires
            server_wf(old(self)@),
        ensures
            server_wf(final(self)@),
            match res {
                Ok(send) => old(self)@.lists.contains_key(id) && {
                    let (a, b) = (old(self)@.lists[id], final(self)@.lists[id]);
                    &&& final(self)@ == (ServerModel { lists: old(self)@.lists.insert(id, b), ..old(self)@ })
                    &&& send == (connected && a.spec_enabled())
                    &&& b.spec_id() == a.spec_id() && b.spec_enabled() == a.spec_enabled()
                    &&& b.spec_items() == a.spec_items().push(bytes_view(value))
                },
                Err(e) => !old(self)@.lists.contains_key(id) && final(self)@ == old(self)@ && e@
                    == "Value ID not found or type mismatch."@,
            },
    {
        match self.lists.remove(&id) {
            Some(mut l) => {
                let send = l.append_item(value, connected);
                self.lists.insert(id, l);
                proof {
                    assert(self@.lists =~= old(self)@.lists.insert(id, self@.lists[id]));
                    lemma_one_changed(old(self)@, self@, id);
                }
                Ok(send)
            },
            None => {
                proof {
                    assert(self@.lists =~= old(self)@.lists);
                }
                Err(String::from_str("Value ID not found or type mismatch."))
            },
        }
    }

    /// The number of items of the list `id`; refused when there is no such
    /// list.
    pub fn list_len(&self, id: u64) -> (res: Result<usize, String>)
        ensures
            match res {
                Ok(n) => self@.lists.contains_key(id) && n == self@.lists[id].spec_items().len(),
                Err(e) => !self@.lists.contains_key(id) && e@ == "Value ID not found."@,
            },
    {
        match self.lists.get(&id) {
            Some(l) => Ok(l.len()),
            None => Err(String::from_str("Value ID not found.")),
        }
    }
}

impl ServerStates {
    /// Replaces the map `id` by entries with no key twice; refused when
    /// there is no such map. Returns whether the change is sent.
    pub fn map_set(&mut self, id: u64, entries: Vec<(Bytes, Bytes)>, connected: bool) -> (res: Result<bool, String>)
        requires
            server_wf(old(self)@),
            keys_unique(entry_views(entries@)),
        ensures
            server_wf(final(self)@),
            match res {
                Ok(send) => old(self)@.maps.contains_key(id) && {
                    let (a, b) = (old(self)@.maps[id], final(self)@.maps[id]);
                    &&& final(self)@ == (ServerModel { maps: old(self)@.maps.insert(id, b), ..old(self)@ })
                    &&& send == (connected && a.spec_enabled())
                    &&& b.spec_id() == a.spec_id() && b.spec_enabled() == a.spec_enabled()
                    &&& b.spec_entries() == entry_views(entries@)
                },
                Err(e) => !old(self)@.maps.contains_key(id) && final(self)@ == old(self)@ && e@
                    == "Value ID not found or type mismatch."@,
            },
    {
        match self.maps.remove(&id) {
            Some(mut m) => {
                proof {
                    assert(old(self)@.maps.contains_key(id));
                }
                let send = m.set(entries, connected);
                self.maps.insert(id, m);
                proof {
                    assert(self@.maps =~= old(self)@.maps.insert(id, self@.maps[id]));
                    lemma_one_changed(old(self)@, self@, id);
                }
                Ok(send)
            },
            None => {
                proof {
                    assert(self@.maps =~= old(self)@.maps);
                }
                Err(String::from_str("Value ID not found or type mismatch."))
            },
        }
    }

    /// A copy of the entries of the map `id`; refused when there is no such
    /// map.
    pub fn map_get(&self, id: u64) -> (res: Result<Vec<(Bytes, Bytes)>, String>)
        ensures
            match res {
                Ok(entries) => self@.maps.contains_key(id) && entry_views(entries@) == self@.maps[id].spec_entries(),
                Err(e) => !self@.maps.contains_key(id) && e@ == "Value ID not found or type mismatch."@,
            },
    {
        match self.maps.get(&id) {
            Some(m) => Ok(m.get()),
            None => Err(String::from_str("Value ID not found or type mismatch.")),
        }
    }

    /// Inserts or overwrites the value under `key` in the map `id` (an
    /// existing entry keeps its place, a new one comes last); refused when
    /// there is no such map. Returns whether the change is sent.
    pub fn map_set_item(&mut self, id: u64, key: Bytes, value: Bytes, connected: bool) -> (res: Result<bool, String>)
        requires
            server_wf(old(self)@),
        ensures
            server_wf(final(self)@),
            match res {
                Ok(send) => old(self)@.maps.contains_key(id) && {
                    let (a, b) = (old(self)@.maps[id], final(self)@.maps[id]);
                    &&& final(self)@ == (ServerModel { maps: old(self)@.maps.insert(id, b), ..old(self)@ })
                    &&& send == (connected && a.spec_enabled())
                    &&& b.spec_id() == a.spec_id() && b.spec_enabled() == a.spec_enabled()
                    &&& b.spec_entries() == entry_put(a.spec_entries(), bytes_view(key), bytes_view(value))
                },
                Err(e) => !old(self)@.maps.contains_key(id) && final(self)@ == old(self)@ && e@
                    == "Value ID not found or type mismatch."@,
            },
    {
        match self.maps.remove(&id) {
            Some(mut m) => {
                proof {
                    assert(old(self)@.maps.contains_key(id));
                }
                let ghost a = m.spec_entries();
                let send = m.set_item(key, value, connected);
                proof {
                    lemma_entry_put(a, bytes_view(key), bytes_view(value), m.spec_entries());
                }
                self.maps.insert(id, m);
                proof {
                    assert(self@.maps =~= old(self)@.maps.insert(id, self@.maps[id]));
                    lemma_one_changed(old(self)@, self@, id);
                }
                Ok(send)
            },
            None => {
                proof {
                    assert(self@.maps =~= old(self)@.maps);
                }
                Err(String::from_str("Value ID not found or type mismatch."))
            },
        }
    }

    /// The value under `key` in the map `id`; refused when there is no such
    /// map or key.
    pub fn map_get_item(&self, id: u64, key: &Bytes) -> (res: Result<Bytes, String>)
        requires
            server_wf(self@),
        ensures
            match res {
                Ok(v) => self@.maps.contains_key(id) && entry_get(self@.maps[id].spec_entries(), bytes_view(*key))
                    == Some(bytes_view(v)),
                Err(e) => if self@.maps.contains_key(id) {
                    entry_get(self@.maps[id].spec_entries(), bytes_view(*key)) is None && e@ == "Key not found in map."@
                } else {
                    e@ == "Value ID not found or type mismatch."@
                },
            },
    {
        match self.maps.get(&id) {
            Some(m) => {
                proof {
                    assert(self@.maps.contains_key(id));
                    assert(m.wf());
                }
                match m.get_item(key) {
                    Some(v) => {
                        proof {
                            let i = choose|i: int|
                                0 <= i < m.spec_entries().len() && m.spec_entries()[i].0 == bytes_view(*key)
                                    && m.spec_entries()[i].1 == bytes_view(v);
                            lemma_entry_get_at(m.spec_entries(), i);
                        }
                        Ok(v)
                    },
                    None => {
                        proof {
                            lemma_entry_get_none(m.spec_entries(), bytes_view(*key));
                        }
                        Err(String::from_str("Key not found in map."))
                    },
                }
            },
            None => Err(String::from_str("Value ID not found or type mismatch.")),
        }
    }

    /// Removes the entry under `key` from the map `id` and returns its value
    /// with whether the removal is sent (`None` when there is no such key);
    /// refused when there is no such map.
    pub fn map_remove_item(&mut self, id: u64, key: &Bytes, connected: bool) -> (res: Result<
        Option<(Bytes, bool)>,
        String,
    >)
        requires
            server_wf(old(self)@),
        ensures
            server_wf(final(self)@),
            match res {
                Ok(r) => old(self)@.maps.contains_key(id) && {
                    let (a, b) = (old(self)@.maps[id], final(self)@.maps[id]);
                    &&& final(self)@ == (ServerModel { maps: old(self)@.maps.insert(id, b), ..old(self)@ })
                    &&& b.spec_id() == a.spec_id() && b.spec_enabled() == a.spec_enabled()
                    &&& b.spec_entries() == entry_remove(a.spec_entries(), bytes_view(*key))
                    &&& match r {
                        Some((v, send)) => entry_get(a.spec_entries(), bytes_view(*key)) == Some(bytes_view(v))
                            && send == (connected && a.spec_enabled()),
                        None => entry_get(a.spec_entries(), bytes_view(*key)) is None,
                    }
                },
                Err(e) => !old(self)@.maps.contains_key(id) && final(self)@ == old(self)@ && e@
                    == "Value ID not found or type mismatch."@,
            },
    {
        match self.maps.remove(&id) {
            Some(mut m) => {
                proof {
                    assert(old(self)@.maps.contains_key(id));
                }
                let ghost a = m.spec_entries();
                let r = m.remove_item(key, connected);
                proof {
                    if r is Some {
                        let v = (r->0).0;
                        let i = choose|i: int|
                            0 <= i < a.len() && a[i].0 == bytes_view(*key) && a[i].1 == bytes_view(v)
                                && m.spec_entries() == a.remove(i);
                        lemma_entry_get_at(a, i);
                        lemma_entry_remove_at(a, i);
                    } else {
                        lemma_entry_get_none(a, bytes_view(*key));
                        lemma_entry_remove_none(a, bytes_view(*key));
                    }
                }
                self.maps.insert(id, m);
                proof {
                    assert(self@.maps =~= old(self)@.maps.insert(id, self@.maps[id]));
                    lemma_one_changed(old(self)@, self@, id);
                }
                Ok(r)
            },
            None => {
                proof {
                    assert(self@.maps =~= old(self)@.maps);
                }
                Err(String::from_str("Value ID not found or type mismatch."))
            },
        }
    }

    /// The number of entries of the map `id`; refused when there is no such
    /// map.
    pub fn map_len(&self, id: u64) -> (res: Result<usize, String>)
        ensures
            match res {
                Ok(n) => self@.maps.contains_key(id) && n == self@.maps[id].spec_entries().len(),
                Err(e) => !self@.maps.contains_key(id) && e@ == "Value ID not found."@,
            },
    {
        match self.maps.get(&id) {
            Some(m) => Ok(m.len()),
            None => Err(String::from_str("Value ID not found.")),
        }
    }

    /// The size (rows, columns) of the image `id`; refused when there is no
    /// such image.
    pub fn image_get_size(&self, id: u64) -> (res: Result<[usize; 2], String>)
        ensures
            match res {
                Ok(s) => self@.images.contains_key(id) && s == self@.images[id].spec_size(),
                Err(e) => !self@.images.contains_key(id) && e@ == "Value ID not found."@,
            },
    {
        match self.images.get(&id) {
            Some(im) => Ok(im.get_size()),
            None => Err(String::from_str("Value ID not found.")),
        }
    }

    /// A copy of the pixels of the image `id`, with its size; refused when
    /// there is no such image.
    pub fn image_get(&self, id: u64) -> (res: Result<(Vec<u8>, [usize; 2]), String>)
        ensures
            match res {
                Ok((p, s)) => self@.images.contains_key(id) && p@ == self@.images[id].spec_image() && s
                    == self@.images[id].spec_size(),
                Err(e) => !self@.images.contains_key(id) && e@ == "Value ID not found."@,
            },
    {
        match self.images.get(&id) {
            Some(im) => Ok((vstd::slice::slice_to_vec(im.get_image().as_slice()), im.get_size())),
            None => Err(String::from_str("Value ID not found.")),
        }
    }

    /// Stores `image` (at `origin`, when given) in the image `id`: see
    /// [`image_set_post`]; refused when there is no such image.
    pub fn image_set(&mut self, id: u64, image: ImageData, origin: Option<[u32; 2]>, connected: bool) -> (res:
        Result<Option<Vec<u8>>, String>)
        requires
            server_wf(old(self)@),
        ensures
            server_wf(final(self)@),
            if old(self)@.images.contains_key(id) {
                let (a, b) = (old(self)@.images[id], final(self)@.images[id]);
                &&& final(self)@ == (ServerModel { images: old(self)@.images.insert(id, b), ..old(self)@ })
                &&& b.spec_id() == a.spec_id() && b.spec_enabled() == a.spec_enabled()
                &&& image_set_post(a, b, image, origin, connected, res)
            } else {
                final(self)@ == old(self)@ && (res matches Err(e) && e@ == "Value ID not found."@)
            },
    {
        match self.images.remove(&id) {
            Some(mut im) => {
                proof {
                    assert(old(self)@.images.contains_key(id));
                }
                let r = im.set_image(image, origin, connected);
                self.images.insert(id, im);
                proof {
                    assert(self@.images =~= old(self)@.images.insert(id, self@.images[id]));
                    lemma_one_changed(old(self)@, self@, id);
                }
                r
            },
            None => {
                proof {
                    assert(self@.images =~= old(self)@.images);
                }
                Err(String::from_str("Value ID not found."))
            },
        }
    }

    /// Registers graphs with coordinates of `graph_type` under `id`, whose
    /// type is the size of a coordinate; refused after the registration
    /// closed or when graphs have that id.
    pub fn add_graphs(&mut self, id: u64, graph_type: GraphType) -> (res: Result<u64, String>)
        requires
            server_wf(old(self)@),
        ensures
            server_wf(final(self)@),
            res is Err <==> old(self)@.finalized || old(self)@.graphs.contains_key(id),
            res is Err ==> final(self)@ == old(self)@,
            res matches Err(e) ==> e@ == if old(self)@.finalized {
                "Cannot add new values after server has been finalized"@
            } else {
                "Graphs with id "@ + decimal(id as nat) + " already exists"@
            },
            res is Ok ==> res->Ok_0 == id && final(self)@ == (ServerModel {
                graphs: old(self)@.graphs.insert(id, final(self)@.graphs[id]),
                types: old(self)@.types.insert(id, graph_type.spec_bytes_size() as u64),
                ids: old(self)@.ids.push(id),
                ..old(self)@
            }) && final(self)@.graphs[id].spec_graphs() == Map::<u16, GraphView>::empty()
                && final(self)@.graphs[id].spec_graph_type() == graph_type && !final(self)@.graphs[id].spec_enabled(),
    {
        if self.finalized {
            return Err(String::from_str("Cannot add new values after server has been finalized"));
        }
        if self.graphs.contains_key(&id) {
            return Err(text_with_id("Graphs with id ", id, " already exists"));
        }
        self.graphs.insert(id, ServerGraphs::new(id, graph_type));
        self.types.insert(id, graph_type.bytes_size() as u64);
        self.ids.push(id);
        proof {
            lemma_ids_after_register(old(self)@, self@, id);
            assert(self@.values == old(self)@.values);
            assert(self@.static_values == old(self)@.static_values);
            assert(self@.signals == old(self)@.signals);
            assert(self@.images == old(self)@.images);
            assert(self@.lists == old(self)@.lists);
            assert(self@.maps == old(self)@.maps);
        }
        Ok(id)
    }

    /// Puts a graph at `idx` of the graphs `id`; refused when there are no
    /// such graphs. Returns whether the change is sent.
    pub fn graph_set(&mut self, id: u64, idx: u16, y: Vec<u8>, x: Option<Vec<u8>>, connected: bool) -> (res: Result<
        bool,
        String,
    >)
        requires
            server_wf(old(self)@),
        ensures
            server_wf(final(self)@),
            match res {
                Ok(send) => old(self)@.graphs.contains_key(id) && {
                    let (a, b) = (old(self)@.graphs[id], final(self)@.graphs[id]);
                    &&& final(self)@ == (ServerModel { graphs: old(self)@.graphs.insert(id, b), ..old(self)@ })
                    &&& send == (connected && a.spec_enabled())
                    &&& b.spec_id() == a.spec_id() && b.spec_enabled() == a.spec_enabled()
                    &&& b.spec_graph_type() == a.spec_graph_type()
                    &&& b.spec_graphs() == a.spec_graphs().insert(idx, (y@, opt_bytes(x)))
                },
                Err(e) => !old(self)@.graphs.contains_key(id) && final(self)@ == old(self)@ && e@
                    == "Value ID not found."@,
            },
    {
        match self.graphs.remove(&id) {
            Some(mut g) => {
                let send = g.set(idx, y, x, connected);
                self.graphs.insert(id, g);
                proof {
                    assert(self@.graphs =~= old(self)@.graphs.insert(id, self@.graphs[id]));
                    lemma_one_changed(old(self)@, self@, id);
                }
                Ok(send)
            },
            None => {
                proof {
                    assert(self@.graphs =~= old(self)@.graphs);
                }
                Err(String::from_str("Value ID not found."))
            },
        }
    }

    /// Adds points to graph `idx` of the graphs `id` (see
    /// [`ServerGraphs::add_points`]); refused when there are no such graphs
    /// or graph. Returns whether the change is sent.
    pub fn graph_add_points(&mut self, id: u64, idx: u16, y: Vec<u8>, x: Option<Vec<u8>>, connected: bool) -> (res:
        Result<bool, String>)
        requires
            server_wf(old(self)@),
            x matches Some(xs) ==> xs.len() == y.len(),
        ensures
            server_wf(final(self)@),
            if old(self)@.graphs.contains_key(id) {
                let (a, b) = (old(self)@.graphs[id], final(self)@.graphs[id]);
                &&& final(self)@ == (ServerModel { graphs: old(self)@.graphs.insert(id, b), ..old(self)@ })
                &&& b.spec_id() == a.spec_id() && b.spec_enabled() == a.spec_enabled()
                &&& b.spec_graph_type() == a.spec_graph_type()
                &&& res is Err <==> !a.spec_graphs().contains_key(idx)
                &&& res matches Err(e) ==> e@ == "Graph index not found."@ && b.spec_graphs() == a.spec_graphs()
                &&& res is Ok ==> res->Ok_0 == (connected && a.spec_enabled()) && b.spec_graphs()
                    == a.spec_graphs().insert(idx, points_added(a.spec_graphs()[idx], y@, opt_bytes(x)))
            } else {
                final(self)@ == old(self)@ && (res matches Err(e) && e@ == "Value ID not found."@)
            },
    {
        match self.graphs.remove(&id) {
            Some(mut g) => {
                let r = g.add_points(idx, y, x, connected);
                self.graphs.insert(id, g);
                proof {
                    assert(self@.graphs =~= old(self)@.graphs.insert(id, self@.graphs[id]));
                    lemma_one_changed(old(self)@, self@, id);
                }
                r
            },
            None => {
                proof {
                    assert(self@.graphs =~= old(self)@.graphs);
                }
                Err(String::from_str("Value ID not found."))
            },
        }
    }

    /// Removes graph `idx` of the graphs `id` (`reset`: every graph);
    /// refused when there are no such graphs. Returns whether the change is
    /// sent.
    pub fn graph_remove(&mut self, id: u64, idx: Option<u16>, connected: bool) -> (res: Result<bool, String>)
        requires
            server_wf(old(self)@),
        ensures
            server_wf(final(self)@),
            match res {
                Ok(send) => old(self)@.graphs.contains_key(id) && {
                    let (a, b) = (old(self)@.graphs[id], final(self)@.graphs[id]);
                    &&& final(self)@ == (ServerModel { graphs: old(self)@.graphs.insert(id, b), ..old(self)@ })
                    &&& send == (connected && a.spec_enabled())
                    &&& b.spec_id() == a.spec_id() && b.spec_enabled() == a.spec_enabled()
                    &&& b.spec_graph_type() == a.spec_graph_type()
                    &&& b.spec_graphs() == match idx {
                        Some(i) => a.spec_graphs().remove(i),
                        None => Map::<u16, GraphView>::empty(),
                    }
                },
                Err(e) => !old(self)@.graphs.contains_key(id) && final(self)@ == old(self)@ && e@
                    == "Value ID not found."@,
            },
    {
        match self.graphs.remove(&id) {
            Some(mut g) => {
                let send = match idx {
                    Some(i) => g.remove(i, connected),
                    None => g.reset(connected),
                };
                self.graphs.insert(id, g);
                proof {
                    assert(self@.graphs =~= old(self)@.graphs.insert(id, self@.graphs[id]));
                    lemma_one_changed(old(self)@, self@, id);
                }
                Ok(send)
            },
            None => {
                proof {
                    assert(self@.graphs =~= old(self)@.graphs);
                }
                Err(String::from_str("Value ID not found."))
            },
        }
    }
}

/// What happened while the server waited for a client.
pub enum AcceptEvent {
    /// the server was asked to stop
    Stop,
    /// accepting a connection failed, for the reason given
    AcceptFailed(String),
    /// setting up the accepted connection failed, for the reason given
    SetupFailed(String),
    /// the websocket handshake failed, for the reason given
    HandshakeFailed(String),
    /// reading the client's first message failed with this error
    ReadFailed(String),
    /// the client's first message: its protocol version and states hash
    Handshake(u16, u64),
    /// the client's first message was not a handshake
    OtherMessage,
}

/// What the server does about an [`AcceptEvent`].
pub enum AcceptAction {
    /// stop listening, closing the client being served if there is one
    Finish(bool),
    /// report the message as an error (`true`) or a warning (`false`), clear
    /// the connected flag if asked (second flag), and wait for the next client
    Report(String, bool, bool),
    /// serve the client that just connected, closing the one being served
    /// first if there is one
    Connect(bool),
}

/// The server's listening loop: whether a client is being served
/// (`serving`) and what happened decide whether a client is served next and
/// what the server does. A client is served when it speaks the `expected`
/// protocol version and, when hashes are listed, its hash is allowed.
pub fn accept_step(serving: bool, event: AcceptEvent, expected: u16, allowed: &Option<Vec<u64>>) -> (res: (
    bool,
    AcceptAction,
))
    ensures
        match event {
            AcceptEvent::Stop => res.0 == serving && (res.1 matches AcceptAction::Finish(c) && c == serving),
            AcceptEvent::AcceptFailed(d) => res.0 == serving && (res.1 matches AcceptAction::Report(m, e, off) && e
                && !off && m@ == "accepting connection failed: "@ + d@),
            AcceptEvent::SetupFailed(d) => res.0 == serving && (res.1 matches AcceptAction::Report(m, e, off) && e
                && !off && m@ == "failed to set TCP_NODELAY: "@ + d@),
            AcceptEvent::HandshakeFailed(d) => res.0 == serving && (res.1 matches AcceptAction::Report(m, e, off) && e
                && off && m@ == "websocket handshake failed: "@ + d@),
            AcceptEvent::ReadFailed(d) => res.0 == serving && (res.1 matches AcceptAction::Report(m, e, off) && e && off
                && m@ == d@),
            AcceptEvent::Handshake(v, h) => if v == expected && hash_allowed(*allowed, h) {
                res.0 && (res.1 matches AcceptAction::Connect(c) && c == serving)
            } else {
                res.0 == serving && (res.1 matches AcceptAction::Report(m, e, off) && !e && !off
                    && m@ == handshake_refusal(v, h, expected, *allowed))
            },
            AcceptEvent::OtherMessage => res.0 == serving && (res.1 matches AcceptAction::Report(m, e, off) && e && off
                && m@ == "expected handshake message from client"@),
        },
{
    match event {
        AcceptEvent::Stop => (serving, AcceptAction::Finish(serving)),
        AcceptEvent::AcceptFailed(d) => {
            let mut m = String::from_str("accepting connection failed: ");
            m.append(d.as_str());
            (serving, AcceptAction::Report(m, true, false))
        },
        AcceptEvent::SetupFailed(d) => {
            let mut m = String::from_str("failed to set TCP_NODELAY: ");
            m.append(d.as_str());
            (serving, AcceptAction::Report(m, true, false))
        },
        AcceptEvent::HandshakeFailed(d) => {
            let mut m = String::from_str("websocket handshake failed: ");
            m.append(d.as_str());
            (serving, AcceptAction::Report(m, true, true))
        },
        AcceptEvent::ReadFailed(d) => (serving, AcceptAction::Report(d, true, true)),
        AcceptEvent::Handshake(v, h) => match check_handshake(v, h, expected, allowed) {
            Ok(()) => (true, AcceptAction::Connect(serving)),
            Err(m) => (serving, AcceptAction::Report(m, false, false)),
        },
        AcceptEvent::OtherMessage => (
            serving,
            AcceptAction::Report(String::from_str("expected handshake message from client"), true, true),
        ),
    }
}

} // verus!
