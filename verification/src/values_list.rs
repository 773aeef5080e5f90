use vstd::prelude::*;

use crate::channel::{acked, ChannelMessage};
use crate::data::{data_error, data_step, empty_data_state, multi_data_step, Data, DataMulti, DataMultiMessage, DataState};
use crate::data_take::{
    multi_take_step, take_step, BatchModel, DataMultiTake, DataMultiTakeMessage, DataTake,
};
use crate::image::{image_apply_post, ImageState, TextureUpdate};
use crate::messages::{bytes_as_slice, bytes_view, ServerMessage};
use crate::text::{decimal, push_decimal};
use std::collections::{HashMap, HashSet};

verus! {

broadcast use vstd::std_specs::hash::group_hash_axioms;

/// What the client does after a message from the server was handled.
#[derive(Debug)]
pub enum Handled {
    /// repaint after the delay in seconds whose `f32` bits these are
    Repaint(u32),
    /// the message was applied; whether a repaint was asked for
    Applied(bool),
    /// an image message was applied: the image id, the texture change to
    /// make, and whether a repaint was asked for
    Texture(u64, Option<TextureUpdate>, bool),
    /// a message for a registered value, which its typed owner decodes
    Forward(ServerMessage),
}

/// The registered states of a client, by id.
pub struct ListModel {
    pub values: Set<u64>,
    pub static_values: Set<u64>,
    pub values_take: Set<u64>,
    pub vecs: Set<u64>,
    pub maps: Set<u64>,
    pub images: Map<u64, ImageState>,
    pub data: Map<u64, Data>,
    pub data_take: Map<u64, DataTake>,
    pub multi_data: Map<u64, DataMulti>,
    pub data_multi_take: Map<u64, DataMultiTake>,
}

/// The id a message is addressed to (none for a repaint request).
pub open spec fn message_id(message: ServerMessage) -> Option<u64> {
    match message {
        ServerMessage::Value(id, ..) => Some(id),
        ServerMessage::ValueTake(id, ..) => Some(id),
        ServerMessage::Static(id, ..) => Some(id),
        ServerMessage::Image(id, ..) => Some(id),
        ServerMessage::ValueVec(id, ..) => Some(id),
        ServerMessage::ValueMap(id, ..) => Some(id),
        ServerMessage::Data(id, ..) => Some(id),
        ServerMessage::DataTake(id, ..) => Some(id),
        ServerMessage::DataMulti(id, ..) => Some(id),
        ServerMessage::DataMultiTake(id, ..) => Some(id),
        ServerMessage::Update(_) => None,
    }
}

/// Whether the state a message is addressed to is registered.
pub open spec fn is_registered(m: ListModel, message: ServerMessage) -> bool {
    match message {
        ServerMessage::Value(id, ..) => m.values.contains(id),
        ServerMessage::ValueTake(id, ..) => m.values_take.contains(id),
        ServerMessage::Static(id, ..) => m.static_values.contains(id),
        ServerMessage::Image(id, ..) => m.images.contains_key(id),
        ServerMessage::ValueVec(id, ..) => m.vecs.contains(id),
        ServerMessage::ValueMap(id, ..) => m.maps.contains(id),
        ServerMessage::Data(id, ..) => m.data.contains_key(id),
        ServerMessage::DataTake(id, ..) => m.data_take.contains_key(id),
        ServerMessage::DataMulti(id, ..) => m.multi_data.contains_key(id),
        ServerMessage::DataMultiTake(id, ..) => m.data_multi_take.contains_key(id),
        ServerMessage::Update(_) => true,
    }
}

/// Whether a message for a state that is not registered is acknowledged
/// anyway: exactly when the server waits for an acknowledgement of it, so
/// that the server is never left waiting.
pub open spec fn missing_ack(message: ServerMessage) -> bool {
    match message {
        ServerMessage::Value(..) => true,
        ServerMessage::ValueTake(_, _, blocking, ..) => blocking,
        ServerMessage::Static(..) => false,
        ServerMessage::Image(_, _, m, _) => m.spec_requires_ack(),
        ServerMessage::ValueVec(..) => false,
        ServerMessage::ValueMap(..) => false,
        ServerMessage::Data(_, _, m) => m.spec_requires_ack(),
        ServerMessage::DataTake(_, blocking, _, m) => blocking && m.spec_is_terminal(),
        ServerMessage::DataMulti(_, _, m) => m.spec_requires_ack(),
        ServerMessage::DataMultiTake(_, _, m) => m.spec_requires_ack_on_failure(),
        ServerMessage::Update(_) => false,
    }
}

/// The kind of state a message names, as its errors name it.
pub open spec fn state_kind(message: ServerMessage) -> Seq<char> {
    match message {
        ServerMessage::Value(..) => "Value"@,
        ServerMessage::ValueTake(..) => "ValueTake"@,
        ServerMessage::Static(..) => "Static"@,
        ServerMessage::Image(..) => "Image"@,
        ServerMessage::ValueVec(..) => "List"@,
        ServerMessage::ValueMap(..) => "Map"@,
        ServerMessage::Data(..) => "Data"@,
        ServerMessage::DataTake(..) => "DataTake"@,
        ServerMessage::DataMulti(..) => "MultiData"@,
        ServerMessage::DataMultiTake(..) => "DataMultiTake"@,
        ServerMessage::Update(_) => "Update"@,
    }
}

/// The error of a message addressed to a state that is not registered.
pub open spec fn not_found_error(message: ServerMessage) -> Seq<char> {
    state_kind(message) + " with id "@ + decimal(message_id(message)->0 as nat) + " not found"@
}

/// Whether a message is decoded by the typed owner of its state.
pub open spec fn is_value_message(message: ServerMessage) -> bool {
    message is Value || message is ValueTake || message is Static || message is ValueVec || message is ValueMap
}

/// The texture result of handling an image message.
pub open spec fn texture_result(res: Result<Handled, String>) -> Result<Option<TextureUpdate>, String> {
    match res {
        Ok(Handled::Texture(_, t, _)) => Ok(t),
        Ok(_) => Ok(None),
        Err(e) => Err(e),
    }
}

/// What handling a message for a registered data state does.
pub open spec fn data_post(
    before: ListModel,
    after: ListModel,
    message: ServerMessage,
    out_before: Seq<ChannelMessage>,
    out_after: Seq<ChannelMessage>,
    res: Result<Handled, String>,
) -> bool {
    match message {
        ServerMessage::Image(id, update, m, data) => {
            &&& after == ListModel { images: before.images.insert(id, after.images[id]), ..before }
            &&& image_apply_post(before.images[id], after.images[id], m, bytes_view(data), texture_result(res))
            &&& out_after == acked(out_before, m.spec_requires_ack(), id)
            &&& res is Ok ==> (res->Ok_0 matches Handled::Texture(i, _, u) && i == id && u == update)
        },
        ServerMessage::Data(id, update, m) => {
            let d = before.data[id];
            let o = data_step(d.spec_data_type().spec_item_size(), d.spec_data_type(), d.state(), m);
            &&& after == ListModel { data: before.data.insert(id, after.data[id]), ..before }
            &&& after.data[id].state() == o.state
            &&& after.data[id].spec_data_type() == d.spec_data_type()
            &&& out_after == acked(out_before, o.ack, id)
            &&& res is Ok <==> o.ok
            &&& res is Ok ==> (res->Ok_0 matches Handled::Applied(u) && u == update)
            &&& res matches Err(e) ==> e@ == data_error(
                d.spec_data_type().spec_item_size(),
                d.spec_data_type(),
                d.spec_name(),
                d.state(),
                m,
            )
        },
        ServerMessage::DataTake(id, blocking, update, m) => {
            let d = before.data_take[id];
            let o = take_step(
                d.spec_data_type().spec_item_size(),
                d.spec_data_type(),
                "DataTake"@,
                d.spec_name(),
                "DataTake: "@ + d.spec_name(),
                d.state(),
                m,
                blocking,
            );
            &&& after == ListModel { data_take: before.data_take.insert(id, after.data_take[id]), ..before }
            &&& after.data_take[id].state() == o.state
            &&& after.data_take[id].spec_data_type() == d.spec_data_type()
            &&& out_after == acked(out_before, o.ack, id)
            &&& res is Ok <==> o.ok
            &&& res is Ok ==> (res->Ok_0 matches Handled::Applied(u) && u == update)
            &&& res matches Err(e) ==> e@ == o.error
        },
        ServerMessage::DataMulti(id, update, m) => {
            let d = before.multi_data[id];
            &&& after == ListModel { multi_data: before.multi_data.insert(id, after.multi_data[id]), ..before }
            &&& after.multi_data[id].spec_data_type() == d.spec_data_type()
            &&& res is Ok ==> (res->Ok_0 matches Handled::Applied(u) && u == update)
            &&& match m {
                DataMultiMessage::Remove(key) => after.multi_data[id].states() == d.states().remove(key)
                    && out_after == out_before && res is Ok,
                DataMultiMessage::Reset => after.multi_data[id].states() == Map::<u32, DataState>::empty()
                    && out_after == out_before && res is Ok,
                DataMultiMessage::Modify(key, dm) => {
                    let o = multi_data_step(d.spec_data_type().spec_item_size(), d.spec_data_type(), d.states(), key, dm);
                    &&& after.multi_data[id].states() == o.states
                    &&& out_after == acked(out_before, o.ack, id)
                    &&& res is Ok <==> o.ok
                    &&& res matches Err(e) ==> e@ == data_error(
                        d.spec_data_type().spec_item_size(),
                        d.spec_data_type(),
                        d.spec_name(),
                        if d.states().contains_key(key) {
                            d.states()[key]
                        } else {
                            empty_data_state()
                        },
                        dm,
                    )
                },
            }
        },
        ServerMessage::DataMultiTake(id, update, m) => {
            let d = before.data_multi_take[id];
            &&& after == ListModel { data_multi_take: before.data_multi_take.insert(id, after.data_multi_take[id]), ..before }
            &&& after.data_multi_take[id].spec_data_type() == d.spec_data_type()
            &&& res is Ok ==> (res->Ok_0 matches Handled::Applied(u) && u == update)
            &&& match m {
                DataMultiTakeMessage::Remove(key) => after.data_multi_take[id].stored() == d.stored().remove(key)
                    && after.data_multi_take[id].batches() == d.batches().remove(key) && out_after == out_before
                    && res is Ok,
                DataMultiTakeMessage::Reset => after.data_multi_take[id].stored() == Map::<u32, (Seq<u8>, bool)>::empty()
                    && after.data_multi_take[id].batches() == Map::<u32, BatchModel>::empty()
                    && out_after == out_before && res is Ok,
                DataMultiTakeMessage::Modify(key, dm, blocking) => {
                    let o = multi_take_step(
                        d.spec_data_type().spec_item_size(),
                        d.spec_data_type(),
                        d.spec_name(),
                        d.stored(),
                        d.batches(),
                        key,
                        dm,
                        blocking,
                    );
                    &&& after.data_multi_take[id].stored() == o.stored
                    &&& after.data_multi_take[id].batches() == o.batches
                    &&& out_after == acked(out_before, o.ack, id)
                    &&& res is Ok <==> o.ok
                    &&& res matches Err(e) ==> e@ == o.error
                },
            }
        },
        _ => true,
    }
}

/// What handling a message from the server does to the registered states
/// (`before` to `after`) and the outgoing queue, and what it returns.
///
/// A repaint request is passed on. A message for a state that is not
/// registered fails, and is acknowledged when the server waits for that. A
/// message for a registered value is handed to the value's typed owner. Any
/// other message updates its state and nothing else.
pub open spec fn handle_post(
    before: ListModel,
    after: ListModel,
    message: ServerMessage,
    out_before: Seq<ChannelMessage>,
    out_after: Seq<ChannelMessage>,
    res: Result<Handled, String>,
) -> bool {
    if message is Update {
        res == Ok::<Handled, String>(Handled::Repaint(message->Update_0)) && after == before && out_after == out_before
    } else if !is_registered(before, message) {
        &&& (res matches Err(e) && e@ == not_found_error(message))
        &&& after == before
        &&& out_after == acked(out_before, missing_ack(message), message_id(message)->0)
    } else if is_value_message(message) {
        res == Ok::<Handled, String>(Handled::Forward(message)) && after == before && out_after == out_before
    } else {
        data_post(before, after, message, out_before, out_after, res)
    }
}

/// The states a client keeps in sync with the server, by id.
///
/// Images and data buffers are held here; values are held by their typed
/// owners, and only their ids are registered here.
pub struct ValuesList {
    values: HashSet<u64>,
    static_values: HashSet<u64>,
    values_take: HashSet<u64>,
    vecs: HashSet<u64>,
    maps: HashSet<u64>,
    images: HashMap<u64, ImageState>,
    data: HashMap<u64, Data>,
    data_take: HashMap<u64, DataTake>,
    multi_data: HashMap<u64, DataMulti>,
    data_multi_take: HashMap<u64, DataMultiTake>,
}

impl View for ValuesList {
    type V = ListModel;

    closed spec fn view(&self) -> ListModel {
        ListModel {
            values: self.values@,
            static_values: self.static_values@,
            values_take: self.values_take@,
            vecs: self.vecs@,
            maps: self.maps@,
            images: self.images@,
            data: self.data@,
            data_take: self.data_take@,
            multi_data: self.multi_data@,
            data_multi_take: self.data_multi_take@,
        }
    }
}

/// Every held state is well formed and registered under its own id.
pub open spec fn list_wf(m: ListModel) -> bool {
    &&& forall|id: u64| #[trigger] m.images.contains_key(id) ==> m.images[id].wf() && m.images[id].spec_id() == id
    &&& forall|id: u64| #[trigger] m.data.contains_key(id) ==> m.data[id].wf() && m.data[id].spec_id() == id
    &&& forall|id: u64| #[trigger]
        m.data_take.contains_key(id) ==> m.data_take[id].wf() && m.data_take[id].spec_id() == id
    &&& forall|id: u64| #[trigger]
        m.multi_data.contains_key(id) ==> m.multi_data[id].wf() && m.multi_data[id].spec_id() == id
    &&& forall|id: u64| #[trigger]
        m.data_multi_take.contains_key(id) ==> m.data_multi_take[id].wf() && m.data_multi_take[id].spec_id() == id
}

fn not_found(kind: &str, id: u64) -> (e: String)
    ensures
        e@ == kind@ + " with id "@ + decimal(id as nat) + " not found"@,
{
    let mut e = String::from_str(kind);
    e.append(" with id ");
    push_decimal(&mut e, id);
    e.append(" not found");
    e
}

impl ValuesList {
    /// An empty list.
    pub fn new() -> (s: Self)
        ensures
            list_wf(s@),
            s@.values.is_empty(),
            s@.static_values.is_empty(),
            s@.values_take.is_empty(),
            s@.vecs.is_empty(),
            s@.maps.is_empty(),
            s@.images.is_empty(),
            s@.data.is_empty(),
            s@.data_take.is_empty(),
            s@.multi_data.is_empty(),
            s@.data_multi_take.is_empty(),
    {
        let s = ValuesList {
            values: HashSet::new(),
            static_values: HashSet::new(),
            values_take: HashSet::new(),
            vecs: HashSet::new(),
            maps: HashSet::new(),
            images: HashMap::new(),
            data: HashMap::new(),
            data_take: HashMap::new(),
            multi_data: HashMap::new(),
            data_multi_take: HashMap::new(),
        };
        proof {
            assert(s@.images =~= Map::empty());
            assert(s@.data =~= Map::empty());
            assert(s@.data_take =~= Map::empty());
            assert(s@.multi_data =~= Map::empty());
            assert(s@.data_multi_take =~= Map::empty());
        }
        s
    }

    /// Registers a value by id.
    pub fn add_value(&mut self, id: u64)
        requires
            list_wf(old(self)@),
        ensures
            list_wf(final(self)@),
            final(self)@ == (ListModel { values: old(self)@.values.insert(id), ..old(self)@ }),
    {
        self.values.insert(id);
        proof {
            assert(self@.images == old(self)@.images);
            assert(self@.data == old(self)@.data);
            assert(self@.data_take == old(self)@.data_take);
            assert(self@.multi_data == old(self)@.multi_data);
            assert(self@.data_multi_take == old(self)@.data_multi_take);
        }
    }

    /// Registers a static value by id.
    pub fn add_static(&mut self, id: u64)
        requires
            list_wf(old(self)@),
        ensures
            list_wf(final(self)@),
            final(self)@ == (ListModel { static_values: old(self)@.static_values.insert(id), ..old(self)@ }),
    {
        self.static_values.insert(id);
        proof {
            assert(self@.images == old(self)@.images);
            assert(self@.data == old(self)@.data);
            assert(self@.data_take == old(self)@.data_take);
            assert(self@.multi_data == old(self)@.multi_data);
            assert(self@.data_multi_take == old(self)@.data_multi_take);
        }
    }

    /// Registers a one-shot value by id.
    pub fn add_value_take(&mut self, id: u64)
        requires
            list_wf(old(self)@),
        ensures
            list_wf(final(self)@),
            final(self)@ == (ListModel { values_take: old(self)@.values_take.insert(id), ..old(self)@ }),
    {
        self.values_take.insert(id);
        proof {
            assert(self@.images == old(self)@.images);
            assert(self@.data == old(self)@.data);
            assert(self@.data_take == old(self)@.data_take);
            assert(self@.multi_data == old(self)@.multi_data);
            assert(self@.data_multi_take == old(self)@.data_multi_take);
        }
    }

    /// Registers a list by id.
    pub fn add_vec(&mut self, id: u64)
        requires
            list_wf(old(self)@),
        ensures
            list_wf(final(self)@),
            final(self)@ == (ListModel { vecs: old(self)@.vecs.insert(id), ..old(self)@ }),
    {
        self.vecs.insert(id);
        proof {
            assert(self@.images == old(self)@.images);
            assert(self@.data == old(self)@.data);
            assert(self@.data_take == old(self)@.data_take);
            assert(self@.multi_data == old(self)@.multi_data);
            assert(self@.data_multi_take == old(self)@.data_multi_take);
        }
    }

    /// Registers a map by id.
    pub fn add_map(&mut self, id: u64)
        requires
            list_wf(old(self)@),
        ensures
            list_wf(final(self)@),
            final(self)@ == (ListModel { maps: old(self)@.maps.insert(id), ..old(self)@ }),
    {
        self.maps.insert(id);
        proof {
            assert(self@.images == old(self)@.images);
            assert(self@.data == old(self)@.data);
            assert(self@.data_take == old(self)@.data_take);
            assert(self@.multi_data == old(self)@.multi_data);
            assert(self@.data_multi_take == old(self)@.data_multi_take);
        }
    }

    /// Holds an image under its id.
    pub fn add_image(&mut self, image: ImageState)
        requires
            list_wf(old(self)@),
            image.wf(),
        ensures
            list_wf(final(self)@),
            final(self)@ == (ListModel { images: old(self)@.images.insert(image.spec_id(), image), ..old(self)@ }),
    {
        let id = image.id();
        self.images.insert(id, image);
        proof {
            assert(self@.data == old(self)@.data);
            assert(self@.data_take == old(self)@.data_take);
            assert(self@.multi_data == old(self)@.multi_data);
            assert(self@.data_multi_take == old(self)@.data_multi_take);
        }
    }

    /// Holds a data buffer under its id.
    pub fn add_data(&mut self, data: Data)
        requires
            list_wf(old(self)@),
            data.wf(),
        ensures
            list_wf(final(self)@),
            final(self)@ == (ListModel { data: old(self)@.data.insert(data.spec_id(), data), ..old(self)@ }),
    {
        let id = data.id();
        self.data.insert(id, data);
        proof {
            assert(self@.images == old(self)@.images);
            assert(self@.data_take == old(self)@.data_take);
            assert(self@.multi_data == old(self)@.multi_data);
            assert(self@.data_multi_take == old(self)@.data_multi_take);
        }
    }

    /// Holds a one-shot data buffer under its id.
    pub fn add_data_take(&mut self, data: DataTake)
        requires
            list_wf(old(self)@),
            data.wf(),
        ensures
            list_wf(final(self)@),
            final(self)@ == (ListModel { data_take: old(self)@.data_take.insert(data.spec_id(), data), ..old(self)@ }),
    {
        let id = data.id();
        self.data_take.insert(id, data);
        proof {
            assert(self@.images == old(self)@.images);
            assert(self@.data == old(self)@.data);
            assert(self@.multi_data == old(self)@.multi_data);
            assert(self@.data_multi_take == old(self)@.data_multi_take);
        }
    }

    /// Holds a keyed collection of data buffers under its id.
    pub fn add_multi_data(&mut self, data: DataMulti)
        requires
            list_wf(old(self)@),
            data.wf(),
        ensures
            list_wf(final(self)@),
            final(self)@ == (ListModel { multi_data: old(self)@.multi_data.insert(data.spec_id(), data), ..old(self)@ }),
    {
        let id = data.id();
        self.multi_data.insert(id, data);
        proof {
            assert(self@.images == old(self)@.images);
            assert(self@.data == old(self)@.data);
            assert(self@.data_take == old(self)@.data_take);
            assert(self@.data_multi_take == old(self)@.data_multi_take);
        }
    }

    /// Holds a keyed collection of one-shot data buffers under its id.
    pub fn add_data_multi_take(&mut self, data: DataMultiTake)
        requires
            list_wf(old(self)@),
            data.wf(),
        ensures
            list_wf(final(self)@),
            final(self)@ == (ListModel {
                data_multi_take: old(self)@.data_multi_take.insert(data.spec_id(), data),
                ..old(self)@
            }),
    {
        let id = data.id();
        self.data_multi_take.insert(id, data);
        proof {
            assert(self@.images == old(self)@.images);
            assert(self@.data == old(self)@.data);
            assert(self@.data_take == old(self)@.data_take);
            assert(self@.multi_data == old(self)@.multi_data);
        }
    }
}

/// Whether a message for a state that is not registered is acknowledged
/// anyway.
pub fn missing_target_ack(message: &ServerMessage) -> (res: bool)
    ensures
        res == missing_ack(*message),
{
    match message {
        ServerMessage::Value(..) => true,
        ServerMessage::ValueTake(_, _, blocking, ..) => *blocking,
        ServerMessage::Static(..) => false,
        ServerMessage::Image(_, _, m, _) => m.requires_ack(),
        ServerMessage::ValueVec(..) => false,
        ServerMessage::ValueMap(..) => false,
        ServerMessage::Data(_, _, m) => m.requires_ack(),
        ServerMessage::DataTake(_, blocking, _, m) => *blocking && m.is_terminal(),
        ServerMessage::DataMulti(_, _, m) => m.requires_ack(),
        ServerMessage::DataMultiTake(_, _, m) => m.requires_ack_on_failure(),
        ServerMessage::Update(_) => false,
    }
}

/// The id a message is addressed to and the kind of state it names.
fn target(message: &ServerMessage) -> (res: (u64, &'static str))
    requires
        !(message is Update),
    ensures
        res.0 == message_id(*message)->0,
        res.1@ == state_kind(*message),
{
    match message {
        ServerMessage::Value(id, ..) => (*id, "Value"),
        ServerMessage::ValueTake(id, ..) => (*id, "ValueTake"),
        ServerMessage::Static(id, ..) => (*id, "Static"),
        ServerMessage::Image(id, ..) => (*id, "Image"),
        ServerMessage::ValueVec(id, ..) => (*id, "List"),
        ServerMessage::ValueMap(id, ..) => (*id, "Map"),
        ServerMessage::Data(id, ..) => (*id, "Data"),
        ServerMessage::DataTake(id, ..) => (*id, "DataTake"),
        ServerMessage::DataMulti(id, ..) => (*id, "MultiData"),
        ServerMessage::DataMultiTake(id, ..) => (*id, "DataMultiTake"),
        ServerMessage::Update(_) => (0, "Update"),
    }
}

impl ValuesList {
    fn registered(&self, message: &ServerMessage) -> (res: bool)
        ensures
            res == is_registered(self@, *message),
    {
        match message {
            ServerMessage::Value(id, ..) => self.values.contains(id),
            ServerMessage::ValueTake(id, ..) => self.values_take.contains(id),
            ServerMessage::Static(id, ..) => self.static_values.contains(id),
            ServerMessage::Image(id, ..) => self.images.contains_key(id),
            ServerMessage::ValueVec(id, ..) => self.vecs.contains(id),
            ServerMessage::ValueMap(id, ..) => self.maps.contains(id),
            ServerMessage::Data(id, ..) => self.data.contains_key(id),
            ServerMessage::DataTake(id, ..) => self.data_take.contains_key(id),
            ServerMessage::DataMulti(id, ..) => self.multi_data.contains_key(id),
            ServerMessage::DataMultiTake(id, ..) => self.data_multi_take.contains_key(id),
            ServerMessage::Update(_) => true,
        }
    }

    /// Handles a message from the server: applies it to the image or data
    /// state it is addressed to, hands a value message over to the value's
    /// owner, and passes on a repaint request.
    pub fn handle_message(&mut self, message: ServerMessage, out: &mut Vec<ChannelMessage>) -> (res: Result<
        Handled,
        String,
    >)
        requires
            list_wf(old(self)@),
        ensures
            list_wf(final(self)@),
            handle_post(old(self)@, final(self)@, message, old(out)@, final(out)@, res),
    {
        if !self.registered(&message) {
            let (id, kind) = target(&message);
            if missing_target_ack(&message) {
                out.push(ChannelMessage::Ack(id));
            }
            return Err(not_found(kind, id));
        }
        match message {
            ServerMessage::Update(t) => Ok(Handled::Repaint(t)),
            ServerMessage::Value(..) | ServerMessage::ValueTake(..) | ServerMessage::Static(..)
            | ServerMessage::ValueVec(..) | ServerMessage::ValueMap(..) => Ok(Handled::Forward(message)),
            ServerMessage::Image(id, update, m, data) => self.handle_image(id, update, m, data, out),
            ServerMessage::Data(id, update, m) => self.handle_data(id, update, m, out),
            ServerMessage::DataTake(id, blocking, update, m) => self.handle_data_take(id, blocking, update, m, out),
            ServerMessage::DataMulti(id, update, m) => self.handle_multi_data(id, update, m, out),
            ServerMessage::DataMultiTake(id, update, m) => self.handle_data_multi_take(id, update, m, out),
        }
    }

    fn handle_image(
        &mut self,
        id: u64,
        update: bool,
        m: crate::image::ImageMessage,
        data: bytes::Bytes,
        out: &mut Vec<ChannelMessage>,
    ) -> (res: Result<Handled, String>)
        requires
            list_wf(old(self)@),
            old(self)@.images.contains_key(id),
        ensures
            list_wf(final(self)@),
            data_post(old(self)@, final(self)@, ServerMessage::Image(id, update, m, data), old(out)@, final(out)@, res),
    {
        let mut image = self.images.remove(&id).unwrap();
        let r = image.apply(m, bytes_as_slice(&data), out);
        self.images.insert(id, image);
        proof {
            assert(self@.images =~= old(self)@.images.insert(id, self@.images[id]));
            assert(self@.data == old(self)@.data);
            assert(self@.data_take == old(self)@.data_take);
            assert(self@.multi_data == old(self)@.multi_data);
            assert(self@.data_multi_take == old(self)@.data_multi_take);
        }
        match r {
            Ok(t) => Ok(Handled::Texture(id, t, update)),
            Err(e) => Err(e),
        }
    }

    fn handle_data(&mut self, id: u64, update: bool, m: crate::data::DataMessage, out: &mut Vec<ChannelMessage>) -> (res:
        Result<Handled, String>)
        requires
            list_wf(old(self)@),
            old(self)@.data.contains_key(id),
        ensures
            list_wf(final(self)@),
            data_post(old(self)@, final(self)@, ServerMessage::Data(id, update, m), old(out)@, final(out)@, res),
    {
        let mut d = self.data.remove(&id).unwrap();
        let r = d.update(m, out);
        self.data.insert(id, d);
        proof {
            assert(self@.data =~= old(self)@.data.insert(id, self@.data[id]));
            assert(self@.images == old(self)@.images);
            assert(self@.data_take == old(self)@.data_take);
            assert(self@.multi_data == old(self)@.multi_data);
            assert(self@.data_multi_take == old(self)@.data_multi_take);
        }
        match r {
            Ok(()) => Ok(Handled::Applied(update)),
            Err(e) => Err(e),
        }
    }

    fn handle_data_take(
        &mut self,
        id: u64,
        blocking: bool,
        update: bool,
        m: crate::data_take::DataTakeMessage,
        out: &mut Vec<ChannelMessage>,
    ) -> (res: Result<Handled, String>)
        requires
            list_wf(old(self)@),
            old(self)@.data_take.contains_key(id),
        ensures
            list_wf(final(self)@),
            data_post(old(self)@, final(self)@, ServerMessage::DataTake(id, blocking, update, m), old(out)@, final(out)@, res),
    {
        let mut d = self.data_take.remove(&id).unwrap();
        let r = d.update(m, blocking, out);
        self.data_take.insert(id, d);
        proof {
            assert(self@.data_take =~= old(self)@.data_take.insert(id, self@.data_take[id]));
            assert(self@.images == old(self)@.images);
            assert(self@.data == old(self)@.data);
            assert(self@.multi_data == old(self)@.multi_data);
            assert(self@.data_multi_take == old(self)@.data_multi_take);
        }
        match r {
            Ok(()) => Ok(Handled::Applied(update)),
            Err(e) => Err(e),
        }
    }

    fn handle_multi_data(&mut self, id: u64, update: bool, m: DataMultiMessage, out: &mut Vec<ChannelMessage>) -> (res:
        Result<Handled, String>)
        requires
            list_wf(old(self)@),
            old(self)@.multi_data.contains_key(id),
        ensures
            list_wf(final(self)@),
            data_post(old(self)@, final(self)@, ServerMessage::DataMulti(id, update, m), old(out)@, final(out)@, res),
    {
        let mut d = self.multi_data.remove(&id).unwrap();
        let r = match m {
            DataMultiMessage::Remove(key) => {
                d.remove(key);
                Ok(())
            },
            DataMultiMessage::Reset => {
                d.reset();
                Ok(())
            },
            DataMultiMessage::Modify(key, dm) => d.update(key, dm, out),
        };
        self.multi_data.insert(id, d);
        proof {
            assert(self@.multi_data =~= old(self)@.multi_data.insert(id, self@.multi_data[id]));
            assert(self@.images == old(self)@.images);
            assert(self@.data == old(self)@.data);
            assert(self@.data_take == old(self)@.data_take);
            assert(self@.data_multi_take == old(self)@.data_multi_take);
        }
        match r {
            Ok(()) => Ok(Handled::Applied(update)),
            Err(e) => Err(e),
        }
    }

    fn handle_data_multi_take(
        &mut self,
        id: u64,
        update: bool,
        m: DataMultiTakeMessage,
        out: &mut Vec<ChannelMessage>,
    ) -> (res: Result<Handled, String>)
        requires
            list_wf(old(self)@),
            old(self)@.data_multi_take.contains_key(id),
        ensures
            list_wf(final(self)@),
            data_post(old(self)@, final(self)@, ServerMessage::DataMultiTake(id, update, m), old(out)@, final(out)@, res),
    {
        let mut d = self.data_multi_take.remove(&id).unwrap();
        let r = match m {
            DataMultiTakeMessage::Remove(key) => {
                d.remove(key);
                Ok(())
            },
            DataMultiTakeMessage::Reset => {
                d.reset();
                Ok(())
            },
            DataMultiTakeMessage::Modify(key, dm, blocking) => d.update(key, dm, blocking, out),
        };
        self.data_multi_take.insert(id, d);
        proof {
            assert(self@.data_multi_take =~= old(self)@.data_multi_take.insert(id, self@.data_multi_take[id]));
            assert(self@.images == old(self)@.images);
            assert(self@.data == old(self)@.data);
            assert(self@.data_take == old(self)@.data_take);
            assert(self@.multi_data == old(self)@.multi_data);
        }
        match r {
            Ok(()) => Ok(Handled::Applied(update)),
            Err(e) => Err(e),
        }
    }
}

impl ValuesList {
    /// A copy of the elements' bytes of the data buffer `id`, if held.
    pub fn get_data(&self, id: u64) -> (res: Option<Vec<u8>>)
        ensures
            self@.data.contains_key(id) ==> res is Some && res->0@ == self@.data[id].state().inner,
            !self@.data.contains_key(id) ==> res is None,
    {
        match self.data.get(&id) {
            Some(d) => Some(d.get()),
            None => None,
        }
    }

    /// A copy of the elements' bytes under `key` of the keyed data collection
    /// `id`, if held.
    pub fn get_multi_data(&self, id: u64, key: u32) -> (res: Option<Vec<u8>>)
        ensures
            self@.multi_data.contains_key(id) && self@.multi_data[id].states().contains_key(key) ==> res is Some
                && res->0@ == self@.multi_data[id].states()[key].inner,
            !(self@.multi_data.contains_key(id) && self@.multi_data[id].states().contains_key(key)) ==> res is None,
    {
        match self.multi_data.get(&id) {
            Some(d) => d.get(key),
            None => None,
        }
    }

    /// Takes the bytes waiting in the one-shot buffer `id`; taking a value
    /// of a blocking transfer acknowledges it.
    pub fn take_data(&mut self, id: u64, out: &mut Vec<ChannelMessage>) -> (res: Option<Vec<u8>>)
        requires
            list_wf(old(self)@),
        ensures
            list_wf(final(self)@),
            !old(self)@.data_take.contains_key(id) ==> res is None && final(self)@ == old(self)@ && final(out)@
                == old(out)@,
            old(self)@.data_take.contains_key(id) ==> ({
                let d = old(self)@.data_take[id];
                &&& final(self)@ == (ListModel { data_take: old(self)@.data_take.insert(id, final(self)@.data_take[id]), ..old(self)@ })
                &&& final(self)@.data_take[id].state().stored is None
                &&& final(self)@.data_take[id].state().batch == d.state().batch
                &&& final(self)@.data_take[id].spec_data_type() == d.spec_data_type()
                &&& match d.state().stored {
                    Some((bytes, blocking)) => res is Some && res->0@ == bytes && final(out)@ == acked(
                        old(out)@,
                        blocking,
                        id,
                    ),
                    None => res is None && final(out)@ == old(out)@,
                }
            }),
    {
        match self.data_take.remove(&id) {
            Some(mut d) => {
                let r = d.take(out);
                self.data_take.insert(id, d);
                proof {
                    assert(self@.data_take =~= old(self)@.data_take.insert(id, self@.data_take[id]));
                    assert(self@.images == old(self)@.images);
                    assert(self@.data == old(self)@.data);
                    assert(self@.multi_data == old(self)@.multi_data);
                    assert(self@.data_multi_take == old(self)@.data_multi_take);
                }
                r
            },
            None => {
                proof {
                    assert(self@.data_take =~= old(self)@.data_take);
                }
                None
            },
        }
    }

    /// The texture size of the image `id`, if it is held and its texture exists.
    pub fn image_size(&self, id: u64) -> (res: Option<[usize; 2]>)
        ensures
            self@.images.contains_key(id) ==> res == self@.images[id].spec_texture_size(),
            !self@.images.contains_key(id) ==> res is None,
    {
        match self.images.get(&id) {
            Some(image) => image.get_size(),
            None => None,
        }
    }

    /// Records that the texture of the image `id` was created with this size,
    /// unless it already exists. Returns whether the image is held.
    pub fn initialize_image(&mut self, id: u64, size: [usize; 2]) -> (res: bool)
        requires
            list_wf(old(self)@),
        ensures
            list_wf(final(self)@),
            res == old(self)@.images.contains_key(id),
            !res ==> final(self)@ == old(self)@,
            res ==> ({
                let before = old(self)@.images[id];
                let after = final(self)@.images[id];
                &&& final(self)@ == (ListModel { images: old(self)@.images.insert(id, after), ..old(self)@ })
                &&& after.spec_buffer() == before.spec_buffer()
                &&& after.spec_texture_size() == match before.spec_texture_size() {
                    Some(s) => Some(s),
                    None => Some(size),
                }
            }),
    {
        match self.images.remove(&id) {
            Some(mut image) => {
                image.initialize(size);
                self.images.insert(id, image);
                proof {
                    assert(self@.images =~= old(self)@.images.insert(id, self@.images[id]));
                    assert(self@.data == old(self)@.data);
                    assert(self@.data_take == old(self)@.data_take);
                    assert(self@.multi_data == old(self)@.multi_data);
                    assert(self@.data_multi_take == old(self)@.data_multi_take);
                }
                true
            },
            None => {
                proof {
                    assert(self@.images =~= old(self)@.images);
                }
                false
            },
        }
    }
}

/// An image message is acknowledged exactly when it completes an image
/// change, whether or not the image is registered.
pub proof fn lemma_image_ack_regardless(
    before: ListModel,
    after: ListModel,
    id: u64,
    update: bool,
    m: crate::image::ImageMessage,
    data: bytes::Bytes,
    out_before: Seq<ChannelMessage>,
    out_after: Seq<ChannelMessage>,
    res: Result<Handled, String>,
)
    requires
        handle_post(before, after, ServerMessage::Image(id, update, m, data), out_before, out_after, res),
    ensures
        out_after == acked(out_before, m.spec_requires_ack(), id),
{
}

/// Handling a message touches no state but the one it is addressed to:
/// the registered ids stay the same, and every held state under another id
/// is left as it was.
pub proof fn lemma_other_states_untouched(
    before: ListModel,
    after: ListModel,
    message: ServerMessage,
    out_before: Seq<ChannelMessage>,
    out_after: Seq<ChannelMessage>,
    res: Result<Handled, String>,
    other: u64,
)
    requires
        handle_post(before, after, message, out_before, out_after, res),
        message_id(message) != Some(other),
    ensures
        after.values == before.values,
        after.static_values == before.static_values,
        after.values_take == before.values_take,
        after.vecs == before.vecs,
        after.maps == before.maps,
        after.images.dom() == before.images.dom(),
        after.data.dom() == before.data.dom(),
        after.data_take.dom() == before.data_take.dom(),
        after.multi_data.dom() == before.multi_data.dom(),
        after.data_multi_take.dom() == before.data_multi_take.dom(),
        after.images[other] == before.images[other],
        after.data[other] == before.data[other],
        after.data_take[other] == before.data_take[other],
        after.multi_data[other] == before.multi_data[other],
        after.data_multi_take[other] == before.data_multi_take[other],
{
    if !(message is Update) && is_registered(before, message) && !is_value_message(message) {
        match message {
            ServerMessage::Image(id, ..) => {
                assert(after.images.dom() =~= before.images.dom());
            },
            ServerMessage::Data(id, ..) => {
                assert(after.data.dom() =~= before.data.dom());
            },
            ServerMessage::DataTake(id, ..) => {
                assert(after.data_take.dom() =~= before.data_take.dom());
            },
            ServerMessage::DataMulti(id, ..) => {
                assert(after.multi_data.dom() =~= before.multi_data.dom());
            },
            ServerMessage::DataMultiTake(id, ..) => {
                assert(after.data_multi_take.dom() =~= before.data_multi_take.dom());
            },
            _ => {},
        }
    }
}

} // verus!
