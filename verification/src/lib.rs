use vstd::prelude::*;

pub mod channel;
pub mod catalog;
pub mod codegen;
pub mod data;
pub mod dict_order;
pub mod data_take;
pub mod data_transport;
pub mod graphs;
pub mod image;
pub mod messages;
pub mod server_collections;
pub mod server_graphs;
pub mod server_image;
pub mod server_states;
pub mod server_values;
pub mod signals;
pub mod socket_reader;
pub mod render_python;
pub mod render_rust;
pub mod render_values;
pub mod text;
pub mod values_list;
pub mod values;
pub mod widgets;

verus! {
} // verus!
