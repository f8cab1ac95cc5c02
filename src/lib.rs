//! Peer-to-peer directory synchronisation: the peer registry, the file
//! state map, their wire encoding and the decisions of the change pipeline
//! and of the transfer service.

mod text;
pub mod outside;
pub mod registry;
pub mod file_state;
pub mod error;
pub mod serialization;
pub mod sync;

pub use error::SyncError;
pub use file_state::FileStateMap;
pub use registry::PeerRegistry;
pub use serialization::{
    deserialize_file_timestamps, deserialize_other_nodes, serialize_file_timestamps,
    serialize_other_nodes,
};
pub use sync::{
    answer_greeting, greet_url, handle_file_change, peer_address, publish_targets,
    record_greet_reply, request_target, resolve_change,
};
