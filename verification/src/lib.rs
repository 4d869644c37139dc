//! A CoAP-mediated registry that brokers traffic between a voice-assistant
//! host and a dynamic set of skills: skill attach/detach, intent metadata,
//! activation probes, and correlation of asynchronous skill replies back to
//! the originating host request.
use vstd::prelude::*;

mod alloc_id;
pub mod capability;
pub mod codec;
pub mod codec_out;
pub mod directory;
pub mod framework;
pub mod laws;
pub mod load;
pub mod msgpack;
pub mod registry;
pub mod routes;
pub mod pending;
pub mod status;
pub mod structures;
pub mod value_codec;
pub mod vars;

pub use alloc_id::IdAllocator;

verus! {

} // verus!
