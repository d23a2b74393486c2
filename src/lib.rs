//! The connection registry of a line-oriented TCP broadcast relay, and the
//! decisions its listener, readers and broadcaster make around it.

mod lifecycle;
mod message;
mod reader;
mod registry;

pub use lifecycle::{
    assigned_ids, lemma_closed_stays_out, lemma_fanout_once_each, lemma_ids_in_accept_order,
    lemma_read_touches_own_entry, lemma_registered_until_removed, replay, Event,
};
pub use message::{broadcast_line, listen_address, BROADCAST_MARKER, DEFAULT_PORT, LISTEN_HOST};
pub use reader::{read_continues, read_effect, reader_step, ReaderStep};
pub use registry::{ConnectionRegistry, RegistryModel};
