use vstd::prelude::*;

use crate::registry::RegistryModel;

verus! {

/// What a connection's reader does after one line read.
#[derive(Clone, Copy, Debug, PartialEq, Eq, Structural)]
pub enum ReaderStep {
    /// A line came in: it is consumed, and the reader reads on.
    KeepReading,
    /// The peer closed the connection or the read failed: the reader removes
    /// its connection from the registry and stops.
    Deregister,
}

/// Whether a read that returned `bytes_read` bytes (`None`: the read failed)
/// lets the reader go on. End of stream reads zero bytes.
pub open spec fn read_continues(bytes_read: Option<usize>) -> bool {
    match bytes_read {
        Some(n) => n > 0,
        None => false,
    }
}

/// The registry after the reader of connection `id` has acted on a read that
/// returned `bytes_read`.
pub open spec fn read_effect<H>(m: RegistryModel<H>, id: nat, bytes_read: Option<usize>) -> RegistryModel<H> {
    if read_continues(bytes_read) {
        m
    } else {
        m.closed(id)
    }
}

/// Decides the reader's next step from the outcome of one line read: the
/// number of bytes read, or `None` where the read failed. A failed read ends
/// the reader exactly as end of stream does.
pub fn reader_step(bytes_read: Option<usize>) -> (r: ReaderStep)
    ensures
        r == (if read_continues(bytes_read) {
            ReaderStep::KeepReading
        } else {
            ReaderStep::Deregister
        }),
{
    match bytes_read {
        Some(n) => {
            if n > 0 {
                ReaderStep::KeepReading
            } else {
                ReaderStep::Deregister
            }
        },
        None => ReaderStep::Deregister,
    }
}

} // verus!
