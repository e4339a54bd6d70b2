use vstd::prelude::*;

verus! {

/// Identifier of a node on the mesh; the value 0 marks an absent or invalid sender.
pub type NodeNum = u32;

/// Sender-scoped packet identifier; the same id may recur under different senders.
pub type PacketId = u32;

/// A timestamp comparable by subtraction, in milliseconds.
pub type CurrentTime = u64;

} // verus!
