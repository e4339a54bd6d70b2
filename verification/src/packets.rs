use vstd::prelude::*;

use crate::types::{NodeNum, PacketId};

verus! {

/// Port discriminant of the node-discovery payload: only packets carrying it
/// may overwrite a node's channel.
pub const NODEINFO_APP_PORT: u32 = 4;

/// The decoded application payload; the router and directory read only its port.
#[derive(Clone, Copy, PartialEq, Eq, Structural, Debug)]
pub struct Data {
    pub portnum: u32,
}

/// A packet's payload is either decoded and structured, or an opaque encrypted blob.
#[derive(Clone, Debug)]
pub enum PayloadVariant {
    Decoded(Data),
    Encrypted(Vec<u8>),
}

/// The bit pattern of the float −0.0. The wire sentinel for "no signal
/// reading" is the float zero, and IEEE makes −0.0 equal to 0.0, so both
/// zero bit patterns count as absent.
pub const SNR_NEGATIVE_ZERO_BITS: u32 = 0x8000_0000;

/// Whether an `rx_snr` bit pattern is the "no reading" sentinel: either
/// float zero, +0.0 or −0.0.
pub open spec fn snr_absent(bits: u32) -> bool {
    bits == 0 || bits == SNR_NEGATIVE_ZERO_BITS
}

/// An over-the-air packet as this core consumes it. A `from` of 0 means the
/// sender is absent or invalid; `rx_time` 0 means "no reading". `rx_snr`
/// carries the raw bit pattern of the radio's signal reading, with both bit
/// patterns of the float zero meaning "no reading".
#[derive(Clone, Debug)]
pub struct MeshPacket {
    pub from: NodeNum,
    pub id: PacketId,
    pub rx_time: u32,
    pub rx_snr: u32,
    pub channel: u32,
    pub payload_variant: Option<PayloadVariant>,
}

impl Default for MeshPacket {
    /// An all-absent packet: every field zero and no payload.
    fn default() -> (r: Self)
        ensures
            r.from == 0,
            r.id == 0,
            r.rx_time == 0,
            r.rx_snr == 0,
            r.channel == 0,
            r.payload_variant is None,
    {
        MeshPacket {
            from: 0,
            id: 0,
            rx_time: 0,
            rx_snr: 0,
            channel: 0,
            payload_variant: None,
        }
    }
}

/// A node's locally known state: the fields of the last packets heard from it.
#[derive(Clone, Copy, PartialEq, Eq, Structural, Debug)]
pub struct NodeInfoLite {
    pub num: NodeNum,
    pub last_heard: u32,
    pub snr: u32,
    pub channel: u32,
}

/// The local node's own identity, generated once at startup and not persisted.
#[derive(Clone, Copy, PartialEq, Eq, Structural, Debug)]
pub struct MyNodeInfo {
    pub my_node_num: NodeNum,
}

} // verus!
