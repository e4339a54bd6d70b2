use vstd::prelude::*;

use crate::errors::MeshError;
use crate::node_db::{decoded_data, merge_verdict, merged_entries, NodeDB};
use crate::packet_history::{contains_packet_key, record_step, PacketHistory, PacketHistoryStore};
use crate::packets::MeshPacket;
use crate::radio_interface::RadioInterface;
use crate::types::CurrentTime;

verus! {

/// A router decides, per packet, whether to hand it to the radio. A bare
/// `send` reports failures of transport kind only.
pub trait PacketRouter<R: RadioInterface>: Sized {
    fn new(radio_interface: R) -> Self;

    fn send(&mut self, packet: &MeshPacket) -> (result: Result<(), MeshError>)
        ensures
            result is Ok || (result matches Err(MeshError::TransportFailure(_))),
    ;
}

/// The flooding router: relays every novel packet back onto the medium and
/// suppresses duplicates through the packet ledger.
pub struct FloodingRouter<R: RadioInterface> {
    pub radio_interface: R,
}

impl<R: RadioInterface> PacketRouter<R> for FloodingRouter<R> {
    /// Wraps the given transport; the router owns it from here on.
    fn new(radio_interface: R) -> (router: Self)
        ensures
            router.radio_interface == radio_interface,
    {
        FloodingRouter { radio_interface }
    }

    /// Relays the packet, wrapping whatever the transport reported.
    fn send(&mut self, packet: &MeshPacket) -> (result: Result<(), MeshError>) {
        match self.radio_interface.send(packet) {
            Ok(()) => Ok(()),
            Err(e) => Err(MeshError::TransportFailure(e)),
        }
    }
}

impl<R: RadioInterface> FloodingRouter<R> {
    /// The single decision point for an inbound packet. A packet already in
    /// the ledger is suppressed at once — success, nothing relayed, nothing
    /// changed. A novel packet is merged into the directory (a merge failure
    /// is reported but does not prevent relaying), then handed to the radio;
    /// only after a successful send is it recorded as seen, so a failed send
    /// can be retried without being taken for a duplicate.
    pub fn handle_inbound(
        &mut self,
        history: &mut PacketHistoryStore,
        node_db: &mut NodeDB,
        packet: &MeshPacket,
        now: CurrentTime,
    ) -> (result: Result<(), MeshError>)
        requires
            old(history).history_wf(),
            old(node_db).wf(),
        ensures
            final(history).history_wf(),
            final(node_db).wf(),
            final(history).history_capacity() == old(history).history_capacity(),
            final(history).suppression_window() == old(history).suppression_window(),
            final(node_db).capacity() == old(node_db).capacity(),
            final(node_db).my_node_num() == old(node_db).my_node_num(),
            contains_packet_key(old(history).history(), packet.from, packet.id) ==> result is Ok
                && final(history).history() == old(history).history() && final(node_db).entries()
                == old(node_db).entries(),
            !contains_packet_key(old(history).history(), packet.from, packet.id) ==> ({
                let verdict = merge_verdict(*packet);
                let recorded = record_step(
                    old(history).history(),
                    packet.from,
                    packet.id,
                    now,
                    old(history).history_capacity(),
                    old(history).suppression_window(),
                );
                &&& verdict is Ok ==> final(node_db).entries() == merged_entries(
                    old(node_db).entries(),
                    *packet,
                    decoded_data(*packet)->Some_0,
                    old(node_db).capacity(),
                )
                &&& verdict is Err ==> final(node_db).entries() == old(node_db).entries()
                &&& match result {
                    Err(MeshError::TransportFailure(_)) => final(history).history() == old(
                        history,
                    ).history(),
                    _ => result == verdict && final(history).history() == recorded,
                }
            }),
    {
        if history.query_was_seen_recently(packet) {
            return Ok(());
        }
        let merge_result = node_db.update_node_from_mesh_packet(packet);
        match self.radio_interface.send(packet) {
            Err(e) => Err(MeshError::TransportFailure(e)),
            Ok(()) => {
                history.record_seen_recently(packet, now);
                merge_result
            },
        }
    }
}

} // verus!
