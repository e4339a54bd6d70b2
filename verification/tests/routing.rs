use mesh_core::clock::get_current_time;
use mesh_core::errors::{MeshError, TransportError};
use mesh_core::node_db::NodeDB;
use mesh_core::packet_history::{PacketHistory, PacketHistoryStore};
use mesh_core::packets::{Data, MeshPacket, PayloadVariant, NODEINFO_APP_PORT};
use mesh_core::radio_interface::{MockRadioInterface, RadioInterface};
use mesh_core::router::{FloodingRouter, PacketRouter};

struct FailingRadioInterface {
    send_attempts: u32,
}

impl RadioInterface for FailingRadioInterface {
    fn init(&mut self) -> Result<(), TransportError> {
        Err(TransportError { code: 1 })
    }

    fn send(&mut self, _packet: &MeshPacket) -> Result<(), TransportError> {
        self.send_attempts += 1;
        Err(TransportError { code: 7 })
    }
}

fn nodeinfo_packet(from: u32, id: u32) -> MeshPacket {
    MeshPacket {
        from,
        id,
        payload_variant: Some(PayloadVariant::Decoded(Data { portnum: NODEINFO_APP_PORT })),
        ..Default::default()
    }
}

#[test]
fn calls_send_on_interface() {
    let mock_interface = MockRadioInterface::default();
    let mut router = FloodingRouter::new(mock_interface);

    let packet = MeshPacket::default();
    router.send(&packet).unwrap();

    assert!(router.radio_interface.send_called);
}

#[test]
fn mock_records_init() {
    let mut mock_interface = MockRadioInterface::default();
    assert!(!mock_interface.init_called);
    mock_interface.init().unwrap();
    assert!(mock_interface.init_called);
}

#[test]
fn novel_packet_is_relayed_and_recorded() {
    let mut router = FloodingRouter::new(MockRadioInterface::default());
    let mut history = PacketHistoryStore::new(100, 300_000);
    let mut node_db = NodeDB::new();

    let packet = nodeinfo_packet(1, 10);
    let result = router.handle_inbound(&mut history, &mut node_db, &packet, 50);

    assert!(result.is_ok());
    assert!(router.radio_interface.send_called);
    assert!(history.query_was_seen_recently(&packet));
    assert_eq!(node_db.len(), 1);
}

#[test]
fn duplicate_is_suppressed_without_relay() {
    let mut router = FloodingRouter::new(MockRadioInterface::default());
    let mut history = PacketHistoryStore::new(100, 300_000);
    let mut node_db = NodeDB::new();

    let packet = nodeinfo_packet(1, 10);
    router.handle_inbound(&mut history, &mut node_db, &packet, 50).unwrap();

    // A second arrival of the same (sender, id) succeeds at once, without
    // touching the radio or the directory again.
    let mut second_router = FloodingRouter::new(MockRadioInterface::default());
    let result = second_router.handle_inbound(&mut history, &mut node_db, &packet, 60);

    assert!(result.is_ok());
    assert!(!second_router.radio_interface.send_called);
    assert_eq!(history.len(), 1);
    assert_eq!(node_db.len(), 1);
}

#[test]
fn transport_failure_is_propagated_and_not_recorded() {
    let mut router = FloodingRouter::new(FailingRadioInterface { send_attempts: 0 });
    let mut history = PacketHistoryStore::new(100, 300_000);
    let mut node_db = NodeDB::new();

    let packet = nodeinfo_packet(1, 10);
    let result = router.handle_inbound(&mut history, &mut node_db, &packet, 50);

    assert!(matches!(result, Err(MeshError::TransportFailure(TransportError { code: 7 }))));
    assert_eq!(router.radio_interface.send_attempts, 1);
    // Not recorded as seen: an upstream retry is not taken for a duplicate.
    assert!(!history.query_was_seen_recently(&packet));

    // The directory was still updated before the send was attempted.
    assert_eq!(node_db.len(), 1);

    // Retrying over a working radio relays and records the packet.
    let mut retry_router = FloodingRouter::new(MockRadioInterface::default());
    let retry = retry_router.handle_inbound(&mut history, &mut node_db, &packet, 60);
    assert!(retry.is_ok());
    assert!(retry_router.radio_interface.send_called);
    assert!(history.query_was_seen_recently(&packet));
}

#[test]
fn merge_failure_reported_but_still_relayed() {
    let mut router = FloodingRouter::new(MockRadioInterface::default());
    let mut history = PacketHistoryStore::new(100, 300_000);
    let mut node_db = NodeDB::new();

    // An encrypted payload cannot be merged, but routing must still work.
    let packet = MeshPacket {
        from: 1,
        id: 10,
        payload_variant: Some(PayloadVariant::Encrypted(vec![9, 9])),
        ..Default::default()
    };
    let result = router.handle_inbound(&mut history, &mut node_db, &packet, 50);

    assert!(matches!(result, Err(MeshError::UnsupportedPayload)));
    assert!(router.radio_interface.send_called);
    assert!(history.query_was_seen_recently(&packet));
    assert_eq!(node_db.len(), 0);
}

#[test]
fn router_send_wraps_transport_report() {
    let mut router = FloodingRouter::new(FailingRadioInterface { send_attempts: 0 });

    let result = router.send(&MeshPacket::default());

    assert!(matches!(result, Err(MeshError::TransportFailure(TransportError { code: 7 }))));
}

#[test]
fn clock_reports_a_present_day_time() {
    // Milliseconds since the epoch: any plausible reading is far from zero.
    assert!(get_current_time() > 0);
}
