use vstd::prelude::*;

use crate::errors::TransportError;
use crate::packets::MeshPacket;

verus! {

/// The radio transport the router relays through: initialized once at
/// startup, then handed packets to emit. Implementations are outside
/// collaborators, so nothing is promised of their outcomes; callers state
/// what holds for every outcome instead.
pub trait RadioInterface {
    fn init(&mut self) -> Result<(), TransportError>;

    fn send(&mut self, packet: &MeshPacket) -> Result<(), TransportError>;
}

/// A test double that records which capabilities were exercised and always
/// succeeds.
#[derive(Debug)]
pub struct MockRadioInterface {
    pub init_called: bool,
    pub send_called: bool,
}

impl Default for MockRadioInterface {
    /// A mock with no calls recorded yet.
    fn default() -> (mock: Self)
        ensures
            !mock.init_called,
            !mock.send_called,
    {
        MockRadioInterface { init_called: false, send_called: false }
    }
}

impl RadioInterface for MockRadioInterface {
    /// Always succeeds and records that initialization was requested.
    fn init(&mut self) -> (r: Result<(), TransportError>)
        ensures
            r is Ok,
            final(self).init_called,
            final(self).send_called == old(self).send_called,
    {
        self.init_called = true;
        Ok(())
    }

    /// Always succeeds, ignores the packet, and records that a send happened.
    fn send(&mut self, _packet: &MeshPacket) -> (r: Result<(), TransportError>)
        ensures
            r is Ok,
            final(self).send_called,
            final(self).init_called == old(self).init_called,
    {
        self.send_called = true;
        Ok(())
    }
}

} // verus!
