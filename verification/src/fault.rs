//! The failure taxonomy of the relay, and which failures may stop the
//! whole process.

use vstd::prelude::*;

verus! {

/// Everything that can go wrong around the relay core. All failures but
/// the loss of the listening socket are confined to one connection.
#[derive(Clone, Copy, PartialEq, Eq, Structural, Debug)]
pub enum Fault {
    /// No live connection is registered under the addressed identifier.
    RoutingMiss,
    /// A new link failed the application handshake before registration.
    HandshakeFailure,
    /// An established link failed; its connection is torn down.
    TransportFailure,
    /// The listening socket could not be acquired at startup.
    BindFailure,
}

impl Fault {
    /// Only a startup-time bind failure may take the process down.
    pub open spec fn is_fatal_spec(self) -> bool {
        self == Fault::BindFailure
    }

    pub fn is_fatal(&self) -> (b: bool)
        ensures
            b == self.is_fatal_spec(),
    {
        matches!(self, Fault::BindFailure)
    }
}

} // verus!
