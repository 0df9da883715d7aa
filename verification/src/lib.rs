//! A signaling relay core: a connection registry and event router that let
//! pairs of clients exchange typed negotiation messages addressed by
//! short-lived session identifiers.

pub mod channel;
pub mod fault;
pub mod message;
pub mod registry;
pub mod routing;
