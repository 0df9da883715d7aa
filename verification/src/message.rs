//! Typed signaling messages and session identifiers.

use vstd::prelude::*;

verus! {

/// An opaque, server-generated token that names one live connection.
/// Unique among the currently connected clients; free for reuse after
/// its connection goes away.
#[derive(Clone, Copy, PartialEq, Eq, Structural, Debug, Hash)]
pub struct SessionId {
    pub raw: u64,
}

/// The four kinds of signaling message a client may send: connection
/// offers, answers, network-path candidates, and watch requests.
#[derive(Clone, Copy, PartialEq, Eq, Structural, Debug)]
pub enum MessageKind {
    Offer,
    Answer,
    Candidate,
    Watcher,
}

/// Payloads pass through the router as opaque structured data; the relay
/// never reads inside them. Relies on serde_json::Value only as a carrier.
#[verifier::external_type_specification]
#[verifier::external_body]
pub struct ExValue(serde_json::Value);

/// One typed signaling message: a kind, the addressee, the sender as the
/// sender names itself, and an opaque payload that is forwarded verbatim.
pub struct Message {
    pub kind: MessageKind,
    pub to_id: SessionId,
    pub from_id: SessionId,
    pub payload: serde_json::Value,
}

impl MessageKind {
    /// The event name this kind travels under on the wire.
    pub open spec fn event_name_spec(self) -> Seq<char> {
        match self {
            MessageKind::Offer => "offer"@,
            MessageKind::Answer => "answer"@,
            MessageKind::Candidate => "candidate"@,
            MessageKind::Watcher => "watcher"@,
        }
    }

    /// The kind-specific payload field on the wire; a watch request
    /// carries no payload field.
    pub open spec fn payload_field_spec(self) -> Option<Seq<char>> {
        match self {
            MessageKind::Offer => Some("offer"@),
            MessageKind::Answer => Some("answer"@),
            MessageKind::Candidate => Some("cnd"@),
            MessageKind::Watcher => None,
        }
    }

    pub fn event_name(&self) -> (r: &'static str)
        ensures
            r@ == self.event_name_spec(),
    {
        match self {
            MessageKind::Offer => "offer",
            MessageKind::Answer => "answer",
            MessageKind::Candidate => "candidate",
            MessageKind::Watcher => "watcher",
        }
    }

    pub fn payload_field(&self) -> (r: Option<&'static str>)
        ensures
            r is Some <==> self.payload_field_spec() is Some,
            r matches Some(s) ==> self.payload_field_spec() matches Some(f) && s@ == f,
    {
        match self {
            MessageKind::Offer => Some("offer"),
            MessageKind::Answer => Some("answer"),
            MessageKind::Candidate => Some("cnd"),
            MessageKind::Watcher => None,
        }
    }
}

} // verus!
