use signal_relay::channel::{Channel, ChannelState, PeerCreds, SendError};
use signal_relay::fault::Fault;
use signal_relay::message::{Message, MessageKind, SessionId};
use signal_relay::registry::Registry;
use signal_relay::routing::{fault_of, route, RouteOutcome};

fn creds(pid: i64) -> PeerCreds {
    PeerCreds { uid: 1000, gid: 1000, pid }
}

fn open_channel(pid: i64) -> Channel {
    let mut ch = Channel::new(creds(pid));
    ch.complete_handshake();
    ch
}

fn msg(kind: MessageKind, to: SessionId, from: SessionId, payload: &str) -> Message {
    Message {
        kind,
        to_id: to,
        from_id: from,
        payload: serde_json::Value::String(payload.to_string()),
    }
}

#[test]
fn register_assigns_distinct_live_ids() {
    let mut reg = Registry::new();
    assert!(reg.can_assign());
    let a = reg.register(open_channel(1));
    let b = reg.register(open_channel(2));
    let c = reg.register(open_channel(3));
    assert_ne!(a, b);
    assert_ne!(a, c);
    assert_ne!(b, c);
    assert!(reg.lookup(a).is_some());
    assert!(reg.lookup(b).is_some());
    assert!(reg.lookup(c).is_some());
}

#[test]
fn id_of_a_gone_connection_is_never_live_twice() {
    let mut reg = Registry::new();
    let a = reg.register(open_channel(1));
    reg.deregister(a);
    let b = reg.register(open_channel(2));
    let c = reg.register(open_channel(3));
    assert_ne!(b, a);
    assert_ne!(c, a);
}

#[test]
fn lookup_after_deregister_stays_not_found() {
    let mut reg = Registry::new();
    let a = reg.register(open_channel(1));
    let b = reg.register(open_channel(2));
    let removed = reg.deregister(a);
    assert!(removed.is_some());
    assert!(reg.lookup(a).is_none());
    assert!(reg.contains(b));
    let removed_again = reg.deregister(a);
    assert!(removed_again.is_none());
    assert!(reg.lookup(a).is_none());
    assert!(reg.contains(b));
}

#[test]
fn route_delivers_kind_and_payload_verbatim() {
    let mut reg = Registry::new();
    let sender = reg.register(open_channel(1));
    let target = reg.register(open_channel(2));
    let m = msg(MessageKind::Answer, target, sender, "answer-sdp");
    let outcome = route(&mut reg, m);
    assert_eq!(outcome, RouteOutcome::Delivered);
    let ch = reg.lookup(target).unwrap();
    assert_eq!(ch.outbox_len(), 1);
    let got = ch.outbox_at(0);
    assert_eq!(got.kind, MessageKind::Answer);
    assert_eq!(got.to_id, target);
    assert_eq!(got.from_id, sender);
    assert!(got.payload == serde_json::Value::String("answer-sdp".to_string()));
    let sender_ch = reg.lookup(sender).unwrap();
    assert_eq!(sender_ch.outbox_len(), 0);
}

#[test]
fn routing_miss_terminates_no_connection() {
    let mut reg = Registry::new();
    let a = reg.register(open_channel(1));
    let b = reg.register(open_channel(2));
    let ghost_id = SessionId { raw: 7777 };
    let outcome = route(&mut reg, msg(MessageKind::Watcher, ghost_id, a, ""));
    assert_eq!(outcome, RouteOutcome::RoutingMiss);
    let fault = fault_of(outcome).unwrap();
    assert_eq!(fault, Fault::RoutingMiss);
    assert!(!fault.is_fatal());
    assert_eq!(fault_of(RouteOutcome::Delivered), None);
    let a_ch = reg.lookup(a).unwrap();
    assert_eq!(a_ch.state(), ChannelState::Open);
    assert_eq!(a_ch.outbox_len(), 0);
    let b_ch = reg.lookup(b).unwrap();
    assert_eq!(b_ch.state(), ChannelState::Open);
    assert_eq!(b_ch.outbox_len(), 0);
}

#[test]
fn per_sender_fifo_order_is_kept() {
    let mut reg = Registry::new();
    let sender = reg.register(open_channel(1));
    let target = reg.register(open_channel(2));
    let m1 = msg(MessageKind::Offer, target, sender, "first");
    let m2 = msg(MessageKind::Candidate, target, sender, "second");
    assert_eq!(route(&mut reg, m1), RouteOutcome::Delivered);
    assert_eq!(route(&mut reg, m2), RouteOutcome::Delivered);
    let ch = reg.lookup(target).unwrap();
    assert_eq!(ch.outbox_len(), 2);
    assert_eq!(ch.outbox_at(0).kind, MessageKind::Offer);
    assert!(ch.outbox_at(0).payload == serde_json::Value::String("first".to_string()));
    assert_eq!(ch.outbox_at(1).kind, MessageKind::Candidate);
    assert!(ch.outbox_at(1).payload == serde_json::Value::String("second".to_string()));
}

#[test]
fn offer_then_miss_scenario() {
    let mut reg = Registry::new();
    let a = reg.register(open_channel(1));
    let b = reg.register(open_channel(2));

    let offer = msg(MessageKind::Offer, b, a, "sdp-offer-from-a");
    assert_eq!(route(&mut reg, offer), RouteOutcome::Delivered);
    let b_ch = reg.lookup(b).unwrap();
    assert_eq!(b_ch.outbox_len(), 1);
    let got = b_ch.outbox_at(0);
    assert_eq!(got.kind, MessageKind::Offer);
    assert_eq!(got.to_id, b);
    assert_eq!(got.from_id, a);
    assert!(got.payload == serde_json::Value::String("sdp-offer-from-a".to_string()));

    let closed = reg.disconnect(b).unwrap();
    assert_eq!(closed.state(), ChannelState::Closed);

    let cnd = msg(MessageKind::Candidate, b, a, "cnd-from-a");
    assert_eq!(route(&mut reg, cnd), RouteOutcome::RoutingMiss);
    let a_ch = reg.lookup(a).unwrap();
    assert_eq!(a_ch.state(), ChannelState::Open);
}

#[test]
fn channel_lifecycle_gates_sends() {
    let sender = SessionId { raw: 5 };
    let target = SessionId { raw: 6 };
    let mut ch = Channel::new(creds(9));
    assert_eq!(ch.state(), ChannelState::Connecting);
    assert_eq!(
        ch.send(msg(MessageKind::Watcher, target, sender, "")),
        Err(SendError::NotOpen)
    );
    ch.complete_handshake();
    assert_eq!(ch.state(), ChannelState::Open);
    assert!(ch.send(msg(MessageKind::Watcher, target, sender, "")).is_ok());
    assert_eq!(ch.outbox_len(), 1);
    ch.close();
    assert_eq!(ch.state(), ChannelState::Closed);
    assert_eq!(
        ch.send(msg(MessageKind::Watcher, target, sender, "")),
        Err(SendError::NotOpen)
    );
    assert_eq!(ch.outbox_len(), 1);
    assert_eq!(ch.peer(), creds(9));
}

#[test]
fn disconnect_keeps_queued_messages() {
    let mut reg = Registry::new();
    let a = reg.register(open_channel(1));
    let b = reg.register(open_channel(2));
    assert_eq!(
        route(&mut reg, msg(MessageKind::Offer, b, a, "kept")),
        RouteOutcome::Delivered
    );
    let mut closed = reg.disconnect(b).unwrap();
    assert_eq!(closed.state(), ChannelState::Closed);
    assert_eq!(closed.outbox_len(), 1);
    let leftover = closed.take_outbox();
    assert_eq!(leftover.len(), 1);
    assert_eq!(leftover[0].kind, MessageKind::Offer);
    assert!(reg.lookup(b).is_none());
}

#[test]
fn drain_outbox_hands_messages_out_in_order() {
    let mut reg = Registry::new();
    let a = reg.register(open_channel(1));
    let b = reg.register(open_channel(2));
    route(&mut reg, msg(MessageKind::Offer, b, a, "one"));
    route(&mut reg, msg(MessageKind::Answer, b, a, "two"));
    let drained = reg.drain_outbox(b).unwrap();
    assert_eq!(drained.len(), 2);
    assert_eq!(drained[0].kind, MessageKind::Offer);
    assert_eq!(drained[1].kind, MessageKind::Answer);
    let again = reg.drain_outbox(b).unwrap();
    assert_eq!(again.len(), 0);
    assert!(reg.drain_outbox(SessionId { raw: 4242 }).is_none());
}

#[test]
fn wire_names_match_the_protocol() {
    assert_eq!(MessageKind::Offer.event_name(), "offer");
    assert_eq!(MessageKind::Answer.event_name(), "answer");
    assert_eq!(MessageKind::Candidate.event_name(), "candidate");
    assert_eq!(MessageKind::Watcher.event_name(), "watcher");
    assert_eq!(MessageKind::Offer.payload_field(), Some("offer"));
    assert_eq!(MessageKind::Answer.payload_field(), Some("answer"));
    assert_eq!(MessageKind::Candidate.payload_field(), Some("cnd"));
    assert_eq!(MessageKind::Watcher.payload_field(), None);
}

#[test]
fn only_bind_failure_is_fatal() {
    assert!(!Fault::RoutingMiss.is_fatal());
    assert!(!Fault::HandshakeFailure.is_fatal());
    assert!(!Fault::TransportFailure.is_fatal());
    assert!(Fault::BindFailure.is_fatal());
}

#[test]
fn structured_payload_passes_through_unread() {
    let mut reg = Registry::new();
    let a = reg.register(open_channel(1));
    let b = reg.register(open_channel(2));
    let payload: serde_json::Value =
        serde_json::from_str("{\"sdp\":\"v=0 o=- 46117\",\"type\":\"offer\"}").unwrap();
    let m = Message { kind: MessageKind::Offer, to_id: b, from_id: a, payload: payload.clone() };
    assert_eq!(route(&mut reg, m), RouteOutcome::Delivered);
    let got = reg.lookup(b).unwrap().outbox_at(0).payload.clone();
    assert!(got == payload);
    assert_eq!(got["sdp"], serde_json::Value::String("v=0 o=- 46117".to_string()));
}
