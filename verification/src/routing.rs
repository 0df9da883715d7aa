//! The event router: hand each inbound typed message to the connection its
//! `to_id` names, verbatim, and treat an unknown addressee as a recoverable
//! routing miss rather than a failure of anything else.

use vstd::prelude::*;

use crate::channel::ChannelSpec;
use crate::fault::Fault;
use crate::message::{Message, SessionId};
use crate::registry::Registry;

verus! {

broadcast use vstd::map::group_map_axioms, vstd::set::group_set_axioms;

/// What routing one message came to.
#[derive(Clone, Copy, PartialEq, Eq, Structural, Debug)]
pub enum RouteOutcome {
    /// The addressee was registered; the message sits at the end of its queue.
    Delivered,
    /// No connection is registered under the addressee; the message was
    /// dropped and everything else left alone.
    RoutingMiss,
}

/// What routing a message does to the registry's map: append the message,
/// unchanged, to the addressed channel's queue if the addressee is live;
/// change nothing otherwise.
pub open spec fn route_effect(
    v: Map<SessionId, ChannelSpec>,
    m: Message,
) -> Map<SessionId, ChannelSpec> {
    if v.dom().contains(m.to_id) {
        v.insert(
            m.to_id,
            (ChannelSpec {
                state: v[m.to_id].state,
                outbox: v[m.to_id].outbox.push(m),
                peer: v[m.to_id].peer,
            }),
        )
    } else {
        v
    }
}

/// Deliver one typed message to the connection its `to_id` names. A miss
/// never touches the sender's connection, any other connection, or the
/// registry at all.
pub fn route(reg: &mut Registry, m: Message) -> (r: RouteOutcome)
    requires
        old(reg).wf(),
    ensures
        final(reg).wf(),
        final(reg)@ == route_effect(old(reg)@, m),
        r == RouteOutcome::Delivered <==> old(reg)@.dom().contains(m.to_id),
        r == RouteOutcome::RoutingMiss <==> !old(reg)@.dom().contains(m.to_id),
        final(reg)@.dom() == old(reg)@.dom(),
        forall|k: SessionId| #![auto]
            k != m.to_id && old(reg)@.dom().contains(k) ==> final(reg)@[k] == old(reg)@[k],
        old(reg)@.dom().contains(m.to_id)
            ==> final(reg)@[m.to_id].outbox == old(reg)@[m.to_id].outbox.push(m)
                && final(reg)@[m.to_id].state == old(reg)@[m.to_id].state
                && final(reg)@[m.to_id].peer == old(reg)@[m.to_id].peer,
        final(reg).has_fresh_ids() == old(reg).has_fresh_ids(),
{
    let to = m.to_id;
    let delivered = reg.send_to(to, m);
    proof {
        if old(reg)@.dom().contains(to) {
            assert(final(reg)@.dom() =~= old(reg)@.dom());
        }
    }
    if delivered {
        RouteOutcome::Delivered
    } else {
        RouteOutcome::RoutingMiss
    }
}

/// The fault a routing outcome reports: a miss is a routing miss and
/// nothing more — in particular, never one of the faults that may stop
/// the process.
pub fn fault_of(outcome: RouteOutcome) -> (f: Option<Fault>)
    ensures
        outcome == RouteOutcome::RoutingMiss <==> f == Some(Fault::RoutingMiss),
        outcome == RouteOutcome::Delivered <==> f is None,
        f matches Some(fault) ==> !fault.is_fatal_spec(),
{
    match outcome {
        RouteOutcome::Delivered => None,
        RouteOutcome::RoutingMiss => Some(Fault::RoutingMiss),
    }
}

/// Law: routing to a registered target appends exactly the message that
/// was sent — same kind, same sender, same payload — and no other entry
/// of the registry changes in any way.
pub proof fn lemma_delivery_verbatim(v: Map<SessionId, ChannelSpec>, m: Message)
    requires
        v.dom().contains(m.to_id),
    ensures
        route_effect(v, m).dom() == v.dom(),
        route_effect(v, m)[m.to_id].outbox.len() == v[m.to_id].outbox.len() + 1,
        route_effect(v, m)[m.to_id].outbox.last() == m,
        route_effect(v, m)[m.to_id].outbox.last().kind == m.kind,
        route_effect(v, m)[m.to_id].outbox.last().from_id == m.from_id,
        route_effect(v, m)[m.to_id].outbox.last().payload == m.payload,
        route_effect(v, m)[m.to_id].state == v[m.to_id].state,
        forall|k: SessionId| #![auto]
            k != m.to_id && v.dom().contains(k) ==> route_effect(v, m)[k] == v[k],
{
    assert(route_effect(v, m).dom() =~= v.dom());
}

/// Law: a routing miss is harmless — the registry, every queue, and every
/// connection's state stay exactly as they were.
pub proof fn lemma_miss_harmless(v: Map<SessionId, ChannelSpec>, m: Message)
    requires
        !v.dom().contains(m.to_id),
    ensures
        route_effect(v, m) == v,
        forall|k: SessionId| #![auto]
            v.dom().contains(k) ==> route_effect(v, m)[k].state == v[k].state,
{
}

/// Law: routing a message never unregisters anyone and never reorders or
/// drops what any queue already holds.
pub proof fn lemma_queue_stable(v: Map<SessionId, ChannelSpec>, m: Message, k: SessionId)
    requires
        v.dom().contains(k),
    ensures
        route_effect(v, m).dom().contains(k),
        v[k].outbox.is_prefix_of(route_effect(v, m)[k].outbox),
{
    if v.dom().contains(m.to_id) && k == m.to_id {
        assert(route_effect(v, m)[k].outbox == v[k].outbox.push(m));
        assert(v[k].outbox.is_prefix_of(v[k].outbox.push(m)));
    } else {
        assert(route_effect(v, m)[k] == v[k]);
        assert(v[k].outbox.is_prefix_of(v[k].outbox));
    }
}

/// What routing a whole run of messages, in order, does to the registry's
/// map: each message lands on its addressee as `route_effect` says.
pub open spec fn route_all(
    v: Map<SessionId, ChannelSpec>,
    msgs: Seq<Message>,
) -> Map<SessionId, ChannelSpec>
    decreases msgs.len(),
{
    if msgs.len() == 0 {
        v
    } else {
        route_effect(route_all(v, msgs.drop_last()), msgs.last())
    }
}

/// The messages of a run that are addressed to `t`, in their original order.
pub open spec fn addressed_to(msgs: Seq<Message>, t: SessionId) -> Seq<Message> {
    msgs.filter(|m: Message| m.to_id == t)
}

/// Law: however traffic interleaves, after any run of routed messages a
/// registered target's queue is what it already held followed by exactly
/// the messages addressed to it, in the order they were routed. In
/// particular, two messages from one sender arrive in sending order.
pub proof fn lemma_route_all_fifo(v: Map<SessionId, ChannelSpec>, msgs: Seq<Message>, t: SessionId)
    requires
        v.dom().contains(t),
    ensures
        route_all(v, msgs).dom().contains(t),
        route_all(v, msgs)[t].outbox == v[t].outbox + addressed_to(msgs, t),
    decreases msgs.len(),
{
    reveal(Seq::filter);
    if msgs.len() == 0 {
        assert(v[t].outbox + addressed_to(msgs, t) =~= v[t].outbox);
    } else {
        let prefix = msgs.drop_last();
        let m = msgs.last();
        lemma_route_all_fifo(v, prefix, t);
        let mid = route_all(v, prefix);
        if m.to_id == t {
            assert(route_effect(mid, m)[t].outbox == mid[t].outbox.push(m));
            assert(addressed_to(msgs, t) == addressed_to(prefix, t).push(m));
            assert(v[t].outbox + addressed_to(prefix, t).push(m)
                =~= (v[t].outbox + addressed_to(prefix, t)).push(m));
        } else {
            if mid.dom().contains(m.to_id) {
                assert(route_effect(mid, m)[t] == mid[t]);
            }
            assert(addressed_to(msgs, t) == addressed_to(prefix, t));
        }
    }
}

/// Law: per-sender first-in first-out — when one message and then another
/// are routed to the same registered target, the target's queue holds the
/// first strictly before the second.
pub proof fn lemma_per_sender_fifo(v: Map<SessionId, ChannelSpec>, m1: Message, m2: Message)
    requires
        m1.to_id == m2.to_id,
        v.dom().contains(m1.to_id),
    ensures
        ({
            let queue = route_effect(route_effect(v, m1), m2)[m1.to_id].outbox;
            let n = v[m1.to_id].outbox.len() as int;
            &&& queue.len() == n + 2
            &&& queue[n] == m1
            &&& queue[n + 1] == m2
        }),
{
    let mid = route_effect(v, m1);
    assert(mid.dom().contains(m2.to_id));
    assert(mid[m1.to_id].outbox == v[m1.to_id].outbox.push(m1));
    let after = route_effect(mid, m2);
    assert(after[m1.to_id].outbox == mid[m1.to_id].outbox.push(m2));
}

} // verus!
