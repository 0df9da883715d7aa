//! The session registry: the authoritative record of live connections,
//! keyed by session identifier. It assigns identifiers at registration,
//! resolves them for routing, and drops them at deregistration.

use vstd::prelude::*;
use vstd::map::*;

use crate::channel::{Channel, ChannelSpec, ChannelState};
use crate::message::{Message, SessionId};

verus! {

broadcast use vstd::map::group_map_axioms, vstd::set::group_set_axioms;

/// The record of live connections. Its mathematical value is the finite
/// map from each currently registered identifier to the value of its
/// channel; identifiers are assigned from a counter and never collide
/// with one that is still live.
pub struct Registry {
    next: u64,
    entries: Vec<(SessionId, Channel)>,
}

impl View for Registry {
    type V = Map<SessionId, ChannelSpec>;

    closed spec fn view(&self) -> Map<SessionId, ChannelSpec> {
        Map::new(
            |id: SessionId|
                exists|i: int|
                    0 <= i < self.entries@.len() && (#[trigger] self.entries@[i]).0 == id,
            |id: SessionId|
                self.entries@[choose|i: int|
                    0 <= i < self.entries@.len() && (#[trigger] self.entries@[i]).0 == id].1@,
        )
    }
}

impl Registry {
    /// Internal shape: no identifier appears twice, every identifier lies
    /// below the allocation cursor, and every registered channel is open
    /// (an entry exists exactly while its link does).
    pub closed spec fn wf(self) -> bool {
        &&& forall|i: int, j: int|
            0 <= i < self.entries@.len() && 0 <= j < self.entries@.len() && i != j
                ==> (#[trigger] self.entries@[i]).0 != (#[trigger] self.entries@[j]).0
        &&& forall|i: int|
            0 <= i < self.entries@.len() ==> (#[trigger] self.entries@[i]).0.raw < self.next
        &&& forall|i: int|
            0 <= i < self.entries@.len()
                ==> (#[trigger] self.entries@[i]).1@.state == ChannelState::Open
    }

    /// Identifiers are drawn from a machine word and have not run out.
    pub closed spec fn has_fresh_ids(self) -> bool {
        self.next < u64::MAX
    }

    /// The identifiers currently registered, in internal order.
    pub closed spec fn ids(self) -> Seq<SessionId> {
        self.entries@.map_values(|e: (SessionId, Channel)| e.0)
    }

    /// Law: the registry never holds two entries with the same session
    /// identifier at once. Every operation keeps `wf`, so this holds along
    /// any sequence of registrations and deregistrations.
    pub proof fn lemma_ids_unique(self)
        requires
            self.wf(),
        ensures
            forall|i: int, j: int|
                0 <= i < self.ids().len() && 0 <= j < self.ids().len() && i != j
                    ==> self.ids()[i] != self.ids()[j],
    {
        assert forall|i: int, j: int|
            0 <= i < self.ids().len() && 0 <= j < self.ids().len() && i != j
                implies self.ids()[i] != self.ids()[j] by {
            assert(self.ids()[i] == self.entries@[i].0);
            assert(self.ids()[j] == self.entries@[j].0);
        }
    }

    /// An empty registry holding no connection at all.
    pub fn new() -> (r: Registry)
        ensures
            r.wf(),
            r@ == Map::<SessionId, ChannelSpec>::empty(),
            r.has_fresh_ids(),
    {
        let r = Registry { next: 0, entries: Vec::new() };
        proof {
            assert(r@ =~= Map::<SessionId, ChannelSpec>::empty());
        }
        r
    }

    /// Whether a fresh identifier can still be assigned; only exhaustion
    /// of the identifier word could ever make this false.
    pub fn can_assign(&self) -> (b: bool)
        ensures
            b == self.has_fresh_ids(),
    {
        self.next < u64::MAX
    }

    /// Bind the caller's open channel to a fresh identifier and return it.
    /// The identifier returned is never one that is already live.
    pub fn register(&mut self, ch: Channel) -> (id: SessionId)
        requires
            old(self).wf(),
            old(self).has_fresh_ids(),
            ch@.state == ChannelState::Open,
        ensures
            final(self).wf(),
            !old(self)@.dom().contains(id),
            final(self)@ == old(self)@.insert(id, ch@),
    {
        let ghost pre = *old(self);
        let id = SessionId { raw: self.next };
        self.next = self.next + 1;
        let ghost chv = ch@;
        self.entries.push((id, ch));
        proof {
            lemma_view_push(pre, *self, id, chv);
        }
        id
    }

    /// Resolve an identifier to its live channel, if and only if it is
    /// currently registered; "not found" is a normal outcome.
    pub fn lookup(&self, id: SessionId) -> (r: Option<&Channel>)
        requires
            self.wf(),
        ensures
            match r {
                Some(ch) => self@.dom().contains(id) && ch@ == self@[id],
                None => !self@.dom().contains(id),
            },
    {
        let n = self.entries.len();
        let mut i: usize = 0;
        while i < n
            invariant
                n == self.entries@.len(),
                0 <= i <= n,
                self.wf(),
                forall|j: int| 0 <= j < i ==> (#[trigger] self.entries@[j]).0 != id,
            decreases n - i,
        {
            if self.entries[i].0.raw == id.raw {
                proof {
                    lemma_view_at(*self, i as int);
                }
                return Some(&self.entries[i].1);
            }
            i = i + 1;
        }
        proof {
            lemma_view_absent(*self, id);
        }
        None
    }

    /// Whether an identifier is currently registered.
    pub fn contains(&self, id: SessionId) -> (b: bool)
        requires
            self.wf(),
        ensures
            b == self@.dom().contains(id),
    {
        self.lookup(id).is_some()
    }

    /// Remove an identifier's entry and hand its channel back, if there is
    /// one. Removing an absent identifier is a no-op, not an error, so the
    /// operation may race with any teardown path.
    pub fn deregister(&mut self, id: SessionId) -> (removed: Option<Channel>)
        requires
            old(self).wf(),
        ensures
            final(self).wf(),
            final(self)@ == old(self)@.remove(id),
            removed is Some <==> old(self)@.dom().contains(id),
            removed matches Some(ch) ==> ch@ == old(self)@[id],
            final(self).has_fresh_ids() == old(self).has_fresh_ids(),
    {
        let ghost pre = *old(self);
        let n = self.entries.len();
        let mut i: usize = 0;
        while i < n
            invariant
                pre == *old(self),
                self.entries@ == old(self).entries@,
                self.next == old(self).next,
                n == self.entries@.len(),
                0 <= i <= n,
                old(self).wf(),
                forall|j: int| 0 <= j < i ==> (#[trigger] self.entries@[j]).0 != id,
            decreases n - i,
        {
            if self.entries[i].0.raw == id.raw {
                proof {
                    lemma_view_at(pre, i as int);
                }
                let pair = self.entries.swap_remove(i);
                proof {
                    lemma_view_remove(pre, *self, i as int);
                }
                return Some(pair.1);
            }
            i = i + 1;
        }
        proof {
            lemma_view_absent(pre, id);
            assert(pre@ =~= pre@.remove(id));
        }
        None
    }

    /// Tear one connection down: drop its entry and close its channel, so
    /// every later send on it is refused. The queued messages are kept.
    pub fn disconnect(&mut self, id: SessionId) -> (removed: Option<Channel>)
        requires
            old(self).wf(),
        ensures
            final(self).wf(),
            final(self)@ == old(self)@.remove(id),
            removed is Some <==> old(self)@.dom().contains(id),
            removed matches Some(ch) ==> ch@.state == ChannelState::Closed
                && ch@.outbox == old(self)@[id].outbox
                && ch@.peer == old(self)@[id].peer,
            final(self).has_fresh_ids() == old(self).has_fresh_ids(),
    {
        match self.deregister(id) {
            Some(mut ch) => {
                ch.close();
                Some(ch)
            },
            None => None,
        }
    }

    /// Append one message, verbatim, to the addressed channel's queue.
    /// Returns whether the identifier was registered; an unknown addressee
    /// leaves the registry exactly as it was.
    pub fn send_to(&mut self, id: SessionId, m: Message) -> (delivered: bool)
        requires
            old(self).wf(),
        ensures
            final(self).wf(),
            delivered == old(self)@.dom().contains(id),
            delivered ==> final(self)@ == old(self)@.insert(
                id,
                (ChannelSpec {
                    state: old(self)@[id].state,
                    outbox: old(self)@[id].outbox.push(m),
                    peer: old(self)@[id].peer,
                }),
            ),
            !delivered ==> final(self)@ == old(self)@,
            final(self).has_fresh_ids() == old(self).has_fresh_ids(),
    {
        let ghost pre = *old(self);
        let n = self.entries.len();
        let mut i: usize = 0;
        while i < n
            invariant
                pre == *old(self),
                self.entries@ == old(self).entries@,
                self.next == old(self).next,
                n == self.entries@.len(),
                0 <= i <= n,
                old(self).wf(),
                forall|j: int| 0 <= j < i ==> (#[trigger] self.entries@[j]).0 != id,
            decreases n - i,
        {
            if self.entries[i].0.raw == id.raw {
                proof {
                    lemma_view_at(pre, i as int);
                }
                let mut pair = self.entries.swap_remove(i);
                // A registered channel is open, so the send is accepted.
                let _ = pair.1.send(m);
                let ghost chv = pair.1@;
                self.entries.push(pair);
                proof {
                    lemma_view_update(pre, *self, i as int, chv);
                }
                return true;
            }
            i = i + 1;
        }
        proof {
            lemma_view_absent(pre, id);
        }
        false
    }

    /// Hand out everything queued for `id`, in order, leaving its queue
    /// empty; nothing happens if the identifier is not registered.
    pub fn drain_outbox(&mut self, id: SessionId) -> (drained: Option<Vec<Message>>)
        requires
            old(self).wf(),
        ensures
            final(self).wf(),
            drained is Some <==> old(self)@.dom().contains(id),
            drained matches Some(v) ==> v@ == old(self)@[id].outbox,
            old(self)@.dom().contains(id) ==> final(self)@ == old(self)@.insert(
                id,
                (ChannelSpec {
                    state: old(self)@[id].state,
                    outbox: Seq::<Message>::empty(),
                    peer: old(self)@[id].peer,
                }),
            ),
            !old(self)@.dom().contains(id) ==> final(self)@ == old(self)@,
            final(self).has_fresh_ids() == old(self).has_fresh_ids(),
    {
        let ghost pre = *old(self);
        let n = self.entries.len();
        let mut i: usize = 0;
        while i < n
            invariant
                pre == *old(self),
                self.entries@ == old(self).entries@,
                self.next == old(self).next,
                n == self.entries@.len(),
                0 <= i <= n,
                old(self).wf(),
                forall|j: int| 0 <= j < i ==> (#[trigger] self.entries@[j]).0 != id,
            decreases n - i,
        {
            if self.entries[i].0.raw == id.raw {
                proof {
                    lemma_view_at(pre, i as int);
                }
                let mut pair = self.entries.swap_remove(i);
                let msgs = pair.1.take_outbox();
                let ghost chv = pair.1@;
                self.entries.push(pair);
                proof {
                    lemma_view_update(pre, *self, i as int, chv);
                }
                return Some(msgs);
            }
            i = i + 1;
        }
        proof {
            lemma_view_absent(pre, id);
        }
        None
    }
}

/// Law: once an identifier is deregistered it resolves to nothing, and
/// deregistering it again changes nothing at all — the effect on every
/// later lookup is the same however often the removal is repeated.
pub proof fn lemma_deregister_idempotent(v: Map<SessionId, ChannelSpec>, id: SessionId)
    ensures
        !v.remove(id).dom().contains(id),
        v.remove(id).remove(id) == v.remove(id),
{
    assert(v.remove(id).remove(id) =~= v.remove(id));
}

/// Under `wf`, the entry at index `i` is what the registry's map assigns
/// to its identifier.
proof fn lemma_view_at(r: Registry, i: int)
    requires
        r.wf(),
        0 <= i < r.entries@.len(),
    ensures
        r@.dom().contains(r.entries@[i].0),
        r@[r.entries@[i].0] == r.entries@[i].1@,
{
    let id = r.entries@[i].0;
    assert(exists|j: int| 0 <= j < r.entries@.len() && (#[trigger] r.entries@[j]).0 == id);
    let j = choose|j: int| 0 <= j < r.entries@.len() && (#[trigger] r.entries@[j]).0 == id;
    assert(j == i);
}

/// An identifier on no entry is outside the registry's map.
proof fn lemma_view_absent(r: Registry, id: SessionId)
    requires
        forall|i: int| 0 <= i < r.entries@.len() ==> (#[trigger] r.entries@[i]).0 != id,
    ensures
        !r@.dom().contains(id),
{
}

/// Appending an entry under a fresh identifier inserts it into the map.
proof fn lemma_view_push(pre: Registry, post: Registry, id: SessionId, chv: ChannelSpec)
    requires
        pre.wf(),
        pre.has_fresh_ids(),
        id.raw == pre.next,
        chv.state == ChannelState::Open,
        post.next == pre.next + 1,
        post.entries@.len() == pre.entries@.len() + 1,
        forall|i: int| 0 <= i < pre.entries@.len()
            ==> #[trigger] post.entries@[i] == pre.entries@[i],
        post.entries@.last().0 == id,
        post.entries@.last().1@ == chv,
    ensures
        post.wf(),
        !pre@.dom().contains(id),
        post@ == pre@.insert(id, chv),
{
    let olds = pre.entries@;
    let news = post.entries@;
    let n = olds.len() as int;

    assert(!pre@.dom().contains(id)) by {
        if pre@.dom().contains(id) {
            let i = choose|i: int| 0 <= i < olds.len() && (#[trigger] olds[i]).0 == id;
            assert(olds[i].0.raw < pre.next);
        }
    }

    assert(post.wf()) by {
        assert forall|i: int, j: int|
            0 <= i < news.len() && 0 <= j < news.len() && i != j
                implies (news[i]).0 != (news[j]).0 by {
            if i < n && j < n {
                assert(news[i] == olds[i]);
                assert(news[j] == olds[j]);
            } else if i == n {
                assert(news[j] == olds[j]);
                assert(olds[j].0.raw < pre.next);
            } else {
                assert(j == n);
                assert(news[i] == olds[i]);
                assert(olds[i].0.raw < pre.next);
            }
        }
        assert forall|i: int| 0 <= i < news.len() implies (news[i]).0.raw < post.next by {
            if i < n {
                assert(news[i] == olds[i]);
            }
        }
        assert forall|i: int| 0 <= i < news.len()
            implies (news[i]).1@.state == ChannelState::Open by {
            if i < n {
                assert(news[i] == olds[i]);
            }
        }
    }

    assert_maps_equal!(post.view(), pre.view().insert(id, chv), k => {
        if k == id {
            lemma_view_at(post, n);
        } else {
            if pre@.dom().contains(k) {
                let o = choose|o: int| 0 <= o < olds.len() && (#[trigger] olds[o]).0 == k;
                lemma_view_at(pre, o);
                assert(news[o] == olds[o]);
                lemma_view_at(post, o);
            } else {
                if post@.dom().contains(k) {
                    let j = choose|j: int|
                        0 <= j < news.len() && (#[trigger] news[j]).0 == k;
                    assert(j < n);
                    assert(news[j] == olds[j]);
                    assert(pre@.dom().contains(k));
                }
            }
        }
    });
}

/// Swap-removing the entry at index `i` removes exactly its identifier
/// from the map.
proof fn lemma_view_remove(pre: Registry, post: Registry, i: int)
    requires
        pre.wf(),
        0 <= i < pre.entries@.len(),
        post.next == pre.next,
        post.entries@ == pre.entries@.update(i, pre.entries@.last()).drop_last(),
    ensures
        post.wf(),
        post@ == pre@.remove(pre.entries@[i].0),
{
    let olds = pre.entries@;
    let news = post.entries@;
    let n = olds.len() as int;
    let id = olds[i].0;

    assert(news.len() == n - 1);
    assert forall|j: int| 0 <= j < n - 1
        implies #[trigger] news[j] == (if j == i { olds[n - 1] } else { olds[j] }) by {
        assert(news[j] == olds.update(i, olds.last())[j]);
    }

    assert(post.wf()) by {
        assert forall|j1: int, j2: int|
            0 <= j1 < news.len() && 0 <= j2 < news.len() && j1 != j2
                implies (news[j1]).0 != (news[j2]).0 by {
            let o1: int = if j1 == i { n - 1 } else { j1 };
            let o2: int = if j2 == i { n - 1 } else { j2 };
            assert(news[j1] == olds[o1]);
            assert(news[j2] == olds[o2]);
            assert(o1 != o2);
        }
        assert forall|j: int| 0 <= j < news.len() implies (news[j]).0.raw < post.next by {
            let o: int = if j == i { n - 1 } else { j };
            assert(news[j] == olds[o]);
        }
        assert forall|j: int| 0 <= j < news.len()
            implies (news[j]).1@.state == ChannelState::Open by {
            let o: int = if j == i { n - 1 } else { j };
            assert(news[j] == olds[o]);
        }
    }

    assert_maps_equal!(post.view(), pre.view().remove(id), k => {
        if k == id {
            if post@.dom().contains(id) {
                let j = choose|j: int| 0 <= j < news.len() && (#[trigger] news[j]).0 == id;
                let o: int = if j == i { n - 1 } else { j };
                assert(news[j] == olds[o]);
                assert(o != i);
                assert(olds[o].0 == olds[i].0);
            }
        } else {
            if pre@.dom().contains(k) {
                let o = choose|o: int| 0 <= o < olds.len() && (#[trigger] olds[o]).0 == k;
                lemma_view_at(pre, o);
                assert(o != i);
                let j: int = if o == n - 1 { i } else { o };
                assert(news[j] == olds[o]);
                lemma_view_at(post, j);
            } else {
                if post@.dom().contains(k) {
                    let j = choose|j: int|
                        0 <= j < news.len() && (#[trigger] news[j]).0 == k;
                    let o: int = if j == i { n - 1 } else { j };
                    assert(news[j] == olds[o]);
                    assert(pre@.dom().contains(k));
                }
            }
        }
    });
}

/// Replacing the channel at index `i` (the entry moves to the back, its
/// identifier kept) rebinds exactly that identifier in the map.
proof fn lemma_view_update(pre: Registry, post: Registry, i: int, chv: ChannelSpec)
    requires
        pre.wf(),
        0 <= i < pre.entries@.len(),
        chv.state == ChannelState::Open,
        post.next == pre.next,
        post.entries@.len() == pre.entries@.len(),
        forall|j: int| 0 <= j < pre.entries@.len() - 1
            ==> #[trigger] post.entries@[j]
                == (if j == i { pre.entries@[pre.entries@.len() - 1] } else { pre.entries@[j] }),
        post.entries@.last().0 == pre.entries@[i].0,
        post.entries@.last().1@ == chv,
    ensures
        post.wf(),
        post@ == pre@.insert(pre.entries@[i].0, chv),
{
    let olds = pre.entries@;
    let news = post.entries@;
    let n = olds.len() as int;
    let id = olds[i].0;

    assert(post.wf()) by {
        assert forall|j1: int, j2: int|
            0 <= j1 < news.len() && 0 <= j2 < news.len() && j1 != j2
                implies (news[j1]).0 != (news[j2]).0 by {
            let o1: int = if j1 == n - 1 { i } else if j1 == i { n - 1 } else { j1 };
            let o2: int = if j2 == n - 1 { i } else if j2 == i { n - 1 } else { j2 };
            assert(news[j1].0 == olds[o1].0);
            assert(news[j2].0 == olds[o2].0);
            assert(o1 != o2);
        }
        assert forall|j: int| 0 <= j < news.len() implies (news[j]).0.raw < post.next by {
            let o: int = if j == n - 1 { i } else if j == i { n - 1 } else { j };
            assert(news[j].0 == olds[o].0);
        }
        assert forall|j: int| 0 <= j < news.len()
            implies (news[j]).1@.state == ChannelState::Open by {
            if j < n - 1 {
                let o: int = if j == i { n - 1 } else { j };
                assert(news[j] == olds[o]);
            }
        }
    }

    assert_maps_equal!(post.view(), pre.view().insert(id, chv), k => {
        if k == id {
            lemma_view_at(post, n - 1);
        } else {
            if pre@.dom().contains(k) {
                let o = choose|o: int| 0 <= o < olds.len() && (#[trigger] olds[o]).0 == k;
                lemma_view_at(pre, o);
                assert(o != i);
                let j: int = if o == n - 1 { i } else { o };
                assert(news[j] == olds[o]);
                lemma_view_at(post, j);
            } else {
                if post@.dom().contains(k) {
                    let j = choose|j: int|
                        0 <= j < news.len() && (#[trigger] news[j]).0 == k;
                    assert(j != n - 1);
                    let o: int = if j == i { n - 1 } else { j };
                    assert(news[j] == olds[o]);
                    assert(pre@.dom().contains(k));
                }
            }
        }
    });
}

} // verus!
