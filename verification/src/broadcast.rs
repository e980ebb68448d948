//! Fan-out of one event to a room: who is to receive it, and what
//! becomes of the recipients a write to whom has failed. The transport
//! loop performs the writes outside any critical section and reports
//! their outcome back.
use crate::channel::{connections_view, ChannelManager, UserConnection};
use crate::room::{lemma_evict, ConnectionView, HubView, WriterId};
use vstd::prelude::*;
use vstd::string::*;

verus! {

/// A payload and the connections it is to be written to.
#[derive(Debug, PartialEq, Eq)]
pub struct Broadcast {
    pub payload: String,
    pub recipients: Vec<UserConnection>,
}

/// Model of a [`Broadcast`].
pub struct BroadcastView {
    pub payload: Seq<char>,
    pub recipients: Seq<ConnectionView>,
}

impl View for Broadcast {
    type V = BroadcastView;

    open spec fn view(&self) -> BroadcastView {
        BroadcastView { payload: self.payload@, recipients: connections_view(self.recipients@) }
    }
}

/// The broadcast of `payload` to room `channel` as the hub stands: one
/// write for every connection registered in the room, and no other.
pub open spec fn plan(hub: HubView, channel: Seq<char>, payload: Seq<char>) -> BroadcastView {
    BroadcastView { payload, recipients: hub.room(channel).members }
}

/// Whether a write to `user` has failed.
pub open spec fn has_failed(recipients: Seq<ConnectionView>, written: Seq<bool>, user: Seq<char>) -> bool {
    exists|i: int|
        0 <= i < recipients.len() && i < written.len() && (#[trigger] recipients[i]).username == user
            && !written[i]
}

/// Whether a write through `write` has failed.
pub open spec fn writer_failed(recipients: Seq<ConnectionView>, written: Seq<bool>, write: WriterId) -> bool {
    exists|i: int|
        0 <= i < recipients.len() && i < written.len() && (#[trigger] recipients[i]).write == write
            && !written[i]
}

/// The recipients a write to whom has failed, in the order of the plan.
pub open spec fn failures(recipients: Seq<ConnectionView>, written: Seq<bool>) -> Seq<ConnectionView>
    decreases recipients.len(),
{
    if recipients.len() == 0 || written.len() == 0 {
        Seq::empty()
    } else if written.last() {
        failures(recipients.drop_last(), written.drop_last())
    } else {
        failures(recipients.drop_last(), written.drop_last()).push(recipients.last())
    }
}

/// The hub after every recipient a write to whom has failed was evicted
/// as a dead peer: from room `channel` by its user, and from every room
/// by the connection the write went through.
pub open spec fn evict_failed(
    hub: HubView,
    channel: Seq<char>,
    recipients: Seq<ConnectionView>,
    written: Seq<bool>,
) -> HubView
    decreases recipients.len(),
{
    if recipients.len() == 0 || written.len() == 0 {
        hub
    } else {
        let before = evict_failed(hub, channel, recipients.drop_last(), written.drop_last());
        if written.last() {
            before
        } else {
            before.evict(channel, recipients.last())
        }
    }
}

/// What settling a broadcast does. The hub stays well formed and keeps
/// every room. A connection stays in a room exactly if no write through
/// its writer has failed and, in the room of the broadcast, no write to
/// its user has failed. Nothing but membership changes.
pub proof fn lemma_eviction(
    hub: HubView,
    channel: Seq<char>,
    recipients: Seq<ConnectionView>,
    written: Seq<bool>,
)
    requires
        hub.wf(),
        recipients.len() == written.len(),
    ensures
        evict_failed(hub, channel, recipients, written).wf(),
        forall|r: Seq<char>|
            evict_failed(hub, channel, recipients, written).has_room(r) == hub.has_room(r),
        forall|r: Seq<char>, m: ConnectionView| #[trigger]
            evict_failed(hub, channel, recipients, written).room(r).members.contains(m) <==> (
            hub.room(r).members.contains(m) && !writer_failed(recipients, written, m.write) && !(r
                == channel && has_failed(recipients, written, m.username))),
        forall|r: Seq<char>|
            {
                let after = #[trigger] evict_failed(hub, channel, recipients, written).room(r);
                &&& after.banned == hub.room(r).banned
                &&& after.muted == hub.room(r).muted
                &&& after.moderators == hub.room(r).moderators
                &&& after.log == hub.room(r).log
            },
    decreases recipients.len(),
{
    let after = evict_failed(hub, channel, recipients, written);
    if recipients.len() == 0 {
        assert forall|user: Seq<char>| !has_failed(recipients, written, user) by {}
        assert forall|write: WriterId| !writer_failed(recipients, written, write) by {}
    } else {
        let front = recipients.drop_last();
        let front_written = written.drop_last();
        let before = evict_failed(hub, channel, front, front_written);
        let last = recipients.last();
        lemma_eviction(hub, channel, front, front_written);
        lemma_evict(before, channel, last);
        assert(recipients[recipients.len() - 1] == last);
        assert forall|user: Seq<char>|
            has_failed(recipients, written, user) <==> (has_failed(front, front_written, user) || (
            !written.last() && user == last.username)) by {
            if has_failed(front, front_written, user) {
                let i = choose|i: int|
                    0 <= i < front.len() && i < front_written.len() && (#[trigger] front[i]).username
                        == user && !front_written[i];
                assert(recipients[i].username == user && !written[i]);
            }
            if has_failed(recipients, written, user) {
                let i = choose|i: int|
                    0 <= i < recipients.len() && i < written.len() && (
                    #[trigger] recipients[i]).username == user && !written[i];
                if i < front.len() {
                    assert(front[i].username == user && !front_written[i]);
                }
            }
        }
        assert forall|write: WriterId|
            writer_failed(recipients, written, write) <==> (writer_failed(
                front,
                front_written,
                write,
            ) || (!written.last() && write == last.write)) by {
            if writer_failed(front, front_written, write) {
                let i = choose|i: int|
                    0 <= i < front.len() && i < front_written.len() && (#[trigger] front[i]).write
                        == write && !front_written[i];
                assert(recipients[i].write == write && !written[i]);
            }
            if writer_failed(recipients, written, write) {
                let i = choose|i: int|
                    0 <= i < recipients.len() && i < written.len() && (#[trigger] recipients[i]).write
                        == write && !written[i];
                if i < front.len() {
                    assert(front[i].write == write && !front_written[i]);
                }
            }
        }
        assert forall|r: Seq<char>, m: ConnectionView| #[trigger]
            after.room(r).members.contains(m) <==> (hub.room(r).members.contains(m)
                && !writer_failed(recipients, written, m.write) && !(r == channel && has_failed(
                recipients,
                written,
                m.username,
            ))) by {
            assert(before.room(r).members.contains(m) <==> (hub.room(r).members.contains(m)
                && !writer_failed(front, front_written, m.write) && !(r == channel && has_failed(
                front,
                front_written,
                m.username,
            ))));
            if !written.last() {
                assert(before.evict(channel, last).room(r).members.contains(m)
                    <==> before.room(r).members.contains(m) && m.write != last.write && !(r
                    == channel && m.username == last.username));
            }
        }
        assert forall|r: Seq<char>|
            {
                let room = #[trigger] after.room(r);
                &&& room.banned == hub.room(r).banned
                &&& room.muted == hub.room(r).muted
                &&& room.moderators == hub.room(r).moderators
                &&& room.log == hub.room(r).log
            } by {
            let kept = before.room(r);
            assert(kept.banned == hub.room(r).banned);
            if !written.last() {
                let evicted = before.evict(channel, last).room(r);
                assert(evicted.banned == before.room(r).banned);
            }
        }
    }
}

/// Plans the broadcast of `message` to room `channel`: a copy of the
/// connections registered in the room at this moment. A room without
/// members, or no room at all, gives a plan without writes.
pub fn broadcast_to_channel(manager: &ChannelManager, channel: &str, message: String) -> (out:
    Broadcast)
    requires
        manager.wf(),
    ensures
        out@ == plan(manager@, channel@, message@),
{
    Broadcast { payload: message, recipients: manager.snapshot(channel) }
}

/// Settles a broadcast once its writes were attempted: `written[i]`
/// tells whether the write to `recipients[i]` succeeded. Every recipient a
/// write to whom has failed is evicted as a dead peer: its user leaves
/// room `channel`, and its connection leaves every room. The others keep
/// their place. Returns the evicted connections.
pub fn settle_broadcast(
    manager: &mut ChannelManager,
    channel: &str,
    recipients: &Vec<UserConnection>,
    written: &Vec<bool>,
) -> (evicted: Vec<UserConnection>)
    requires
        old(manager).wf(),
        recipients.len() == written.len(),
    ensures
        final(manager).wf(),
        final(manager)@ == evict_failed(
            old(manager)@,
            channel@,
            connections_view(recipients@),
            written@,
        ),
        connections_view(evicted@) == failures(connections_view(recipients@), written@),
{
    let mut evicted: Vec<UserConnection> = Vec::new();
    let mut i: usize = 0;
    let ghost all = connections_view(recipients@);
    assert(all.take(0) =~= Seq::<ConnectionView>::empty());
    assert(connections_view(evicted@) =~= Seq::<ConnectionView>::empty());
    while i < recipients.len()
        invariant
            i <= recipients.len(),
            recipients.len() == written.len(),
            all == connections_view(recipients@),
            manager.wf(),
            manager@ == evict_failed(old(manager)@, channel@, all.take(i as int), written@.take(i as int)),
            connections_view(evicted@) == failures(all.take(i as int), written@.take(i as int)),
        decreases recipients.len() - i,
    {
        proof {
            assert(all.take(i + 1).drop_last() =~= all.take(i as int));
            assert(written@.take(i + 1).drop_last() =~= written@.take(i as int));
            assert(all.take(i + 1).last() == recipients@[i as int]@);
            assert(written@.take(i + 1).last() == written@[i as int]);
        }
        if !written[i] {
            manager.kick_user(channel, recipients[i].username.as_str());
            manager.remove_connection(recipients[i].write);
            evicted.push(recipients[i].clone());
            assert(connections_view(evicted@) =~= failures(
                all.take(i as int),
                written@.take(i as int),
            ).push(recipients@[i as int]@));
        }
        i = i + 1;
    }
    assert(all.take(recipients.len() as int) =~= all);
    assert(written@.take(recipients.len() as int) =~= written@);
    evicted
}

} // verus!
