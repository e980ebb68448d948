//! The mathematical model of a room and of the hub that owns the rooms.
//!
//! Every executable operation of the library is specified as one of the
//! transitions defined here, and the laws of the library are proved about
//! these transitions.
use crate::message::MessageView;
use vstd::prelude::*;

verus! {

/// Identifies the outbound write half of one client's socket.
pub type WriterId = u64;

/// Model of a live connection: who it belongs to and where to write.
pub struct ConnectionView {
    pub username: Seq<char>,
    pub write: WriterId,
}

/// `members` minus every connection of `user`, the others in their order.
pub open spec fn without(members: Seq<ConnectionView>, user: Seq<char>) -> Seq<ConnectionView> {
    members.filter(|c: ConnectionView| c.username != user)
}

/// Whether `members` holds a connection of `user`.
pub open spec fn includes(members: Seq<ConnectionView>, user: Seq<char>) -> bool {
    exists|i: int| 0 <= i < members.len() && (#[trigger] members[i]).username == user
}

/// The test a connection passes when it is not written through `write`.
pub open spec fn other_writer(write: WriterId) -> spec_fn(ConnectionView) -> bool {
    |c: ConnectionView| c.write != write
}

/// No two connections belong to the same user.
pub open spec fn distinct(members: Seq<ConnectionView>) -> bool {
    forall|i: int, j: int|
        0 <= i < members.len() && 0 <= j < members.len() && i != j ==> (#[trigger] members[i]).username
            != (#[trigger] members[j]).username
}

/// Model of one room.
#[verifier::ext_equal]
pub struct RoomView {
    /// Connected members, in the order they joined.
    pub members: Seq<ConnectionView>,
    pub banned: Set<Seq<char>>,
    pub muted: Set<Seq<char>>,
    pub moderators: Set<Seq<char>>,
    /// Accepted messages, oldest first.
    pub log: Seq<MessageView>,
}

impl RoomView {
    /// A room nobody has touched yet.
    pub open spec fn empty() -> Self {
        RoomView {
            members: Seq::empty(),
            banned: Set::empty(),
            muted: Set::empty(),
            moderators: Set::empty(),
            log: Seq::empty(),
        }
    }

    /// Whether `user` has a connection registered in the room.
    pub open spec fn has_member(self, user: Seq<char>) -> bool {
        includes(self.members, user)
    }

    /// The room invariant: one connection per member, no banned member,
    /// and only messages within the content bound in the log.
    pub open spec fn wf(self) -> bool {
        &&& distinct(self.members)
        &&& forall|i: int|
            0 <= i < self.members.len() ==> !self.banned.contains((#[trigger] self.members[i]).username)
        &&& forall|i: int| 0 <= i < self.log.len() ==> (#[trigger] self.log[i]).valid()
    }

    /// Whether a join by `user` is refused.
    pub open spec fn refuses(self, user: Seq<char>) -> bool {
        self.banned.contains(user)
    }

    /// Registers `conn`. A banned user is not admitted; a user who is
    /// already a member keeps the connection registered first.
    pub open spec fn join(self, conn: ConnectionView) -> Self {
        if self.refuses(conn.username) || self.has_member(conn.username) {
            self
        } else {
            RoomView { members: self.members.push(conn), ..self }
        }
    }

    /// Removes `user` from the members; the ban set is left alone.
    pub open spec fn kick(self, user: Seq<char>) -> Self {
        RoomView { members: without(self.members, user), ..self }
    }

    /// Bans `user` and removes the user from the members.
    pub open spec fn ban(self, user: Seq<char>) -> Self {
        RoomView { members: without(self.members, user), banned: self.banned.insert(user), ..self }
    }

    /// Lifts the ban on `user`; membership is not restored.
    pub open spec fn unban(self, user: Seq<char>) -> Self {
        RoomView { banned: self.banned.remove(user), ..self }
    }

    /// Adds `user` to the mute set.
    pub open spec fn mute(self, user: Seq<char>) -> Self {
        RoomView { muted: self.muted.insert(user), ..self }
    }

    /// Removes `user` from the mute set.
    pub open spec fn unmute(self, user: Seq<char>) -> Self {
        RoomView { muted: self.muted.remove(user), ..self }
    }

    /// Grants `user` moderator rights.
    pub open spec fn promote(self, user: Seq<char>) -> Self {
        RoomView { moderators: self.moderators.insert(user), ..self }
    }

    /// Withdraws moderator rights from `user`.
    pub open spec fn demote(self, user: Seq<char>) -> Self {
        RoomView { moderators: self.moderators.remove(user), ..self }
    }

    /// Removes every connection written through `write`.
    pub open spec fn drop_writer(self, write: WriterId) -> Self {
        RoomView { members: self.members.filter(other_writer(write)), ..self }
    }

    /// Appends `message` to the log unless it breaks the content bound.
    pub open spec fn append(self, message: MessageView) -> Self {
        if message.valid() {
            RoomView { log: self.log.push(message), ..self }
        } else {
            self
        }
    }
}

/// Model of the hub: every room that exists, by identifier.
#[verifier::ext_equal]
pub struct HubView {
    pub rooms: Map<Seq<char>, RoomView>,
}

impl HubView {
    /// The hub without rooms.
    pub open spec fn empty() -> Self {
        HubView { rooms: Map::empty() }
    }

    /// Whether room `id` exists.
    pub open spec fn has_room(self, id: Seq<char>) -> bool {
        self.rooms.contains_key(id)
    }

    /// The state of room `id`; a room that does not exist yet reads as empty.
    pub open spec fn room(self, id: Seq<char>) -> RoomView {
        if self.has_room(id) {
            self.rooms[id]
        } else {
            RoomView::empty()
        }
    }

    /// The hub with `room` as the state of room `id`.
    pub open spec fn with_room(self, id: Seq<char>, room: RoomView) -> Self {
        HubView { rooms: self.rooms.insert(id, room) }
    }

    /// The hub invariant: every room satisfies the room invariant.
    pub open spec fn wf(self) -> bool {
        forall|id: Seq<char>| self.rooms.contains_key(id) ==> (#[trigger] self.rooms[id]).wf()
    }

    /// Whether `user` is a member of room `id`.
    pub open spec fn is_member(self, id: Seq<char>, user: Seq<char>) -> bool {
        self.room(id).has_member(user)
    }

    /// Whether `user` is banned from room `id`.
    pub open spec fn is_banned(self, id: Seq<char>, user: Seq<char>) -> bool {
        self.room(id).banned.contains(user)
    }

    /// Whether `user` is muted in room `id`.
    pub open spec fn is_muted(self, id: Seq<char>, user: Seq<char>) -> bool {
        self.room(id).muted.contains(user)
    }

    /// Whether `user` holds moderator rights in room `id`.
    pub open spec fn is_moderator(self, id: Seq<char>, user: Seq<char>) -> bool {
        self.room(id).moderators.contains(user)
    }

    /// Creates room `id` if it does not exist.
    pub open spec fn open_room(self, id: Seq<char>) -> Self {
        self.with_room(id, self.room(id))
    }

    /// Applies `change` to room `id` if the room exists.
    pub open spec fn in_existing(self, id: Seq<char>, change: spec_fn(RoomView) -> RoomView) -> Self {
        if self.has_room(id) {
            self.with_room(id, change(self.rooms[id]))
        } else {
            self
        }
    }

    /// Appends `message` to the log of its channel, creating the channel on
    /// first reference; a message over the content bound changes nothing.
    pub open spec fn add_message(self, message: MessageView) -> Self {
        if message.valid() {
            self.with_room(message.channel, self.room(message.channel).append(message))
        } else {
            self
        }
    }

    /// Registers `conn` in room `id`, creating the room on first reference;
    /// a banned user changes nothing.
    pub open spec fn add_user(self, id: Seq<char>, conn: ConnectionView) -> Self {
        if self.is_banned(id, conn.username) {
            self
        } else {
            self.with_room(id, self.room(id).join(conn))
        }
    }

    /// Removes `user` from room `id`, if the room exists.
    pub open spec fn kick_user(self, id: Seq<char>, user: Seq<char>) -> Self {
        self.in_existing(id, |r: RoomView| r.kick(user))
    }

    /// Bans `user` from room `id`, creating the room on first reference.
    pub open spec fn ban_user(self, id: Seq<char>, user: Seq<char>) -> Self {
        self.with_room(id, self.room(id).ban(user))
    }

    /// Lifts the ban on `user` in room `id`, if the room exists.
    pub open spec fn unban_user(self, id: Seq<char>, user: Seq<char>) -> Self {
        self.in_existing(id, |r: RoomView| r.unban(user))
    }

    /// Mutes `user` in room `id`, creating the room on first reference.
    pub open spec fn mute_user(self, id: Seq<char>, user: Seq<char>) -> Self {
        self.with_room(id, self.room(id).mute(user))
    }

    /// Lifts the mute on `user` in room `id`, if the room exists.
    pub open spec fn unmute_user(self, id: Seq<char>, user: Seq<char>) -> Self {
        self.in_existing(id, |r: RoomView| r.unmute(user))
    }

    /// Grants `user` moderator rights in room `id`, creating the room on
    /// first reference.
    pub open spec fn add_moderator(self, id: Seq<char>, user: Seq<char>) -> Self {
        self.with_room(id, self.room(id).promote(user))
    }

    /// Withdraws moderator rights from `user` in room `id`, if the room
    /// exists.
    pub open spec fn remove_moderator(self, id: Seq<char>, user: Seq<char>) -> Self {
        self.in_existing(id, |r: RoomView| r.demote(user))
    }

    /// Removes the connections written through `write` from every room.
    pub open spec fn remove_connection(self, write: WriterId) -> Self {
        HubView { rooms: self.rooms.map_values(|r: RoomView| r.drop_writer(write)) }
    }

    /// Evicts a dead peer found while writing to room `id`: its user
    /// leaves that room, and the connection it was written through
    /// leaves every room.
    pub open spec fn evict(self, id: Seq<char>, peer: ConnectionView) -> Self {
        self.kick_user(id, peer.username).remove_connection(peer.write)
    }
}

/// A room stays well formed when its members and log are kept and nobody
/// is added to its ban set.
pub proof fn lemma_wf_kept(before: RoomView, after: RoomView)
    requires
        before.wf(),
        after.members == before.members,
        after.log == before.log,
        after.banned.subset_of(before.banned),
    ensures
        after.wf(),
{
    assert forall|i: int| 0 <= i < after.members.len() implies !after.banned.contains(
        (#[trigger] after.members[i]).username,
    ) by {
        assert(!before.banned.contains(before.members[i].username));
    }
    assert forall|i: int| 0 <= i < after.log.len() implies (#[trigger] after.log[i]).valid() by {
        assert(before.log[i].valid());
    }
}

/// Filtering changes nothing when every element passes.
pub proof fn lemma_without_absent(members: Seq<ConnectionView>, user: Seq<char>)
    requires
        !includes(members, user),
    ensures
        without(members, user) == members,
    decreases members.len(),
{
    reveal(Seq::filter);
    if members.len() > 0 {
        let front = members.drop_last();
        assert forall|i: int| 0 <= i < front.len() implies (#[trigger] front[i]).username != user by {
            assert(front[i] == members[i]);
        }
        lemma_without_absent(front, user);
        assert(members.last() == members[members.len() - 1]);
        assert(front.push(members.last()) =~= members);
    }
}

/// With one connection per user, removing a user removes one position.
pub proof fn lemma_without_at(members: Seq<ConnectionView>, user: Seq<char>, at: int)
    requires
        distinct(members),
        0 <= at < members.len(),
        members[at].username == user,
    ensures
        without(members, user) == members.remove(at),
    decreases members.len(),
{
    reveal(Seq::filter);
    let front = members.drop_last();
    assert forall|i: int, j: int|
        0 <= i < front.len() && 0 <= j < front.len() && i != j implies (#[trigger] front[i]).username
        != (#[trigger] front[j]).username by {
        assert(front[i] == members[i] && front[j] == members[j]);
    }
    if at == members.len() - 1 {
        assert forall|i: int| 0 <= i < front.len() implies (#[trigger] front[i]).username != user by {
            assert(front[i] == members[i]);
        }
        lemma_without_absent(front, user);
        assert(front =~= members.remove(at));
    } else {
        assert(front[at] == members[at]);
        lemma_without_at(front, user, at);
        assert(members.last() == members[members.len() - 1]);
        assert(front.remove(at).push(members.last()) =~= members.remove(at));
    }
}

/// What removing a user does to a member list that holds one connection
/// per user: the user is gone, everyone else stays, in order.
pub proof fn lemma_without_properties(members: Seq<ConnectionView>, user: Seq<char>)
    requires
        distinct(members),
    ensures
        distinct(without(members, user)),
        !includes(without(members, user), user),
        forall|other: Seq<char>|
            other != user ==> (includes(without(members, user), other) <==> includes(members, other)),
        forall|i: int|
            0 <= i < without(members, user).len() ==> members.contains(
                #[trigger] without(members, user)[i],
            ),
        without(members, user).len() <= members.len(),
{
    let rest = without(members, user);
    if includes(members, user) {
        let at = choose|i: int| 0 <= i < members.len() && (#[trigger] members[i]).username == user;
        lemma_without_at(members, user, at);
        assert forall|i: int| 0 <= i < rest.len() implies rest[i] == members[if i < at {
            i
        } else {
            i + 1
        }] by {}
        assert forall|i: int| 0 <= i < rest.len() implies members.contains(#[trigger] rest[i]) by {
            let k = if i < at {
                i
            } else {
                i + 1
            };
            assert(members[k] == rest[i]);
        }
        assert forall|i: int, j: int|
            0 <= i < rest.len() && 0 <= j < rest.len() && i != j implies (#[trigger] rest[i]).username
            != (#[trigger] rest[j]).username by {
            let ki = if i < at {
                i
            } else {
                i + 1
            };
            let kj = if j < at {
                j
            } else {
                j + 1
            };
            assert(rest[i] == members[ki] && rest[j] == members[kj]);
        }
        if includes(rest, user) {
            let i = choose|i: int| 0 <= i < rest.len() && (#[trigger] rest[i]).username == user;
            let k = if i < at {
                i
            } else {
                i + 1
            };
            assert(rest[i] == members[k]);
            assert(false);
        }
        assert forall|other: Seq<char>| other != user implies (includes(rest, other) <==> includes(
            members,
            other,
        )) by {
            if includes(rest, other) {
                let i = choose|i: int| 0 <= i < rest.len() && (#[trigger] rest[i]).username == other;
                let k = if i < at {
                    i
                } else {
                    i + 1
                };
                assert(members[k].username == other);
            }
            if includes(members, other) {
                let k = choose|k: int|
                    0 <= k < members.len() && (#[trigger] members[k]).username == other;
                let i = if k < at {
                    k
                } else {
                    k - 1
                };
                assert(rest[i].username == other);
            }
        }
    } else {
        lemma_without_absent(members, user);
        assert forall|i: int| 0 <= i < rest.len() implies members.contains(#[trigger] rest[i]) by {
            assert(members[i] == rest[i]);
        }
    }
}

/// What filtering does to a member list that holds one connection per
/// user: what remains passes the test, was there before, and is still
/// one connection per user; whatever passed the test remains.
pub proof fn lemma_filter_members(members: Seq<ConnectionView>, keep: spec_fn(ConnectionView) -> bool)
    requires
        distinct(members),
    ensures
        distinct(members.filter(keep)),
        forall|i: int|
            0 <= i < members.filter(keep).len() ==> keep(#[trigger] members.filter(keep)[i])
                && members.contains(members.filter(keep)[i]),
        forall|k: int|
            0 <= k < members.len() && keep(members[k]) ==> members.filter(keep).contains(
                #[trigger] members[k],
            ),
    decreases members.len(),
{
    reveal(Seq::filter);
    let kept = members.filter(keep);
    if members.len() > 0 {
        let front = members.drop_last();
        let last = members.last();
        let front_kept = front.filter(keep);
        assert forall|i: int, j: int|
            0 <= i < front.len() && 0 <= j < front.len() && i != j implies (#[trigger] front[i]).username
            != (#[trigger] front[j]).username by {
            assert(front[i] == members[i] && front[j] == members[j]);
        }
        lemma_filter_members(front, keep);
        assert forall|i: int| 0 <= i < front_kept.len() implies members.contains(
            #[trigger] front_kept[i],
        ) && front_kept[i].username != last.username by {
            assert(front.contains(front_kept[i]));
            let k = choose|k: int| 0 <= k < front.len() && front[k] == front_kept[i];
            assert(members[k] == front_kept[i]);
            assert(members[members.len() - 1] == last);
        }
        assert(members[members.len() - 1] == last);
        assert forall|i: int| 0 <= i < kept.len() implies keep(#[trigger] kept[i]) && members.contains(
            kept[i],
        ) by {
            if i < front_kept.len() {
                assert(kept[i] == front_kept[i]);
            }
        }
        assert forall|i: int, j: int|
            0 <= i < kept.len() && 0 <= j < kept.len() && i != j implies (#[trigger] kept[i]).username
            != (#[trigger] kept[j]).username by {
            if i < front_kept.len() {
                assert(kept[i] == front_kept[i]);
            }
            if j < front_kept.len() {
                assert(kept[j] == front_kept[j]);
            }
        }
        assert forall|k: int| 0 <= k < members.len() && keep(members[k]) implies kept.contains(
            #[trigger] members[k],
        ) by {
            if k < front.len() {
                assert(front[k] == members[k]);
                assert(front_kept.contains(front[k]));
                let i = choose|i: int| 0 <= i < front_kept.len() && front_kept[i] == front[k];
                assert(kept[i] == members[k]);
            } else {
                assert(kept[kept.len() - 1] == members[k]);
            }
        }
    }
}

/// Dropping a writer preserves the room invariant.
pub proof fn lemma_drop_writer_keeps_wf(room: RoomView, write: WriterId)
    requires
        room.wf(),
    ensures
        room.drop_writer(write).wf(),
{
    let after = room.drop_writer(write);
    lemma_filter_members(room.members, other_writer(write));
    assert forall|i: int| 0 <= i < after.members.len() implies !after.banned.contains(
        (#[trigger] after.members[i]).username,
    ) by {
        assert(room.members.contains(after.members[i]));
        let k = choose|k: int| 0 <= k < room.members.len() && room.members[k] == after.members[i];
        assert(!room.banned.contains(room.members[k].username));
    }
    assert forall|i: int| 0 <= i < after.log.len() implies (#[trigger] after.log[i]).valid() by {
        assert(room.log[i].valid());
    }
}

/// Every transition of a room preserves the room invariant: members stay
/// distinct, no member is banned, and the log holds only valid messages.
pub proof fn lemma_room_transitions_keep_wf(
    room: RoomView,
    user: Seq<char>,
    conn: ConnectionView,
    message: MessageView,
)
    requires
        room.wf(),
    ensures
        room.join(conn).wf(),
        room.kick(user).wf(),
        room.ban(user).wf(),
        room.unban(user).wf(),
        room.mute(user).wf(),
        room.unmute(user).wf(),
        room.promote(user).wf(),
        room.demote(user).wf(),
        room.append(message).wf(),
{
    lemma_wf_kept(room, room.unban(user));
    lemma_wf_kept(room, room.mute(user));
    lemma_wf_kept(room, room.unmute(user));
    lemma_wf_kept(room, room.promote(user));
    lemma_wf_kept(room, room.demote(user));
    assert(room.join(conn).wf()) by {
        let after = room.join(conn);
        if !(room.refuses(conn.username) || room.has_member(conn.username)) {
            let n = room.members.len() as int;
            assert forall|i: int, j: int|
                0 <= i < after.members.len() && 0 <= j < after.members.len() && i != j implies (
            #[trigger] after.members[i]).username != (#[trigger] after.members[j]).username by {
                if i < n && j < n {
                    assert(after.members[i] == room.members[i] && after.members[j]
                        == room.members[j]);
                } else if i < n {
                    assert(after.members[i] == room.members[i]);
                } else {
                    assert(after.members[j] == room.members[j]);
                }
            }
            assert forall|i: int| 0 <= i < after.members.len() implies !after.banned.contains(
                (#[trigger] after.members[i]).username,
            ) by {
                if i < n {
                    assert(after.members[i] == room.members[i]);
                }
            }
            assert forall|i: int| 0 <= i < after.log.len() implies (#[trigger] after.log[i]).valid() by {
                assert(room.log[i].valid());
            }
        }
    }
    lemma_without_properties(room.members, user);
    let rest = without(room.members, user);
    assert forall|i: int| 0 <= i < rest.len() implies !room.banned.contains(
        (#[trigger] rest[i]).username,
    ) && rest[i].username != user by {
        assert(room.members.contains(rest[i]));
        let k = choose|k: int| 0 <= k < room.members.len() && room.members[k] == rest[i];
        assert(!room.banned.contains(room.members[k].username));
        if rest[i].username == user {
            assert(includes(rest, user));
        }
    }
    assert(room.kick(user).wf()) by {
        let after = room.kick(user);
        assert forall|i: int| 0 <= i < after.log.len() implies (#[trigger] after.log[i]).valid() by {
            assert(room.log[i].valid());
        }
    }
    assert(room.ban(user).wf()) by {
        let after = room.ban(user);
        assert forall|i: int| 0 <= i < after.log.len() implies (#[trigger] after.log[i]).valid() by {
            assert(room.log[i].valid());
        }
    }
    assert(room.append(message).wf()) by {
        let after = room.append(message);
        if message.valid() {
            assert forall|i: int| 0 <= i < after.log.len() implies (#[trigger] after.log[i]).valid() by {
                if i < room.log.len() {
                    assert(after.log[i] == room.log[i]);
                }
            }
            assert forall|i: int| 0 <= i < after.members.len() implies !after.banned.contains(
                (#[trigger] after.members[i]).username,
            ) by {
                assert(!room.banned.contains(room.members[i].username));
            }
        }
    }
}

/// A hub stays well formed when a well-formed room is put into it.
pub proof fn lemma_with_room_wf(hub: HubView, id: Seq<char>, room: RoomView)
    requires
        hub.wf(),
        room.wf(),
    ensures
        hub.with_room(id, room).wf(),
        hub.room(id).wf(),
{
    let after = hub.with_room(id, room);
    assert forall|c: Seq<char>| after.rooms.contains_key(c) implies (#[trigger] after.rooms[c]).wf() by {
        if c != id {
            assert(hub.rooms.contains_key(c));
            assert(after.rooms[c] == hub.rooms[c]);
        }
    }
    if hub.has_room(id) {
        assert(hub.rooms[id].wf());
    }
}

/// Every transition of the hub preserves the hub invariant; in
/// particular no operation ever leaves a banned user among the members
/// of a room.
pub proof fn lemma_hub_transitions_keep_wf(
    hub: HubView,
    id: Seq<char>,
    user: Seq<char>,
    conn: ConnectionView,
    message: MessageView,
)
    requires
        hub.wf(),
    ensures
        hub.open_room(id).wf(),
        hub.add_message(message).wf(),
        hub.add_user(id, conn).wf(),
        hub.kick_user(id, user).wf(),
        hub.ban_user(id, user).wf(),
        hub.unban_user(id, user).wf(),
        hub.mute_user(id, user).wf(),
        hub.unmute_user(id, user).wf(),
        hub.add_moderator(id, user).wf(),
        hub.remove_moderator(id, user).wf(),
        hub.remove_connection(conn.write).wf(),
{
    assert forall|c: Seq<char>| hub.remove_connection(conn.write).rooms.contains_key(c) implies (
    #[trigger] hub.remove_connection(conn.write).rooms[c]).wf() by {
        assert(hub.rooms.contains_key(c));
        lemma_drop_writer_keeps_wf(hub.rooms[c], conn.write);
    }
    lemma_with_room_wf(hub, id, RoomView::empty());
    lemma_with_room_wf(hub, message.channel, RoomView::empty());
    lemma_room_transitions_keep_wf(hub.room(id), user, conn, message);
    lemma_room_transitions_keep_wf(hub.room(message.channel), user, conn, message);
    lemma_with_room_wf(hub, id, hub.room(id));
    lemma_with_room_wf(hub, message.channel, hub.room(message.channel).append(message));
    lemma_with_room_wf(hub, id, hub.room(id).join(conn));
    lemma_with_room_wf(hub, id, hub.room(id).kick(user));
    lemma_with_room_wf(hub, id, hub.room(id).ban(user));
    lemma_with_room_wf(hub, id, hub.room(id).unban(user));
    lemma_with_room_wf(hub, id, hub.room(id).mute(user));
    lemma_with_room_wf(hub, id, hub.room(id).unmute(user));
    lemma_with_room_wf(hub, id, hub.room(id).promote(user));
    lemma_with_room_wf(hub, id, hub.room(id).demote(user));
}

/// With one connection per user, what remains after a user was removed
/// is what was there under another name.
pub proof fn lemma_without_contains(members: Seq<ConnectionView>, user: Seq<char>)
    requires
        distinct(members),
    ensures
        forall|m: ConnectionView| #[trigger]
            without(members, user).contains(m) <==> members.contains(m) && m.username != user,
{
    let rest = without(members, user);
    lemma_without_properties(members, user);
    assert forall|m: ConnectionView| #[trigger]
        rest.contains(m) <==> members.contains(m) && m.username != user by {
        if rest.contains(m) {
            let i = choose|i: int| 0 <= i < rest.len() && rest[i] == m;
            assert(members.contains(rest[i]));
            if m.username == user {
                assert(rest[i].username == user);
                assert(includes(rest, user));
            }
        }
        if members.contains(m) && m.username != user {
            let k = choose|k: int| 0 <= k < members.len() && members[k] == m;
            assert(members[k].username == m.username);
            assert(includes(members, m.username));
            assert(includes(rest, m.username));
            let j = choose|j: int| 0 <= j < rest.len() && (#[trigger] rest[j]).username == m.username;
            assert(members.contains(rest[j]));
            let k2 = choose|k2: int| 0 <= k2 < members.len() && members[k2] == rest[j];
            assert(members[k2].username == members[k].username);
            assert(k2 == k);
            assert(rest[j] == m);
        }
    }
}

/// With one connection per user, what remains after filtering is what
/// was there and passes the test.
pub proof fn lemma_filter_contains(members: Seq<ConnectionView>, keep: spec_fn(ConnectionView) -> bool)
    requires
        distinct(members),
    ensures
        forall|m: ConnectionView| #[trigger]
            members.filter(keep).contains(m) <==> members.contains(m) && keep(m),
{
    let kept = members.filter(keep);
    lemma_filter_members(members, keep);
    assert forall|m: ConnectionView| #[trigger] kept.contains(m) <==> members.contains(m) && keep(
        m,
    ) by {
        if kept.contains(m) {
            let i = choose|i: int| 0 <= i < kept.len() && kept[i] == m;
            assert(keep(kept[i]) && members.contains(kept[i]));
        }
        if members.contains(m) && keep(m) {
            let k = choose|k: int| 0 <= k < members.len() && members[k] == m;
            assert(kept.contains(members[k]));
        }
    }
}

/// What the eviction of a dead peer does: a connection stays in a room
/// exactly if it is written through another writer and, in the room
/// the peer was found dead in, belongs to another user. No room is
/// lost, and nothing but membership changes.
pub proof fn lemma_evict(hub: HubView, id: Seq<char>, peer: ConnectionView)
    requires
        hub.wf(),
    ensures
        hub.evict(id, peer).wf(),
        forall|r: Seq<char>| hub.evict(id, peer).has_room(r) == hub.has_room(r),
        forall|r: Seq<char>, m: ConnectionView| #[trigger]
            hub.evict(id, peer).room(r).members.contains(m) <==> hub.room(r).members.contains(m)
                && m.write != peer.write && !(r == id && m.username == peer.username),
        forall|r: Seq<char>|
            {
                let after = #[trigger] hub.evict(id, peer).room(r);
                &&& after.banned == hub.room(r).banned
                &&& after.muted == hub.room(r).muted
                &&& after.moderators == hub.room(r).moderators
                &&& after.log == hub.room(r).log
            },
{
    let kicked = hub.kick_user(id, peer.username);
    let after = hub.evict(id, peer);
    lemma_hub_transitions_keep_wf(hub, id, peer.username, peer, arbitrary());
    lemma_hub_transitions_keep_wf(kicked, id, peer.username, peer, arbitrary());
    assert forall|r: Seq<char>, m: ConnectionView| #[trigger]
        after.room(r).members.contains(m) <==> hub.room(r).members.contains(m) && m.write
            != peer.write && !(r == id && m.username == peer.username) by {
        if hub.has_room(r) {
            assert(hub.rooms[r].wf());
            assert(kicked.has_room(r));
            assert(kicked.rooms[r].wf());
            lemma_without_contains(hub.rooms[r].members, peer.username);
            lemma_filter_contains(kicked.rooms[r].members, other_writer(peer.write));
            assert(after.room(r).members == kicked.rooms[r].members.filter(
                other_writer(peer.write),
            ));
            if r == id {
                assert(kicked.rooms[r].members == without(hub.rooms[r].members, peer.username));
            } else {
                assert(kicked.rooms[r] == hub.rooms[r]);
            }
        } else {
            assert(!after.has_room(r));
            assert(!RoomView::empty().members.contains(m));
        }
    }
}

} // verus!
