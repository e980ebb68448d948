//! The room store and connection registry: one owner for every room's
//! membership, ban, mute and moderator sets and its message log.
use crate::error::HubError;
use crate::message::{ChatMessage, MessageView};
use crate::room::{
    includes, lemma_drop_writer_keeps_wf, lemma_hub_transitions_keep_wf,
    lemma_room_transitions_keep_wf, lemma_with_room_wf, lemma_without_absent, lemma_without_at,
    other_writer, ConnectionView, HubView, RoomView, WriterId,
};
use vstd::hash_map::StringHashMap;
use vstd::hash_set::StringHashSet;
use vstd::prelude::*;
use vstd::string::*;

verus! {

/// A member's live connection: the user and the handle of its write half.
#[derive(Debug)]
pub struct UserConnection {
    pub username: String,
    pub write: WriterId,
}

impl View for UserConnection {
    type V = ConnectionView;

    open spec fn view(&self) -> ConnectionView {
        ConnectionView { username: self.username@, write: self.write }
    }
}

/// Two connections are the same connection when they belong to the
/// same user.
impl PartialEq for UserConnection {
    fn eq(&self, other: &Self) -> (r: bool) {
        self.username == other.username
    }
}

impl Eq for UserConnection {}

impl vstd::std_specs::cmp::PartialEqSpecImpl for UserConnection {
    open spec fn obeys_eq_spec() -> bool {
        true
    }

    open spec fn eq_spec(&self, other: &Self) -> bool {
        self.username@ == other.username@
    }
}

impl Clone for UserConnection {
    fn clone(&self) -> (r: Self)
        ensures
            r == *self,
    {
        UserConnection { username: self.username.clone(), write: self.write }
    }
}

/// The models of a list of connections.
pub open spec fn connections_view(users: Seq<UserConnection>) -> Seq<ConnectionView> {
    users.map_values(|u: UserConnection| u@)
}

/// The models of a list of messages.
pub open spec fn messages_view(messages: Seq<ChatMessage>) -> Seq<MessageView> {
    messages.map_values(|m: ChatMessage| m@)
}

/// Copies a list of connections.
pub fn copy_connections(users: &Vec<UserConnection>) -> (copy: Vec<UserConnection>)
    ensures
        copy@ == users@,
{
    let mut copy: Vec<UserConnection> = Vec::new();
    let mut k: usize = 0;
    while k < users.len()
        invariant
            k <= users.len(),
            copy@ == users@.take(k as int),
        decreases users.len() - k,
    {
        copy.push(users[k].clone());
        assert(users@.take(k as int).push(users@[k as int]) =~= users@.take(k + 1));
        k = k + 1;
    }
    assert(users@.take(users.len() as int) =~= users@);
    copy
}

/// One room as stored: its name and everything kept about it.
struct Room {
    name: String,
    users: Vec<UserConnection>,
    banned: StringHashSet,
    muted: StringHashSet,
    moderators: StringHashSet,
    messages: Vec<ChatMessage>,
}

impl View for Room {
    type V = RoomView;

    closed spec fn view(&self) -> RoomView {
        RoomView {
            members: connections_view(self.users@),
            banned: self.banned@,
            muted: self.muted@,
            moderators: self.moderators@,
            log: messages_view(self.messages@),
        }
    }
}

impl Room {
    fn new(name: String) -> (r: Room)
        ensures
            r.name == name,
            r@ == RoomView::empty(),
    {
        let r = Room {
            name,
            users: Vec::new(),
            banned: StringHashSet::new(),
            muted: StringHashSet::new(),
            moderators: StringHashSet::new(),
            messages: Vec::new(),
        };
        assert(r@.members =~= RoomView::empty().members);
        assert(r@.log =~= RoomView::empty().log);
        r
    }

    fn position(&self, user: &str) -> (r: Option<usize>)
        ensures
            match r {
                Some(i) => i < self.users.len() && self.users[i as int].username@ == user@,
                None => !self@.has_member(user@),
            },
    {
        let wanted = user.to_owned();
        let mut i: usize = 0;
        while i < self.users.len()
            invariant
                i <= self.users.len(),
                wanted@ == user@,
                forall|j: int| 0 <= j < i ==> self.users@[j].username@ != user@,
            decreases self.users.len() - i,
        {
            if self.users[i].username == wanted {
                return Some(i);
            }
            i = i + 1;
        }
        assert forall|j: int| 0 <= j < self@.members.len() implies (#[trigger] self@.members[j]).username
            != user@ by {
            assert(self@.members[j] == self.users@[j]@);
        }
        None
    }

    fn remove_member(&mut self, user: &str)
        requires
            old(self)@.wf(),
        ensures
            final(self)@ == old(self)@.kick(user@),
            final(self)@.wf(),
            final(self).name == old(self).name,
    {
        match self.position(user) {
            Some(i) => {
                proof {
                    assert(self@.members[i as int] == self.users@[i as int]@);
                    lemma_without_at(self@.members, user@, i as int);
                }
                self.users.remove(i);
                assert(connections_view(self.users@) =~= connections_view(old(self).users@).remove(
                    i as int,
                ));
            },
            None => {
                proof {
                    lemma_without_absent(self@.members, user@);
                }
            },
        }
        proof {
            lemma_room_transitions_keep_wf(old(self)@, user@, arbitrary(), arbitrary());
        }
    }

    fn ban(&mut self, user: &str)
        requires
            old(self)@.wf(),
        ensures
            final(self)@ == old(self)@.ban(user@),
            final(self)@.wf(),
            final(self).name == old(self).name,
    {
        self.remove_member(user);
        self.banned.insert(user.to_owned());
        proof {
            lemma_room_transitions_keep_wf(old(self)@, user@, arbitrary(), arbitrary());
        }
    }

    fn unban(&mut self, user: &str)
        requires
            old(self)@.wf(),
        ensures
            final(self)@ == old(self)@.unban(user@),
            final(self)@.wf(),
            final(self).name == old(self).name,
    {
        self.banned.remove(user);
        proof {
            lemma_room_transitions_keep_wf(old(self)@, user@, arbitrary(), arbitrary());
        }
    }

    fn mute(&mut self, user: &str)
        requires
            old(self)@.wf(),
        ensures
            final(self)@ == old(self)@.mute(user@),
            final(self)@.wf(),
            final(self).name == old(self).name,
    {
        self.muted.insert(user.to_owned());
        proof {
            lemma_room_transitions_keep_wf(old(self)@, user@, arbitrary(), arbitrary());
        }
    }

    fn unmute(&mut self, user: &str)
        requires
            old(self)@.wf(),
        ensures
            final(self)@ == old(self)@.unmute(user@),
            final(self)@.wf(),
            final(self).name == old(self).name,
    {
        self.muted.remove(user);
        proof {
            lemma_room_transitions_keep_wf(old(self)@, user@, arbitrary(), arbitrary());
        }
    }

    fn promote(&mut self, user: &str)
        requires
            old(self)@.wf(),
        ensures
            final(self)@ == old(self)@.promote(user@),
            final(self)@.wf(),
            final(self).name == old(self).name,
    {
        self.moderators.insert(user.to_owned());
        proof {
            lemma_room_transitions_keep_wf(old(self)@, user@, arbitrary(), arbitrary());
        }
    }

    fn demote(&mut self, user: &str)
        requires
            old(self)@.wf(),
        ensures
            final(self)@ == old(self)@.demote(user@),
            final(self)@.wf(),
            final(self).name == old(self).name,
    {
        self.moderators.remove(user);
        proof {
            lemma_room_transitions_keep_wf(old(self)@, user@, arbitrary(), arbitrary());
        }
    }

    fn join(&mut self, conn: UserConnection)
        requires
            old(self)@.wf(),
        ensures
            final(self)@ == old(self)@.join(conn@),
            final(self)@.wf(),
            final(self).name == old(self).name,
    {
        proof {
            lemma_room_transitions_keep_wf(old(self)@, arbitrary(), conn@, arbitrary());
        }
        if self.banned.contains(conn.username.as_str()) {
            return ;
        }
        if let Some(i) = self.position(conn.username.as_str()) {
            assert(self@.members[i as int] == self.users@[i as int]@);
            return ;
        }
        self.users.push(conn);
        proof {
            assert(connections_view(self.users@) =~= connections_view(old(self).users@).push(conn@));
        }
    }

    fn drop_writer(&mut self, write: WriterId)
        requires
            old(self)@.wf(),
        ensures
            final(self)@ == old(self)@.drop_writer(write),
            final(self)@.wf(),
            final(self).name == old(self).name,
    {
        let ghost keep = other_writer(write);
        let mut kept: Vec<UserConnection> = Vec::new();
        let mut j: usize = 0;
        proof {
            reveal(Seq::filter);
            assert(connections_view(self.users@.take(0)) =~= Seq::<ConnectionView>::empty());
            assert(connections_view(kept@) =~= Seq::<ConnectionView>::empty());
        }
        while j < self.users.len()
            invariant
                j <= self.users.len(),
                keep == other_writer(write),
                connections_view(kept@) == connections_view(self.users@.take(j as int)).filter(keep),
            decreases self.users.len() - j,
        {
            proof {
                let seen = connections_view(self.users@.take(j as int));
                assert(connections_view(self.users@.take(j + 1)) =~= seen.push(self.users@[j as int]@));
                seen.lemma_filter_push(self.users@[j as int]@, keep);
            }
            if self.users[j].write != write {
                let ghost before = connections_view(kept@);
                kept.push(self.users[j].clone());
                assert(connections_view(kept@) =~= before.push(self.users@[j as int]@));
            }
            j = j + 1;
        }
        assert(self.users@.take(self.users.len() as int) =~= self.users@);
        self.users = kept;
        proof {
            lemma_drop_writer_keeps_wf(old(self)@, write);
        }
    }

    fn append(&mut self, message: ChatMessage)
        requires
            old(self)@.wf(),
            message@.valid(),
        ensures
            final(self)@ == old(self)@.append(message@),
            final(self)@.wf(),
            final(self).name == old(self).name,
    {
        self.messages.push(message);
        proof {
            assert(messages_view(self.messages@) =~= messages_view(old(self).messages@).push(
                message@,
            ));
            lemma_room_transitions_keep_wf(old(self)@, arbitrary(), arbitrary(), message@);
        }
    }
}

/// The shared hub state: every room, found by its identifier.
pub struct ChannelManager {
    index: StringHashMap<usize>,
    rooms: Vec<Room>,
}

impl View for ChannelManager {
    type V = HubView;

    closed spec fn view(&self) -> HubView {
        HubView {
            rooms: Map::new(
                |id: Seq<char>| self.index@.contains_key(id),
                |id: Seq<char>| self.rooms@[self.index@[id] as int]@,
            ),
        }
    }
}

impl ChannelManager {
    /// The index and the room arena describe the same rooms.
    pub closed spec fn inv(&self) -> bool {
        &&& forall|id: Seq<char>| #[trigger]
            self.index@.contains_key(id) ==> self.index@[id] < self.rooms.len()
                && self.rooms@[self.index@[id] as int].name@ == id
        &&& forall|i: int|
            0 <= i < self.rooms.len() ==> self.index@.contains_key(
                (#[trigger] self.rooms@[i]).name@,
            ) && self.index@[self.rooms@[i].name@] == i
    }

    /// The manager is consistent and every room satisfies the room invariant.
    pub open spec fn wf(&self) -> bool {
        self.inv() && self@.wf()
    }

    /// Replacing the room in one slot replaces one room of the model.
    proof fn lemma_slot_replaced(before: ChannelManager, after: ChannelManager, i: int, id: Seq<char>)
        requires
            before.inv(),
            before.index@.contains_key(id),
            before.index@[id] == i,
            after.index@ == before.index@,
            after.rooms.len() == before.rooms.len(),
            after.rooms@[i].name == before.rooms@[i].name,
            forall|j: int| 0 <= j < before.rooms.len() && j != i ==> after.rooms@[j] == before.rooms@[j],
        ensures
            after.inv(),
            after@ == before@.with_room(id, after.rooms@[i]@),
    {
        assert forall|c: Seq<char>| #[trigger] after.index@.contains_key(c) implies after.index@[c]
            < after.rooms.len() && after.rooms@[after.index@[c] as int].name@ == c by {
            assert(before.index@.contains_key(c));
        }
        assert forall|j: int| 0 <= j < after.rooms.len() implies after.index@.contains_key(
            (#[trigger] after.rooms@[j]).name@,
        ) && after.index@[after.rooms@[j].name@] == j by {
            assert(before.rooms@[j].name == after.rooms@[j].name);
        }
        assert forall|c: Seq<char>|
            after.index@.contains_key(c) && c != id implies after.rooms@[after.index@[c] as int]
            == before.rooms@[before.index@[c] as int] by {
            assert(before.index@.contains_key(c));
            assert(before.index@.contains_key(id));
        }
        assert(after@.rooms =~= before@.with_room(id, after.rooms@[i]@).rooms);
    }

    /// A hub without rooms.
    pub fn new() -> (m: Self)
        ensures
            m.wf(),
            m@ == HubView::empty(),
    {
        let m = ChannelManager { index: StringHashMap::new(), rooms: Vec::new() };
        assert(m@.rooms =~= HubView::empty().rooms);
        m
    }

    fn slot(&self, id: &str) -> (r: Option<usize>)
        requires
            self.inv(),
        ensures
            match r {
                Some(i) => self@.has_room(id@) && i < self.rooms.len() && self.index@.contains_key(
                    id@,
                ) && self.index@[id@] == i && self.rooms@[i as int]@ == self@.rooms[id@],
                None => !self@.has_room(id@),
            },
    {
        match self.index.get(id) {
            Some(i) => Some(*i),
            None => None,
        }
    }

    fn open_slot(&mut self, id: &str) -> (i: usize)
        requires
            old(self).wf(),
        ensures
            final(self).wf(),
            final(self)@ == old(self)@.open_room(id@),
            i < final(self).rooms.len(),
            final(self).index@.contains_key(id@),
            final(self).index@[id@] == i,
            final(self).rooms@[i as int]@ == old(self)@.room(id@),
    {
        match self.slot(id) {
            Some(i) => {
                assert(self@.rooms =~= old(self)@.open_room(id@).rooms);
                i
            },
            None => {
                let i = self.rooms.len();
                self.rooms.push(Room::new(id.to_owned()));
                self.index.insert(id.to_owned(), i);
                proof {
                    assert forall|c: Seq<char>| #[trigger]
                        self.index@.contains_key(c) implies self.index@[c] < self.rooms.len()
                        && self.rooms@[self.index@[c] as int].name@ == c by {
                        if c != id@ {
                            assert(old(self).index@.contains_key(c));
                        }
                    }
                    assert forall|j: int| 0 <= j < self.rooms.len() implies self.index@.contains_key(
                        (#[trigger] self.rooms@[j]).name@,
                    ) && self.index@[self.rooms@[j].name@] == j by {
                        if j < i {
                            assert(self.rooms@[j] == old(self).rooms@[j]);
                            assert(old(self).index@.contains_key(old(self).rooms@[j].name@));
                        }
                    }
                    assert forall|c: Seq<char>|
                        self.index@.contains_key(c) && c != id@ implies self.rooms@[self.index@[c] as int]
                        == old(self).rooms@[old(self).index@[c] as int] by {
                        assert(old(self).index@.contains_key(c));
                    }
                    assert(self@.rooms =~= old(self)@.open_room(id@).rooms);
                    lemma_with_room_wf(old(self)@, id@, RoomView::empty());
                }
                i
            },
        }
    }

    /// Whether room `channel` exists.
    pub fn has_channel(&self, channel: &str) -> (b: bool)
        requires
            self.wf(),
        ensures
            b == self@.has_room(channel@),
    {
        self.slot(channel).is_some()
    }

    /// Creates room `channel`; fails if the identifier is taken.
    pub fn create_room(&mut self, channel: &str) -> (r: Result<(), HubError>)
        requires
            old(self).wf(),
        ensures
            final(self).wf(),
            old(self)@.has_room(channel@) ==> r == Err::<(), HubError>(HubError::AlreadyExists)
                && final(self)@ == old(self)@,
            !old(self)@.has_room(channel@) ==> r is Ok && final(self)@ == old(self)@.open_room(
                channel@,
            ),
    {
        if self.slot(channel).is_some() {
            return Err(HubError::AlreadyExists);
        }
        let _ = self.open_slot(channel);
        Ok(())
    }

    /// Makes sure room `channel` exists; tells whether it had to be created.
    pub fn get_or_create_channel(&mut self, channel: &str) -> (created: bool)
        requires
            old(self).wf(),
        ensures
            final(self).wf(),
            final(self)@ == old(self)@.open_room(channel@),
            created == !old(self)@.has_room(channel@),
    {
        let created = self.slot(channel).is_none();
        let _ = self.open_slot(channel);
        created
    }

    /// Appends `message` to the log of its channel, creating the channel on
    /// first reference. A message over the content bound is refused and
    /// leaves the hub as it was.
    pub fn add_message(&mut self, message: ChatMessage) -> (r: Result<(), HubError>)
        requires
            old(self).wf(),
        ensures
            final(self).wf(),
            final(self)@ == old(self)@.add_message(message@),
            message@.valid() ==> r is Ok,
            !message@.valid() ==> r == Err::<(), HubError>(HubError::ContentTooLong),
    {
        if !message.is_valid() {
            return Err(HubError::ContentTooLong);
        }
        let i = self.open_slot(message.channel.as_str());
        let ghost opened = *self;
        let ghost channel = message.channel@;
        self.rooms[i].append(message);
        proof {
            Self::lemma_slot_replaced(opened, *self, i as int, channel);
            lemma_with_room_wf(opened@, channel, self.rooms@[i as int]@);
            assert(self@.rooms =~= old(self)@.add_message(message@).rooms);
        }
        Ok(())
    }

    /// The log of room `channel`, oldest message first.
    pub fn get_channel_messages(&self, channel: &str) -> (r: Option<&Vec<ChatMessage>>)
        requires
            self.wf(),
        ensures
            match r {
                Some(log) => self@.has_room(channel@) && messages_view(log@) == self@.rooms[channel@].log,
                None => !self@.has_room(channel@),
            },
    {
        match self.slot(channel) {
            Some(i) => Some(&self.rooms[i].messages),
            None => None,
        }
    }

    /// Registers `user` as a member of room `channel`, creating the room
    /// on first reference. A banned user is refused before anything
    /// changes; a user who is a member already keeps the connection
    /// registered first.
    pub fn add_user(&mut self, channel: &str, user: UserConnection) -> (r: Result<(), HubError>)
        requires
            old(self).wf(),
        ensures
            final(self).wf(),
            final(self)@ == old(self)@.add_user(channel@, user@),
            old(self)@.is_banned(channel@, user.username@) ==> r == Err::<(), HubError>(
                HubError::Banned,
            ),
            !old(self)@.is_banned(channel@, user.username@) ==> r is Ok,
    {
        if self.is_banned(channel, user.username.as_str()) {
            return Err(HubError::Banned);
        }
        let i = self.open_slot(channel);
        let ghost opened = *self;
        self.rooms[i].join(user);
        proof {
            Self::lemma_slot_replaced(opened, *self, i as int, channel@);
            lemma_with_room_wf(opened@, channel@, self.rooms@[i as int]@);
            assert(self@.rooms =~= old(self)@.add_user(channel@, user@).rooms);
        }
        Ok(())
    }

    /// The connections registered in room `channel`, in joining order.
    pub fn get_connected_users(&self, channel: &str) -> (r: Option<&Vec<UserConnection>>)
        requires
            self.wf(),
        ensures
            match r {
                Some(users) => self@.has_room(channel@) && connections_view(users@)
                    == self@.rooms[channel@].members,
                None => !self@.has_room(channel@),
            },
    {
        match self.slot(channel) {
            Some(i) => Some(&self.rooms[i].users),
            None => None,
        }
    }

    /// A point-in-time copy of the connections registered in room
    /// `channel`; later changes to the hub do not show in it.
    pub fn snapshot(&self, channel: &str) -> (copy: Vec<UserConnection>)
        requires
            self.wf(),
        ensures
            connections_view(copy@) == self@.room(channel@).members,
    {
        match self.slot(channel) {
            Some(i) => copy_connections(&self.rooms[i].users),
            None => {
                let copy: Vec<UserConnection> = Vec::new();
                assert(connections_view(copy@) =~= self@.room(channel@).members);
                copy
            },
        }
    }

    /// Removes `user` from room `channel`. Bans are left alone, so the user
    /// may join again.
    pub fn kick_user(&mut self, channel: &str, user: &str)
        requires
            old(self).wf(),
        ensures
            final(self).wf(),
            final(self)@ == old(self)@.kick_user(channel@, user@),
    {
        match self.slot(channel) {
            Some(i) => {
                self.rooms[i].remove_member(user);
                proof {
                    Self::lemma_slot_replaced(*old(self), *self, i as int, channel@);
                    lemma_with_room_wf(old(self)@, channel@, self.rooms@[i as int]@);
                }
            },
            None => {},
        }
    }

    /// Bans `user` from room `channel` and removes the user from its members.
    pub fn ban_user(&mut self, channel: &str, user: &str)
        requires
            old(self).wf(),
        ensures
            final(self).wf(),
            final(self)@ == old(self)@.ban_user(channel@, user@),
    {
        let i = self.open_slot(channel);
        let ghost opened = *self;
        self.rooms[i].ban(user);
        proof {
            Self::lemma_slot_replaced(opened, *self, i as int, channel@);
            lemma_with_room_wf(opened@, channel@, self.rooms@[i as int]@);
            assert(self@.rooms =~= old(self)@.ban_user(channel@, user@).rooms);
        }
    }

    /// Lifts the ban on `user`; membership is not restored.
    pub fn unban_user(&mut self, channel: &str, user: &str)
        requires
            old(self).wf(),
        ensures
            final(self).wf(),
            final(self)@ == old(self)@.unban_user(channel@, user@),
    {
        match self.slot(channel) {
            Some(i) => {
                self.rooms[i].unban(user);
                proof {
                    Self::lemma_slot_replaced(*old(self), *self, i as int, channel@);
                    lemma_with_room_wf(old(self)@, channel@, self.rooms@[i as int]@);
                }
            },
            None => {},
        }
    }

    /// Mutes `user` in room `channel`; membership is not affected.
    pub fn mute_user(&mut self, channel: &str, user: &str)
        requires
            old(self).wf(),
        ensures
            final(self).wf(),
            final(self)@ == old(self)@.mute_user(channel@, user@),
    {
        let i = self.open_slot(channel);
        let ghost opened = *self;
        self.rooms[i].mute(user);
        proof {
            Self::lemma_slot_replaced(opened, *self, i as int, channel@);
            lemma_with_room_wf(opened@, channel@, self.rooms@[i as int]@);
            assert(self@.rooms =~= old(self)@.mute_user(channel@, user@).rooms);
        }
    }

    /// Lifts the mute on `user`.
    pub fn unmute_user(&mut self, channel: &str, user: &str)
        requires
            old(self).wf(),
        ensures
            final(self).wf(),
            final(self)@ == old(self)@.unmute_user(channel@, user@),
    {
        match self.slot(channel) {
            Some(i) => {
                self.rooms[i].unmute(user);
                proof {
                    Self::lemma_slot_replaced(*old(self), *self, i as int, channel@);
                    lemma_with_room_wf(old(self)@, channel@, self.rooms@[i as int]@);
                }
            },
            None => {},
        }
    }

    /// Grants `user` moderator rights in room `channel`.
    pub fn add_moderator(&mut self, channel: &str, user: &str)
        requires
            old(self).wf(),
        ensures
            final(self).wf(),
            final(self)@ == old(self)@.add_moderator(channel@, user@),
    {
        let i = self.open_slot(channel);
        let ghost opened = *self;
        self.rooms[i].promote(user);
        proof {
            Self::lemma_slot_replaced(opened, *self, i as int, channel@);
            lemma_with_room_wf(opened@, channel@, self.rooms@[i as int]@);
            assert(self@.rooms =~= old(self)@.add_moderator(channel@, user@).rooms);
        }
    }

    /// Withdraws moderator rights from `user`.
    pub fn remove_moderator(&mut self, channel: &str, user: &str)
        requires
            old(self).wf(),
        ensures
            final(self).wf(),
            final(self)@ == old(self)@.remove_moderator(channel@, user@),
    {
        match self.slot(channel) {
            Some(i) => {
                self.rooms[i].demote(user);
                proof {
                    Self::lemma_slot_replaced(*old(self), *self, i as int, channel@);
                    lemma_with_room_wf(old(self)@, channel@, self.rooms@[i as int]@);
                }
            },
            None => {},
        }
    }

    /// Whether `user` is muted in room `channel`.
    pub fn is_muted(&self, channel: &str, user: &str) -> (b: bool)
        requires
            self.wf(),
        ensures
            b == self@.is_muted(channel@, user@),
    {
        match self.slot(channel) {
            Some(i) => self.rooms[i].muted.contains(user),
            None => false,
        }
    }

    /// Whether `user` is banned from room `channel`.
    pub fn is_banned(&self, channel: &str, user: &str) -> (b: bool)
        requires
            self.wf(),
        ensures
            b == self@.is_banned(channel@, user@),
    {
        match self.slot(channel) {
            Some(i) => self.rooms[i].banned.contains(user),
            None => false,
        }
    }

    /// Whether `user` holds moderator rights in room `channel`.
    pub fn is_moderator(&self, channel: &str, user: &str) -> (b: bool)
        requires
            self.wf(),
        ensures
            b == self@.is_moderator(channel@, user@),
    {
        match self.slot(channel) {
            Some(i) => self.rooms[i].moderators.contains(user),
            None => false,
        }
    }

    /// Removes the connections written through `write` from every room.
    /// Called when that socket has closed or failed.
    pub fn remove_connection(&mut self, write: WriterId)
        requires
            old(self).wf(),
        ensures
            final(self).wf(),
            final(self)@ == old(self)@.remove_connection(write),
    {
        let mut k: usize = 0;
        while k < self.rooms.len()
            invariant
                k <= self.rooms.len(),
                old(self).wf(),
                self.index@ == old(self).index@,
                self.rooms.len() == old(self).rooms.len(),
                forall|j: int|
                    0 <= j < self.rooms.len() ==> (#[trigger] self.rooms@[j]).name
                        == old(self).rooms@[j].name,
                forall|j: int|
                    0 <= j < k ==> (#[trigger] self.rooms@[j])@ == old(self).rooms@[j]@.drop_writer(
                        write,
                    ),
                forall|j: int| k <= j < self.rooms.len() ==> self.rooms@[j] == old(self).rooms@[j],
            decreases self.rooms.len() - k,
        {
            proof {
                let name = old(self).rooms@[k as int].name@;
                assert(old(self).index@.contains_key(name));
                assert(old(self)@.rooms.contains_key(name));
                assert(old(self)@.rooms[name].wf());
            }
            self.rooms[k].drop_writer(write);
            k = k + 1;
        }
        proof {
            assert forall|c: Seq<char>| #[trigger]
                self.index@.contains_key(c) implies self.index@[c] < self.rooms.len()
                && self.rooms@[self.index@[c] as int].name@ == c by {
                assert(old(self).index@.contains_key(c));
            }
            assert forall|j: int| 0 <= j < self.rooms.len() implies self.index@.contains_key(
                (#[trigger] self.rooms@[j]).name@,
            ) && self.index@[self.rooms@[j].name@] == j by {
                assert(old(self).rooms@[j].name == self.rooms@[j].name);
            }
            assert forall|c: Seq<char>| self@.rooms.contains_key(c) implies self@.rooms[c]
                == old(self)@.rooms[c].drop_writer(write) by {
                assert(old(self).index@.contains_key(c));
            }
            assert(self@.rooms =~= old(self)@.remove_connection(write).rooms);
            lemma_hub_transitions_keep_wf(
                old(self)@,
                arbitrary(),
                arbitrary(),
                ConnectionView { username: arbitrary(), write },
                arbitrary(),
            );
        }
    }

    /// Whether `user` is a member of room `channel`.
    pub fn is_member(&self, channel: &str, user: &str) -> (b: bool)
        requires
            self.wf(),
        ensures
            b == self@.is_member(channel@, user@),
    {
        match self.slot(channel) {
            Some(i) => {
                let found = self.rooms[i].position(user);
                proof {
                    if let Some(k) = found {
                        let room = self.rooms@[i as int];
                        assert(room@.members[k as int] == room.users@[k as int]@);
                    }
                }
                found.is_some()
            },
            None => {
                assert(!includes(self@.room(channel@).members, user@));
                false
            },
        }
    }
}

} // verus!
