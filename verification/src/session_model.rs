//! The mathematical model of the game-room session machine: connected
//! players, the rooms they sit in, and the events each client message
//! produces.
use crate::error::HubError;
use crate::message::ModerationCommand;
use crate::room::{
    includes, lemma_hub_transitions_keep_wf, lemma_without_properties, without, ConnectionView,
    HubView, WriterId,
};
use vstd::prelude::*;

verus! {

/// Model of a player's last reported board.
pub struct BoardView {
    pub grid: Seq<Seq<u8>>,
    pub piece: Seq<char>,
}

/// Model of a connected player.
pub struct PlayerView {
    pub write: WriterId,
    pub ready: bool,
    /// The room the connection is associated with, if any.
    pub room: Option<Seq<char>>,
    pub board: Option<BoardView>,
}

/// Model of a message from a client.
pub enum ClientEvent {
    CreateRoom { room_id: Seq<char> },
    JoinRoom { room_id: Seq<char> },
    LeaveRoom,
    Ready { ready: bool },
    BoardUpdate { board: Seq<Seq<u8>>, piece: Seq<char> },
}

/// Model of a message to a client.
pub enum ServerEvent {
    Connected { player_id: Seq<char> },
    RoomCreated { room_id: Seq<char> },
    JoinedRoom { room_id: Seq<char> },
    PlayerJoined { player_id: Seq<char> },
    PlayerLeft { player_id: Seq<char> },
    PlayerReady { player_id: Seq<char>, ready: bool },
    BoardUpdate { player_id: Seq<char>, board: Seq<Seq<u8>>, piece: Seq<char> },
    Error { message: Seq<char> },
}

/// Model of one message and the connections it is to be written to.
pub struct DispatchView {
    pub message: ServerEvent,
    pub recipients: Seq<ConnectionView>,
}

/// Model of the session machine's state.
#[verifier::ext_equal]
pub struct SessionView {
    pub hub: HubView,
    pub players: Map<Seq<char>, PlayerView>,
}

/// The state a transition leads to and the messages it sends.
pub struct Step {
    pub state: SessionView,
    pub out: Seq<DispatchView>,
}

impl SessionView {
    /// The state without rooms or players.
    pub open spec fn empty() -> Self {
        SessionView { hub: HubView::empty(), players: Map::empty() }
    }

    /// Whether a player is connected under `player`.
    pub open spec fn is_connected(self, player: Seq<char>) -> bool {
        self.players.contains_key(player)
    }

    /// The connection a connected player is reached through.
    pub open spec fn connection(self, player: Seq<char>) -> ConnectionView {
        ConnectionView { username: player, write: self.players[player].write }
    }

    /// Every player's room reference names a room that lists the player.
    pub open spec fn rooms_list_players(self) -> bool {
        forall|p: Seq<char>| #[trigger]
            self.players.contains_key(p) && self.players[p].room is Some ==> self.hub.has_room(
                self.players[p].room->0,
            ) && includes(self.hub.rooms[self.players[p].room->0].members, p)
    }

    /// Every member of a room is a connected player whose room reference
    /// names that room and whose writer is the one registered.
    pub open spec fn members_are_players(self) -> bool {
        forall|r: Seq<char>, i: int|
            self.hub.rooms.contains_key(r) && 0 <= i < self.hub.rooms[r].members.len() ==> {
                let m = #[trigger] self.hub.rooms[r].members[i];
                &&& self.players.contains_key(m.username)
                &&& self.players[m.username].room == Some(r)
                &&& self.players[m.username].write == m.write
            }
    }

    /// The session invariant: the hub is well formed, and room membership
    /// and the players' room references describe each other.
    pub open spec fn wf(self) -> bool {
        &&& self.hub.wf()
        &&& self.rooms_list_players()
        &&& self.members_are_players()
    }

    /// One message for the player alone.
    pub open spec fn reply(self, player: Seq<char>, message: ServerEvent) -> DispatchView {
        DispatchView { message, recipients: seq![self.connection(player)] }
    }

    /// The error report sent to a player whose request was refused.
    pub open spec fn refusal(self, player: Seq<char>, error: HubError) -> DispatchView {
        self.reply(player, ServerEvent::Error { message: error.spec_message() })
    }

    /// The state with `record` as the record of `player`.
    pub open spec fn with_player(self, player: Seq<char>, record: PlayerView) -> Self {
        SessionView { players: self.players.insert(player, record), ..self }
    }

    /// Registers a new connection. An identifier that is taken is refused.
    pub open spec fn connect(self, player: Seq<char>, write: WriterId) -> Self {
        if self.is_connected(player) {
            self
        } else {
            self.with_player(player, PlayerView { write, ready: false, room: None, board: None })
        }
    }

    /// The state after `player` has been taken out of its room.
    pub open spec fn vacate(self, player: Seq<char>) -> Self {
        match self.players[player].room {
            Some(room) => SessionView {
                hub: self.hub.kick_user(room, player),
                players: self.players.insert(
                    player,
                    PlayerView { room: None, ..self.players[player] },
                ),
            },
            None => self,
        }
    }

    /// The notice that goes out when `player` has left its room.
    pub open spec fn departure(self, player: Seq<char>) -> Seq<DispatchView> {
        match self.players[player].room {
            Some(room) => seq![
                DispatchView {
                    message: ServerEvent::PlayerLeft { player_id: player },
                    recipients: without(self.hub.room(room).members, player),
                },
            ],
            None => seq![],
        }
    }

    /// What a message to the members of the player's room looks like;
    /// a player outside any room reaches nobody.
    pub open spec fn to_room(self, player: Seq<char>, message: ServerEvent) -> Seq<DispatchView> {
        match self.players[player].room {
            Some(room) => seq![
                DispatchView { message, recipients: self.hub.room(room).members },
            ],
            None => seq![],
        }
    }

    /// What `CreateRoom` does: the room must be new and the player seated
    /// nowhere; the player becomes its sole member and is told so.
    pub open spec fn create_room(self, player: Seq<char>, room: Seq<char>) -> Step {
        if self.hub.has_room(room) {
            Step { state: self, out: seq![self.refusal(player, HubError::AlreadyExists)] }
        } else if self.players[player].room is Some {
            Step { state: self, out: seq![self.refusal(player, HubError::AlreadyInRoom)] }
        } else {
            Step {
                state: SessionView {
                    hub: self.hub.add_user(room, self.connection(player)),
                    players: self.players.insert(
                        player,
                        PlayerView { room: Some(room), ..self.players[player] },
                    ),
                },
                out: seq![self.reply(player, ServerEvent::RoomCreated { room_id: room })],
            }
        }
    }

    /// What `JoinRoom` does: the room must exist and must not have banned
    /// the player, who must be seated nowhere else. The player is told it
    /// has joined and the members present are told of the newcomer; joining
    /// the room one sits in already is confirmed and changes nothing.
    pub open spec fn join_room(self, player: Seq<char>, room: Seq<char>) -> Step {
        if !self.hub.has_room(room) {
            Step { state: self, out: seq![self.refusal(player, HubError::NotFound)] }
        } else if self.hub.is_banned(room, player) {
            Step { state: self, out: seq![self.refusal(player, HubError::Banned)] }
        } else if self.players[player].room == Some(room) {
            Step {
                state: self,
                out: seq![self.reply(player, ServerEvent::JoinedRoom { room_id: room })],
            }
        } else if self.players[player].room is Some {
            Step { state: self, out: seq![self.refusal(player, HubError::AlreadyInRoom)] }
        } else {
            Step {
                state: SessionView {
                    hub: self.hub.add_user(room, self.connection(player)),
                    players: self.players.insert(
                        player,
                        PlayerView { room: Some(room), ..self.players[player] },
                    ),
                },
                out: seq![
                    self.reply(player, ServerEvent::JoinedRoom { room_id: room }),
                    DispatchView {
                        message: ServerEvent::PlayerJoined { player_id: player },
                        recipients: self.hub.room(room).members,
                    },
                ],
            }
        }
    }

    /// What `LeaveRoom` does: the player leaves its room and the members
    /// that remain are told; outside any room nothing happens.
    pub open spec fn leave_room(self, player: Seq<char>) -> Step {
        Step { state: self.vacate(player), out: self.departure(player) }
    }

    /// What `Ready` does: the flag is recorded and announced to the
    /// members of the player's room.
    pub open spec fn set_ready(self, player: Seq<char>, ready: bool) -> Step {
        Step {
            state: self.with_player(player, PlayerView { ready, ..self.players[player] }),
            out: self.to_room(player, ServerEvent::PlayerReady { player_id: player, ready }),
        }
    }

    /// What `BoardUpdate` does: the board is recorded and announced to the
    /// members of the player's room.
    pub open spec fn update_board(self, player: Seq<char>, grid: Seq<Seq<u8>>, piece: Seq<char>) -> Step {
        Step {
            state: self.with_player(
                player,
                PlayerView { board: Some(BoardView { grid, piece }), ..self.players[player] },
            ),
            out: self.to_room(
                player,
                ServerEvent::BoardUpdate { player_id: player, board: grid, piece },
            ),
        }
    }

    /// What a message from `player` does. A message under an identifier
    /// that is not connected changes nothing and is answered by nothing.
    pub open spec fn step(self, player: Seq<char>, event: ClientEvent) -> Step {
        if !self.is_connected(player) {
            Step { state: self, out: seq![] }
        } else {
            match event {
                ClientEvent::CreateRoom { room_id } => self.create_room(player, room_id),
                ClientEvent::JoinRoom { room_id } => self.join_room(player, room_id),
                ClientEvent::LeaveRoom => self.leave_room(player),
                ClientEvent::Ready { ready } => self.set_ready(player, ready),
                ClientEvent::BoardUpdate { board, piece } => self.update_board(player, board, piece),
            }
        }
    }

    /// What the end of a connection does: the player leaves its room, the
    /// remaining members are told, and the player's record is dropped.
    pub open spec fn disconnect(self, player: Seq<char>) -> Step {
        if !self.is_connected(player) {
            Step { state: self, out: seq![] }
        } else {
            Step {
                state: SessionView {
                    players: self.vacate(player).players.remove(player),
                    ..self.vacate(player)
                },
                out: self.departure(player),
            }
        }
    }

    /// What the settlement of a dispatch does once its writes were
    /// attempted: every recipient a write to whom has failed is
    /// disconnected as a dead peer, in the order of the dispatch, and
    /// the notices of their departure are collected.
    pub open spec fn settle(self, recipients: Seq<ConnectionView>, written: Seq<bool>) -> Step
        decreases recipients.len(),
    {
        if recipients.len() == 0 || written.len() == 0 {
            Step { state: self, out: seq![] }
        } else {
            let before = self.settle(recipients.drop_last(), written.drop_last());
            if written.last() {
                before
            } else {
                let gone = before.state.disconnect(recipients.last().username);
                Step { state: gone.state, out: before.out + gone.out }
            }
        }
    }

    /// The players once `user` is no longer seated in room `room`.
    pub open spec fn unseat(self, room: Seq<char>, user: Seq<char>) -> Map<Seq<char>, PlayerView> {
        if self.players.contains_key(user) && self.players[user].room == Some(room) {
            self.players.insert(user, PlayerView { room: None, ..self.players[user] })
        } else {
            self.players
        }
    }

    /// Removes `user` from room `room`; the user may join again.
    pub open spec fn kick_user(self, room: Seq<char>, user: Seq<char>) -> Self {
        SessionView { hub: self.hub.kick_user(room, user), players: self.unseat(room, user) }
    }

    /// Bans `user` from room `room` and removes the user from it.
    pub open spec fn ban_user(self, room: Seq<char>, user: Seq<char>) -> Self {
        SessionView { hub: self.hub.ban_user(room, user), players: self.unseat(room, user) }
    }

    /// Lifts the ban on `user` in room `room`.
    pub open spec fn unban_user(self, room: Seq<char>, user: Seq<char>) -> Self {
        SessionView { hub: self.hub.unban_user(room, user), ..self }
    }

    /// Mutes `user` in room `room`.
    pub open spec fn mute_user(self, room: Seq<char>, user: Seq<char>) -> Self {
        SessionView { hub: self.hub.mute_user(room, user), ..self }
    }

    /// Lifts the mute on `user` in room `room`.
    pub open spec fn unmute_user(self, room: Seq<char>, user: Seq<char>) -> Self {
        SessionView { hub: self.hub.unmute_user(room, user), ..self }
    }

    /// Grants `user` moderator rights in room `room`.
    pub open spec fn add_moderator(self, room: Seq<char>, user: Seq<char>) -> Self {
        SessionView { hub: self.hub.add_moderator(room, user), ..self }
    }

    /// Withdraws moderator rights from `user` in room `room`.
    pub open spec fn remove_moderator(self, room: Seq<char>, user: Seq<char>) -> Self {
        SessionView { hub: self.hub.remove_moderator(room, user), ..self }
    }

    /// The state after `command` was applied to room `room`.
    pub open spec fn apply_command(self, room: Seq<char>, command: ModerationCommand) -> Self {
        match command {
            ModerationCommand::Kick(user) => self.kick_user(room, user),
            ModerationCommand::Ban(user) => self.ban_user(room, user),
            ModerationCommand::Unban(user) => self.unban_user(room, user),
            ModerationCommand::Mute(user) => self.mute_user(room, user),
            ModerationCommand::Unmute(user) => self.unmute_user(room, user),
        }
    }

    /// The state after `issuer` has ordered `command` for room `room`:
    /// the command is applied if the issuer is a moderator of the room,
    /// and discarded otherwise.
    pub open spec fn moderate(self, issuer: Seq<char>, room: Seq<char>, command: ModerationCommand) -> Self {
        if self.hub.is_moderator(room, issuer) {
            self.apply_command(room, command)
        } else {
            self
        }
    }
}

/// Changing what a player has reported, but neither its room reference
/// nor its writer, preserves the session invariant.
pub proof fn lemma_record_change_keeps_wf(s: SessionView, player: Seq<char>, record: PlayerView)
    requires
        s.wf(),
        s.is_connected(player),
        record.room == s.players[player].room,
        record.write == s.players[player].write,
    ensures
        s.with_player(player, record).wf(),
{
    let t = s.with_player(player, record);
    assert forall|p: Seq<char>| #[trigger]
        t.players.contains_key(p) && t.players[p].room is Some implies t.hub.has_room(
        t.players[p].room->0,
    ) && includes(t.hub.rooms[t.players[p].room->0].members, p) by {
        assert(s.players.contains_key(p));
    }
    assert forall|r: Seq<char>, i: int|
        t.hub.rooms.contains_key(r) && 0 <= i < t.hub.rooms[r].members.len() implies {
        let m = #[trigger] t.hub.rooms[r].members[i];
        &&& t.players.contains_key(m.username)
        &&& t.players[m.username].room == Some(r)
        &&& t.players[m.username].write == m.write
    } by {
        let m = s.hub.rooms[r].members[i];
        assert(s.players.contains_key(m.username));
    }
}

/// Registering a new player preserves the session invariant.
pub proof fn lemma_connect_keeps_wf(s: SessionView, player: Seq<char>, write: WriterId)
    requires
        s.wf(),
    ensures
        s.connect(player, write).wf(),
{
    let t = s.connect(player, write);
    if !s.is_connected(player) {
        assert forall|p: Seq<char>| #[trigger]
            t.players.contains_key(p) && t.players[p].room is Some implies t.hub.has_room(
            t.players[p].room->0,
        ) && includes(t.hub.rooms[t.players[p].room->0].members, p) by {
            assert(s.players.contains_key(p));
        }
        assert forall|r: Seq<char>, i: int|
            t.hub.rooms.contains_key(r) && 0 <= i < t.hub.rooms[r].members.len() implies {
            let m = #[trigger] t.hub.rooms[r].members[i];
            &&& t.players.contains_key(m.username)
            &&& t.players[m.username].room == Some(r)
            &&& t.players[m.username].write == m.write
        } by {
            let m = s.hub.rooms[r].members[i];
            assert(s.players.contains_key(m.username));
        }
    }
}

/// Seating a connected player that sits nowhere in a room it is not
/// banned from preserves the session invariant.
pub proof fn lemma_seat_keeps_wf(s: SessionView, player: Seq<char>, room: Seq<char>)
    requires
        s.wf(),
        s.is_connected(player),
        s.players[player].room is None,
        !s.hub.is_banned(room, player),
    ensures
        !s.hub.is_member(room, player),
        (SessionView {
            hub: s.hub.add_user(room, s.connection(player)),
            players: s.players.insert(player, PlayerView { room: Some(room), ..s.players[player] }),
        }).wf(),
{
    let conn = s.connection(player);
    let before = s.hub.room(room);
    let t = SessionView {
        hub: s.hub.add_user(room, conn),
        players: s.players.insert(player, PlayerView { room: Some(room), ..s.players[player] }),
    };
    if includes(before.members, player) {
        let k = choose|k: int| 0 <= k < before.members.len() && (#[trigger] before.members[k]).username
            == player;
        assert(s.hub.rooms[room].members[k].username == player);
        assert(false);
    }
    lemma_hub_transitions_keep_wf(s.hub, room, player, conn, arbitrary());
    let n = before.members.len() as int;
    assert(t.hub.rooms[room].members == before.members.push(conn));
    assert forall|p: Seq<char>| #[trigger]
        t.players.contains_key(p) && t.players[p].room is Some implies t.hub.has_room(
        t.players[p].room->0,
    ) && includes(t.hub.rooms[t.players[p].room->0].members, p) by {
        if p == player {
            assert(t.hub.rooms[room].members[n].username == player);
        } else {
            assert(s.players.contains_key(p));
            let r = s.players[p].room->0;
            if r == room {
                let k = choose|k: int|
                    0 <= k < before.members.len() && (#[trigger] before.members[k]).username == p;
                assert(t.hub.rooms[room].members[k] == before.members[k]);
            } else {
                assert(t.hub.rooms[r] == s.hub.rooms[r]);
            }
        }
    }
    assert forall|r: Seq<char>, i: int|
        t.hub.rooms.contains_key(r) && 0 <= i < t.hub.rooms[r].members.len() implies {
        let m = #[trigger] t.hub.rooms[r].members[i];
        &&& t.players.contains_key(m.username)
        &&& t.players[m.username].room == Some(r)
        &&& t.players[m.username].write == m.write
    } by {
        if r == room && i == n {
        } else {
            if r == room {
                assert(s.hub.has_room(room));
                assert(t.hub.rooms[r].members[i] == s.hub.rooms[r].members[i]);
            } else {
                assert(t.hub.rooms[r] == s.hub.rooms[r]);
            }
            let m = s.hub.rooms[r].members[i];
            assert(s.players.contains_key(m.username));
            assert(m.username != player);
        }
    }
}

/// Taking a user out of a room, with or without a ban, preserves the
/// session invariant.
pub proof fn lemma_unseat_keeps_wf(s: SessionView, room: Seq<char>, user: Seq<char>)
    requires
        s.wf(),
    ensures
        s.kick_user(room, user).wf(),
        s.ban_user(room, user).wf(),
{
    lemma_hub_transitions_keep_wf(s.hub, room, user, arbitrary(), arbitrary());
    let before = s.hub.room(room);
    let rest = without(before.members, user);
    if s.hub.has_room(room) {
        assert(s.hub.rooms[room].wf());
    }
    lemma_without_properties(before.members, user);
    if s.players.contains_key(user) && s.players[user].room == Some(room) {
        assert(s.hub.has_room(room));
    }
    let kicked = s.kick_user(room, user);
    let banned = s.ban_user(room, user);
    assert forall|t: SessionView| t == kicked || t == banned implies t.wf() by {
        assert(t.players == s.unseat(room, user));
        assert forall|r: Seq<char>| t.hub.rooms.contains_key(r) implies (if r == room {
            (#[trigger] t.hub.rooms[r]).members == rest
        } else {
            s.hub.rooms.contains_key(r) && t.hub.rooms[r] == s.hub.rooms[r]
        }) by {}
        assert forall|p: Seq<char>| #[trigger]
            t.players.contains_key(p) && t.players[p].room is Some implies t.hub.has_room(
            t.players[p].room->0,
        ) && includes(t.hub.rooms[t.players[p].room->0].members, p) by {
            assert(s.players.contains_key(p));
            let r = t.players[p].room->0;
            assert(s.players[p].room == Some(r));
            assert(s.hub.has_room(r));
            if r == room {
                assert(p != user);
                assert(includes(before.members, p));
                assert(includes(rest, p));
            } else {
                assert(t.hub.rooms[r] == s.hub.rooms[r]);
            }
        }
        assert forall|r: Seq<char>, i: int|
            t.hub.rooms.contains_key(r) && 0 <= i < t.hub.rooms[r].members.len() implies {
            let m = #[trigger] t.hub.rooms[r].members[i];
            &&& t.players.contains_key(m.username)
            &&& t.players[m.username].room == Some(r)
            &&& t.players[m.username].write == m.write
        } by {
            let m = t.hub.rooms[r].members[i];
            if r == room {
                assert(m == rest[i]);
                assert(before.members.contains(rest[i]));
                let k = choose|k: int| 0 <= k < before.members.len() && before.members[k] == m;
                assert(s.hub.has_room(room));
                assert(s.hub.rooms[room].members[k] == m);
                assert(s.players.contains_key(m.username));
                if m.username == user {
                    assert(includes(rest, user));
                }
            } else {
                assert(s.hub.rooms[r].members[i] == m);
                assert(s.players.contains_key(m.username));
            }
        }
    }
}

/// Changing the hub without touching any room's members, and without
/// losing a room, preserves the session invariant.
pub proof fn lemma_same_members_keep_wf(s: SessionView, hub: HubView)
    requires
        s.wf(),
        hub.wf(),
        forall|r: Seq<char>| s.hub.has_room(r) ==> hub.has_room(r),
        forall|r: Seq<char>| hub.has_room(r) ==> hub.room(r).members == s.hub.room(r).members,
    ensures
        (SessionView { hub, ..s }).wf(),
{
    let t = SessionView { hub, ..s };
    assert forall|p: Seq<char>| #[trigger]
        t.players.contains_key(p) && t.players[p].room is Some implies t.hub.has_room(
        t.players[p].room->0,
    ) && includes(t.hub.rooms[t.players[p].room->0].members, p) by {
        let r = s.players[p].room->0;
        assert(s.hub.has_room(r));
        assert(hub.room(r).members == s.hub.room(r).members);
    }
    assert forall|r: Seq<char>, i: int|
        t.hub.rooms.contains_key(r) && 0 <= i < t.hub.rooms[r].members.len() implies {
        let m = #[trigger] t.hub.rooms[r].members[i];
        &&& t.players.contains_key(m.username)
        &&& t.players[m.username].room == Some(r)
        &&& t.players[m.username].write == m.write
    } by {
        assert(hub.room(r).members == s.hub.room(r).members);
        assert(s.hub.has_room(r));
        let m = s.hub.rooms[r].members[i];
        assert(s.players.contains_key(m.username));
    }
}

/// Moderation that leaves membership alone preserves the session
/// invariant.
pub proof fn lemma_standing_changes_keep_wf(s: SessionView, room: Seq<char>, user: Seq<char>)
    requires
        s.wf(),
    ensures
        s.unban_user(room, user).wf(),
        s.mute_user(room, user).wf(),
        s.unmute_user(room, user).wf(),
        s.add_moderator(room, user).wf(),
        s.remove_moderator(room, user).wf(),
{
    lemma_hub_transitions_keep_wf(s.hub, room, user, arbitrary(), arbitrary());
    lemma_same_members_keep_wf(s, s.hub.unban_user(room, user));
    lemma_same_members_keep_wf(s, s.hub.mute_user(room, user));
    lemma_same_members_keep_wf(s, s.hub.unmute_user(room, user));
    lemma_same_members_keep_wf(s, s.hub.add_moderator(room, user));
    lemma_same_members_keep_wf(s, s.hub.remove_moderator(room, user));
}

/// Taking a player out of its own room is a kick from that room.
pub proof fn lemma_vacate_is_kick(s: SessionView, player: Seq<char>)
    requires
        s.is_connected(player),
        s.players[player].room is Some,
    ensures
        s.vacate(player) == s.kick_user(s.players[player].room->0, player),
{
}

/// The session invariant holds in every reachable state: each message
/// from a client leads from a well-formed state to a well-formed state.
pub proof fn lemma_step_keeps_wf(s: SessionView, player: Seq<char>, event: ClientEvent)
    requires
        s.wf(),
    ensures
        s.step(player, event).state.wf(),
{
    if s.is_connected(player) {
        let me = s.players[player];
        match event {
            ClientEvent::CreateRoom { room_id } => {
                if !s.hub.has_room(room_id) && me.room is None {
                    lemma_seat_keeps_wf(s, player, room_id);
                }
            },
            ClientEvent::JoinRoom { room_id } => {
                if s.hub.has_room(room_id) && !s.hub.is_banned(room_id, player) && me.room is None {
                    lemma_seat_keeps_wf(s, player, room_id);
                }
            },
            ClientEvent::LeaveRoom => {
                if me.room is Some {
                    lemma_vacate_is_kick(s, player);
                    lemma_unseat_keeps_wf(s, me.room->0, player);
                }
            },
            ClientEvent::Ready { ready } => {
                lemma_record_change_keeps_wf(s, player, PlayerView { ready, ..me });
            },
            ClientEvent::BoardUpdate { board, piece } => {
                lemma_record_change_keeps_wf(
                    s,
                    player,
                    PlayerView { board: Some(BoardView { grid: board, piece }), ..me },
                );
            },
        }
    }
}

/// Ending a connection preserves the session invariant, and leaves no
/// room that still lists the player.
pub proof fn lemma_disconnect_keeps_wf(s: SessionView, player: Seq<char>)
    requires
        s.wf(),
    ensures
        s.disconnect(player).state.wf(),
        !s.disconnect(player).state.is_connected(player),
        forall|r: Seq<char>| !s.disconnect(player).state.hub.is_member(r, player),
{
    let t = s.disconnect(player).state;
    if s.is_connected(player) {
        let v = s.vacate(player);
        if s.players[player].room is Some {
            lemma_vacate_is_kick(s, player);
            lemma_unseat_keeps_wf(s, s.players[player].room->0, player);
        }
        assert(v.wf());
        assert(v.players[player].room is None);
        assert forall|r: Seq<char>, i: int|
            t.hub.rooms.contains_key(r) && 0 <= i < t.hub.rooms[r].members.len() implies {
            let m = #[trigger] t.hub.rooms[r].members[i];
            &&& t.players.contains_key(m.username)
            &&& t.players[m.username].room == Some(r)
            &&& t.players[m.username].write == m.write
        } by {
            let m = v.hub.rooms[r].members[i];
            assert(v.players.contains_key(m.username));
            assert(m.username != player);
        }
        assert forall|p: Seq<char>| #[trigger]
            t.players.contains_key(p) && t.players[p].room is Some implies t.hub.has_room(
            t.players[p].room->0,
        ) && includes(t.hub.rooms[t.players[p].room->0].members, p) by {
            assert(v.players.contains_key(p));
        }
    }
    assert forall|r: Seq<char>| !t.hub.is_member(r, player) by {
        if t.hub.is_member(r, player) {
            let members = t.hub.room(r).members;
            let k = choose|k: int| 0 <= k < members.len() && (#[trigger] members[k]).username == player;
            assert(t.hub.rooms[r].members[k].username == player);
            assert(t.players.contains_key(player));
        }
    }
}

/// Settling a dispatch preserves the session invariant, and no recipient
/// a write to whom has failed is connected afterwards.
pub proof fn lemma_settle_keeps_wf(s: SessionView, recipients: Seq<ConnectionView>, written: Seq<bool>)
    requires
        s.wf(),
        recipients.len() == written.len(),
    ensures
        s.settle(recipients, written).state.wf(),
        forall|i: int|
            0 <= i < recipients.len() && !written[i] ==> !s.settle(
                recipients,
                written,
            ).state.is_connected((#[trigger] recipients[i]).username),
        forall|p: Seq<char>|
            s.settle(recipients, written).state.is_connected(p) ==> s.is_connected(p),
    decreases recipients.len(),
{
    if recipients.len() > 0 {
        let front = recipients.drop_last();
        let front_written = written.drop_last();
        let before = s.settle(front, front_written);
        lemma_settle_keeps_wf(s, front, front_written);
        lemma_disconnect_keeps_wf(before.state, recipients.last().username);
        let after = s.settle(recipients, written).state;
        assert forall|i: int| 0 <= i < recipients.len() && !written[i] implies !after.is_connected(
            (#[trigger] recipients[i]).username,
        ) by {
            if i < front.len() {
                assert(front[i] == recipients[i] && front_written[i] == written[i]);
                assert(!before.state.is_connected(front[i].username));
            }
        }
    }
}

} // verus!
