//! The game-room session machine: what each client message does to the
//! rooms and players, and which messages go out to whom. The transport
//! loop performs the writes this module plans.
use crate::channel::{connections_view, ChannelManager, UserConnection};
use crate::error::HubError;
use crate::message::{
    fresh_uuid, identifier_text, is_identifier_text, ModerationAction,
};
use crate::room::{ConnectionView, WriterId};
use crate::session_model::{
    lemma_connect_keeps_wf, lemma_disconnect_keeps_wf, lemma_settle_keeps_wf,
    lemma_standing_changes_keep_wf, lemma_step_keeps_wf, lemma_unseat_keeps_wf, BoardView,
    ClientEvent, DispatchView, PlayerView, ServerEvent, SessionView,
};
use vstd::hash_map::StringHashMap;
use vstd::prelude::*;
use vstd::string::*;

verus! {

/// The models of the rows of a grid.
pub open spec fn grid_view(grid: Seq<Vec<u8>>) -> Seq<Seq<u8>> {
    grid.map_values(|row: Vec<u8>| row@)
}

/// The model of an optional room reference.
pub open spec fn room_view(room: Option<String>) -> Option<Seq<char>> {
    match room {
        Some(r) => Some(r@),
        None => None,
    }
}

/// Copies a grid row by row.
pub fn copy_grid(grid: &Vec<Vec<u8>>) -> (copy: Vec<Vec<u8>>)
    ensures
        grid_view(copy@) == grid_view(grid@),
{
    let mut copy: Vec<Vec<u8>> = Vec::new();
    let mut i: usize = 0;
    while i < grid.len()
        invariant
            i <= grid.len(),
            copy@.len() == i,
            forall|k: int| 0 <= k < i ==> copy@[k]@ == grid@[k]@,
        decreases grid.len() - i,
    {
        let row = &grid[i];
        let mut cells: Vec<u8> = Vec::new();
        let mut j: usize = 0;
        while j < row.len()
            invariant
                j <= row.len(),
                cells@ == row@.take(j as int),
            decreases row.len() - j,
        {
            cells.push(row[j]);
            assert(row@.take(j as int).push(row@[j as int]) =~= row@.take(j + 1));
            j = j + 1;
        }
        assert(row@.take(row.len() as int) =~= row@);
        copy.push(cells);
        i = i + 1;
    }
    assert(grid_view(copy@) =~= grid_view(grid@));
    copy
}

/// A message from a client.
#[derive(Debug, PartialEq, Eq)]
pub enum ClientMessage {
    CreateRoom { room_id: String },
    JoinRoom { room_id: String },
    LeaveRoom,
    Ready { ready: bool },
    BoardUpdate { board: Vec<Vec<u8>>, piece: String },
}

impl View for ClientMessage {
    type V = ClientEvent;

    open spec fn view(&self) -> ClientEvent {
        match self {
            ClientMessage::CreateRoom { room_id } => ClientEvent::CreateRoom { room_id: room_id@ },
            ClientMessage::JoinRoom { room_id } => ClientEvent::JoinRoom { room_id: room_id@ },
            ClientMessage::LeaveRoom => ClientEvent::LeaveRoom,
            ClientMessage::Ready { ready } => ClientEvent::Ready { ready: *ready },
            ClientMessage::BoardUpdate { board, piece } => ClientEvent::BoardUpdate {
                board: grid_view(board@),
                piece: piece@,
            },
        }
    }
}

/// A message to a client.
#[derive(Debug, PartialEq, Eq)]
pub enum ServerMessage {
    Connected { player_id: String },
    RoomCreated { room_id: String },
    JoinedRoom { room_id: String },
    PlayerJoined { player_id: String },
    PlayerLeft { player_id: String },
    PlayerReady { player_id: String, ready: bool },
    BoardUpdate { player_id: String, board: Vec<Vec<u8>>, piece: String },
    /// A request was refused; `message` says why.
    Error { message: String },
}

impl View for ServerMessage {
    type V = ServerEvent;

    open spec fn view(&self) -> ServerEvent {
        match self {
            ServerMessage::Connected { player_id } => ServerEvent::Connected {
                player_id: player_id@,
            },
            ServerMessage::RoomCreated { room_id } => ServerEvent::RoomCreated { room_id: room_id@ },
            ServerMessage::JoinedRoom { room_id } => ServerEvent::JoinedRoom { room_id: room_id@ },
            ServerMessage::PlayerJoined { player_id } => ServerEvent::PlayerJoined {
                player_id: player_id@,
            },
            ServerMessage::PlayerLeft { player_id } => ServerEvent::PlayerLeft {
                player_id: player_id@,
            },
            ServerMessage::PlayerReady { player_id, ready } => ServerEvent::PlayerReady {
                player_id: player_id@,
                ready: *ready,
            },
            ServerMessage::BoardUpdate { player_id, board, piece } => ServerEvent::BoardUpdate {
                player_id: player_id@,
                board: grid_view(board@),
                piece: piece@,
            },
            ServerMessage::Error { message } => ServerEvent::Error { message: message@ },
        }
    }
}

/// One message and the connections it is to be written to.
#[derive(Debug, PartialEq, Eq)]
pub struct Dispatch {
    pub message: ServerMessage,
    pub recipients: Vec<UserConnection>,
}

impl View for Dispatch {
    type V = DispatchView;

    open spec fn view(&self) -> DispatchView {
        DispatchView { message: self.message@, recipients: connections_view(self.recipients@) }
    }
}

/// The models of a list of dispatches.
pub open spec fn dispatches_view(out: Seq<Dispatch>) -> Seq<DispatchView> {
    out.map_values(|d: Dispatch| d@)
}

struct Player {
    write: WriterId,
    ready: bool,
    room: Option<String>,
}

struct Board {
    grid: Vec<Vec<u8>>,
    piece: String,
}

impl View for Board {
    type V = BoardView;

    closed spec fn view(&self) -> BoardView {
        BoardView { grid: grid_view(self.grid@), piece: self.piece@ }
    }
}

/// The state of the session machine: the room store and the record of
/// every connected player.
pub struct SessionHub {
    store: ChannelManager,
    players: StringHashMap<Player>,
    boards: StringHashMap<Board>,
}

impl View for SessionHub {
    type V = SessionView;

    closed spec fn view(&self) -> SessionView {
        SessionView {
            hub: self.store@,
            players: Map::new(
                |id: Seq<char>| self.players@.contains_key(id),
                |id: Seq<char>|
                    PlayerView {
                        write: self.players@[id].write,
                        ready: self.players@[id].ready,
                        room: room_view(self.players@[id].room),
                        board: if self.boards@.contains_key(id) {
                            Some(self.boards@[id]@)
                        } else {
                            None
                        },
                    },
            ),
        }
    }
}

/// A dispatch of `message` to the one connection given.
fn reply(player: &str, write: WriterId, message: ServerMessage) -> (d: Dispatch)
    ensures
        d@ == (DispatchView {
            message: message@,
            recipients: seq![ConnectionView { username: player@, write }],
        }),
{
    let mut recipients: Vec<UserConnection> = Vec::new();
    recipients.push(UserConnection { username: player.to_owned(), write });
    let d = Dispatch { message, recipients };
    assert(d@.recipients =~= seq![ConnectionView { username: player@, write }]);
    d
}

/// The error report for a refused request.
fn refusal(player: &str, write: WriterId, error: HubError) -> (d: Dispatch)
    ensures
        d@ == (DispatchView {
            message: ServerEvent::Error { message: error.spec_message() },
            recipients: seq![ConnectionView { username: player@, write }],
        }),
{
    reply(player, write, ServerMessage::Error { message: error.message() })
}

/// A list holding the one dispatch given.
fn single(d: Dispatch) -> (out: Vec<Dispatch>)
    ensures
        dispatches_view(out@) == seq![d@],
{
    let mut out: Vec<Dispatch> = Vec::new();
    out.push(d);
    assert(dispatches_view(out@) =~= seq![d@]);
    out
}

/// The empty list of dispatches.
fn nothing() -> (out: Vec<Dispatch>)
    ensures
        dispatches_view(out@) == Seq::<DispatchView>::empty(),
{
    let out: Vec<Dispatch> = Vec::new();
    assert(dispatches_view(out@) =~= Seq::<DispatchView>::empty());
    out
}

impl SessionHub {
    /// The representation is consistent: the store is, and only connected
    /// players have a board on record.
    pub closed spec fn inv(&self) -> bool {
        &&& self.store.wf()
        &&& forall|id: Seq<char>| #[trigger]
            self.boards@.contains_key(id) ==> self.players@.contains_key(id)
    }

    /// The representation is consistent and the session invariant holds.
    pub open spec fn wf(&self) -> bool {
        self.inv() && self@.wf()
    }

    /// Whether `me` is the record kept for `player`.
    spec fn holds(&self, player: Seq<char>, me: Player) -> bool {
        self.players@.contains_key(player) && self.players@[player] == me
    }

    /// A machine without rooms or players.
    pub fn new() -> (hub: Self)
        ensures
            hub.wf(),
            hub@ == SessionView::empty(),
    {
        let hub = SessionHub {
            store: ChannelManager::new(),
            players: StringHashMap::new(),
            boards: StringHashMap::new(),
        };
        assert(hub@.players =~= SessionView::empty().players);
        hub
    }

    /// The room store, for inspection.
    pub fn store(&self) -> (store: &ChannelManager)
        requires
            self.wf(),
        ensures
            store.wf(),
            store@ == self@.hub,
    {
        &self.store
    }

    fn player(&self, id: &str) -> (r: Option<Player>)
        ensures
            match r {
                Some(me) => self.holds(id@, me),
                None => !self@.is_connected(id@),
            },
    {
        match self.players.get(id) {
            Some(p) => {
                let room = match &p.room {
                    Some(r) => Some(r.clone()),
                    None => None,
                };
                Some(Player { write: p.write, ready: p.ready, room })
            },
            None => None,
        }
    }

    /// Whether a player is connected under `player`.
    pub fn is_connected(&self, player: &str) -> (b: bool)
        ensures
            b == self@.is_connected(player@),
    {
        self.players.contains_key(player)
    }

    /// The room `player` sits in, if it is connected and in a room.
    pub fn room_of(&self, player: &str) -> (room: Option<String>)
        ensures
            room_view(room) == if self@.is_connected(player@) {
                self@.players[player@].room
            } else {
                None
            },
    {
        match self.player(player) {
            Some(me) => me.room,
            None => None,
        }
    }

    /// Whether `player` is connected and has declared itself ready.
    pub fn is_ready(&self, player: &str) -> (b: bool)
        ensures
            b == (self@.is_connected(player@) && self@.players[player@].ready),
    {
        match self.player(player) {
            Some(me) => me.ready,
            None => false,
        }
    }

    /// The board `player` has last reported, with the piece in play.
    pub fn board_of(&self, player: &str) -> (board: Option<(Vec<Vec<u8>>, String)>)
        requires
            self.wf(),
        ensures
            match board {
                Some((grid, piece)) => self@.is_connected(player@) && self@.players[player@].board
                    == Some(BoardView { grid: grid_view(grid@), piece: piece@ }),
                None => !self@.is_connected(player@) || self@.players[player@].board is None,
            },
    {
        match self.boards.get(player) {
            Some(b) => {
                assert(self.players@.contains_key(player@));
                Some((copy_grid(&b.grid), b.piece.clone()))
            },
            None => None,
        }
    }

    /// Registers a connection under a freshly drawn identifier and
    /// greets it. The connection is refused, and nothing changes, only if
    /// the identifier drawn is that of a connected player; so a hub none
    /// of whose players goes by an identifier of that shape, an empty
    /// hub among them, admits every connection.
    pub fn connect(&mut self, write: WriterId) -> (r: Result<ServerMessage, HubError>)
        requires
            old(self).wf(),
        ensures
            final(self).wf(),
            match r {
                Ok(greeting) => exists|id: Seq<char>|
                    {
                        &&& is_identifier_text(id)
                        &&& !old(self)@.is_connected(id)
                        &&& greeting@ == (ServerEvent::Connected { player_id: id })
                        &&& final(self)@ == #[trigger] old(self)@.connect(id, write)
                    },
                Err(e) => {
                    &&& e == HubError::AlreadyExists
                    &&& final(self)@ == old(self)@
                    &&& exists|id: Seq<char>|
                        is_identifier_text(id) && #[trigger] old(self)@.is_connected(id)
                },
            },
            (forall|id: Seq<char>| #[trigger]
                old(self)@.is_connected(id) ==> !is_identifier_text(id)) ==> r is Ok,
            old(self)@.players.dom() =~= Set::<Seq<char>>::empty() ==> r is Ok,
    {
        let id = identifier_text(&fresh_uuid());
        self.connect_as(id, write)
    }

    /// Registers a connection under `player_id` and greets it. An
    /// identifier that is taken is refused and nothing changes.
    pub fn connect_as(&mut self, player_id: String, write: WriterId) -> (r: Result<
        ServerMessage,
        HubError,
    >)
        requires
            old(self).wf(),
        ensures
            final(self).wf(),
            final(self)@ == old(self)@.connect(player_id@, write),
            match r {
                Ok(greeting) => !old(self)@.is_connected(player_id@) && greeting@ == (
                ServerEvent::Connected { player_id: player_id@ }),
                Err(e) => old(self)@.is_connected(player_id@) && e == HubError::AlreadyExists,
            },
    {
        proof {
            lemma_connect_keeps_wf(self@, player_id@, write);
        }
        if self.players.contains_key(player_id.as_str()) {
            return Err(HubError::AlreadyExists);
        }
        self.players.insert(player_id.clone(), Player { write, ready: false, room: None });
        assert(self@.players =~= old(self)@.connect(player_id@, write).players);
        Ok(ServerMessage::Connected { player_id })
    }

    /// Replaces the record of `player`, keeping its board.
    fn put(&mut self, player: &str, record: Player)
        requires
            old(self).inv(),
            old(self)@.is_connected(player@),
        ensures
            final(self).inv(),
            final(self).store == old(self).store,
            final(self)@ == old(self)@.with_player(
                player@,
                PlayerView {
                    write: record.write,
                    ready: record.ready,
                    room: room_view(record.room),
                    board: old(self)@.players[player@].board,
                },
            ),
    {
        self.players.insert(player.to_owned(), record);
        assert(self@.players =~= old(self)@.players.insert(
            player@,
            PlayerView {
                write: record.write,
                ready: record.ready,
                room: room_view(record.room),
                board: old(self)@.players[player@].board,
            },
        ));
    }

    /// Takes `player` out of the room its record names and plans the
    /// notice to the members that remain.
    fn vacate(&mut self, player: &str, me: Player) -> (out: Vec<Dispatch>)
        requires
            old(self).wf(),
            old(self).holds(player@, me),
        ensures
            final(self).inv(),
            final(self)@ == old(self)@.vacate(player@),
            dispatches_view(out@) == old(self)@.departure(player@),
    {
        match me.room {
            Some(room) => {
                assert(self@.players.contains_key(player@));
                assert(self@.players[player@].room == Some(room@));
                assert(self@.hub.has_room(room@));
                self.store.kick_user(room.as_str(), player);
                let recipients = self.store.snapshot(room.as_str());
                self.put(player, Player { write: me.write, ready: me.ready, room: None });
                single(
                    Dispatch {
                        message: ServerMessage::PlayerLeft { player_id: player.to_owned() },
                        recipients,
                    },
                )
            },
            None => {
                assert(self@.players[player@].room is None);
                nothing()
            },
        }
    }

    /// Seats `player` in `room`.
    fn seat(&mut self, player: &str, me: Player, room: &str)
        requires
            old(self).wf(),
            old(self).holds(player@, me),
            me.room is None,
            !old(self)@.hub.is_banned(room@, player@),
        ensures
            final(self).inv(),
            final(self)@ == (SessionView {
                hub: old(self)@.hub.add_user(room@, old(self)@.connection(player@)),
                players: old(self)@.players.insert(
                    player@,
                    PlayerView { room: Some(room@), ..old(self)@.players[player@] },
                ),
            }),
    {
        let _ = self.store.add_user(room, UserConnection { username: player.to_owned(), write: me.write });
        self.put(player, Player { write: me.write, ready: me.ready, room: Some(room.to_owned()) });
    }

    fn create_room(&mut self, player: &str, me: Player, room: String) -> (out: Vec<Dispatch>)
        requires
            old(self).wf(),
            old(self).holds(player@, me),
        ensures
            final(self).inv(),
            final(self)@ == old(self)@.create_room(player@, room@).state,
            dispatches_view(out@) == old(self)@.create_room(player@, room@).out,
    {
        if self.store.has_channel(room.as_str()) {
            return single(refusal(player, me.write, HubError::AlreadyExists));
        }
        if me.room.is_some() {
            return single(refusal(player, me.write, HubError::AlreadyInRoom));
        }
        let write = me.write;
        self.seat(player, me, room.as_str());
        single(reply(player, write, ServerMessage::RoomCreated { room_id: room }))
    }

    fn join_room(&mut self, player: &str, me: Player, room: String) -> (out: Vec<Dispatch>)
        requires
            old(self).wf(),
            old(self).holds(player@, me),
        ensures
            final(self).inv(),
            final(self)@ == old(self)@.join_room(player@, room@).state,
            dispatches_view(out@) == old(self)@.join_room(player@, room@).out,
    {
        if !self.store.has_channel(room.as_str()) {
            return single(refusal(player, me.write, HubError::NotFound));
        }
        if self.store.is_banned(room.as_str(), player) {
            return single(refusal(player, me.write, HubError::Banned));
        }
        let write = me.write;
        match &me.room {
            Some(current) => {
                if *current == room {
                    return single(reply(player, write, ServerMessage::JoinedRoom { room_id: room }));
                }
                return single(refusal(player, write, HubError::AlreadyInRoom));
            },
            None => {},
        }
        let present = self.store.snapshot(room.as_str());
        self.seat(player, me, room.as_str());
        let mut out: Vec<Dispatch> = Vec::new();
        let joined = reply(player, write, ServerMessage::JoinedRoom { room_id: room });
        let notice = Dispatch {
            message: ServerMessage::PlayerJoined { player_id: player.to_owned() },
            recipients: present,
        };
        out.push(joined);
        out.push(notice);
        assert(dispatches_view(out@) =~= seq![joined@, notice@]);
        out
    }

    /// Plans `message` for the members of the room `me` sits in.
    fn to_room(&self, player: &str, me: &Player, message: ServerMessage) -> (out: Vec<Dispatch>)
        requires
            self.wf(),
            self.holds(player@, *me),
        ensures
            dispatches_view(out@) == self@.to_room(player@, message@),
    {
        match &me.room {
            Some(room) => {
                let recipients = self.store.snapshot(room.as_str());
                single(Dispatch { message, recipients })
            },
            None => nothing(),
        }
    }

    fn set_ready(&mut self, player: &str, me: Player, ready: bool) -> (out: Vec<Dispatch>)
        requires
            old(self).wf(),
            old(self).holds(player@, me),
        ensures
            final(self).inv(),
            final(self)@ == old(self)@.set_ready(player@, ready).state,
            dispatches_view(out@) == old(self)@.set_ready(player@, ready).out,
    {
        let out = self.to_room(
            player,
            &me,
            ServerMessage::PlayerReady { player_id: player.to_owned(), ready },
        );
        self.put(player, Player { write: me.write, ready, room: me.room });
        out
    }

    fn update_board(&mut self, player: &str, me: Player, board: Vec<Vec<u8>>, piece: String) -> (out:
        Vec<Dispatch>)
        requires
            old(self).wf(),
            old(self).holds(player@, me),
        ensures
            final(self).inv(),
            final(self)@ == old(self)@.update_board(player@, grid_view(board@), piece@).state,
            dispatches_view(out@) == old(self)@.update_board(player@, grid_view(board@), piece@).out,
    {
        let out = if me.room.is_some() {
            self.to_room(
                player,
                &me,
                ServerMessage::BoardUpdate {
                    player_id: player.to_owned(),
                    board: copy_grid(&board),
                    piece: piece.clone(),
                },
            )
        } else {
            nothing()
        };
        self.boards.insert(player.to_owned(), Board { grid: board, piece });
        assert(self@.players =~= old(self)@.update_board(
            player@,
            grid_view(board@),
            piece@,
        ).state.players);
        out
    }

    /// Applies one message from `player` and plans the messages that
    /// answer it. A message under an identifier that is not connected
    /// changes nothing and is answered by nothing.
    pub fn handle(&mut self, player: &str, message: ClientMessage) -> (out: Vec<Dispatch>)
        requires
            old(self).wf(),
        ensures
            final(self).wf(),
            final(self)@ == old(self)@.step(player@, message@).state,
            dispatches_view(out@) == old(self)@.step(player@, message@).out,
    {
        proof {
            lemma_step_keeps_wf(self@, player@, message@);
        }
        let me = match self.player(player) {
            Some(me) => me,
            None => {
                return nothing();
            },
        };
        match message {
            ClientMessage::CreateRoom { room_id } => self.create_room(player, me, room_id),
            ClientMessage::JoinRoom { room_id } => self.join_room(player, me, room_id),
            ClientMessage::LeaveRoom => self.vacate(player, me),
            ClientMessage::Ready { ready } => self.set_ready(player, me, ready),
            ClientMessage::BoardUpdate { board, piece } => self.update_board(player, me, board, piece),
        }
    }

    /// Ends the connection of `player`: the player leaves its room, the
    /// members that remain are told, and its record is dropped. Called
    /// when the socket closes, fails, or a write to it fails.
    pub fn disconnect(&mut self, player: &str) -> (out: Vec<Dispatch>)
        requires
            old(self).wf(),
        ensures
            final(self).wf(),
            final(self)@ == old(self)@.disconnect(player@).state,
            dispatches_view(out@) == old(self)@.disconnect(player@).out,
    {
        proof {
            lemma_disconnect_keeps_wf(self@, player@);
        }
        let me = match self.player(player) {
            Some(me) => me,
            None => {
                return nothing();
            },
        };
        let out = self.vacate(player, me);
        let ghost vacated = self@;
        self.players.remove(player);
        self.boards.remove(player);
        assert(self@.players =~= vacated.players.remove(player@));
        out
    }

    /// Settles a dispatch once its writes were attempted: `written[i]`
    /// tells whether the write to `recipients[i]` succeeded. Every
    /// recipient a write to whom has failed is disconnected as a dead
    /// peer. Returns the notices of their departure.
    pub fn settle(&mut self, recipients: &Vec<UserConnection>, written: &Vec<bool>) -> (out: Vec<
        Dispatch,
    >)
        requires
            old(self).wf(),
            recipients.len() == written.len(),
        ensures
            final(self).wf(),
            final(self)@ == old(self)@.settle(connections_view(recipients@), written@).state,
            dispatches_view(out@) == old(self)@.settle(connections_view(recipients@), written@).out,
            forall|i: int|
                0 <= i < recipients.len() && !written[i] ==> !final(self)@.is_connected(
                    (#[trigger] recipients[i]).username@,
                ),
    {
        proof {
            let all = connections_view(recipients@);
            lemma_settle_keeps_wf(self@, all, written@);
            assert forall|i: int| 0 <= i < recipients.len() && !written[i] implies !self@.settle(
                all,
                written@,
            ).state.is_connected((#[trigger] recipients[i]).username@) by {
                assert(all[i].username == recipients[i].username@);
            }
        }
        let mut out = nothing();
        let mut i: usize = 0;
        let ghost all = connections_view(recipients@);
        assert(all.take(0) =~= Seq::<ConnectionView>::empty());
        while i < recipients.len()
            invariant
                i <= recipients.len(),
                recipients.len() == written.len(),
                all == connections_view(recipients@),
                self.wf(),
                self@ == old(self)@.settle(all.take(i as int), written@.take(i as int)).state,
                dispatches_view(out@) == old(self)@.settle(
                    all.take(i as int),
                    written@.take(i as int),
                ).out,
            decreases recipients.len() - i,
        {
            proof {
                assert(all.take(i + 1).drop_last() =~= all.take(i as int));
                assert(written@.take(i + 1).drop_last() =~= written@.take(i as int));
                assert(all.take(i + 1).last() == recipients@[i as int]@);
                assert(written@.take(i + 1).last() == written@[i as int]);
            }
            if !written[i] {
                let ghost before = dispatches_view(out@);
                let mut notices = self.disconnect(recipients[i].username.as_str());
                let ghost added = dispatches_view(notices@);
                out.append(&mut notices);
                assert(dispatches_view(out@) =~= before + added);
            }
            i = i + 1;
        }
        assert(all.take(recipients.len() as int) =~= all);
        assert(written@.take(recipients.len() as int) =~= written@);
        out
    }

    /// Whether the record of `user` names `room`.
    fn sits_in(&self, room: &str, user: &str) -> (r: Option<Player>)
        ensures
            match r {
                Some(me) => self.holds(user@, me) && self@.players[user@].room == Some(room@),
                None => !(self@.is_connected(user@) && self@.players[user@].room == Some(room@)),
            },
    {
        match self.player(user) {
            Some(me) => {
                let seated = match &me.room {
                    Some(r) => r.as_str().to_owned() == room.to_owned(),
                    None => false,
                };
                if seated {
                    Some(me)
                } else {
                    None
                }
            },
            None => None,
        }
    }

    /// Removes `user` from room `room`; the user may join again.
    pub fn kick_user(&mut self, room: &str, user: &str)
        requires
            old(self).wf(),
        ensures
            final(self).wf(),
            final(self)@ == old(self)@.kick_user(room@, user@),
    {
        proof {
            lemma_unseat_keeps_wf(self@, room@, user@);
        }
        let seated = self.sits_in(room, user);
        self.store.kick_user(room, user);
        if let Some(me) = seated {
            self.put(user, Player { write: me.write, ready: me.ready, room: None });
        }
    }

    /// Bans `user` from room `room` and removes the user from it at once.
    pub fn ban_user(&mut self, room: &str, user: &str)
        requires
            old(self).wf(),
        ensures
            final(self).wf(),
            final(self)@ == old(self)@.ban_user(room@, user@),
    {
        proof {
            lemma_unseat_keeps_wf(self@, room@, user@);
        }
        let seated = self.sits_in(room, user);
        self.store.ban_user(room, user);
        if let Some(me) = seated {
            self.put(user, Player { write: me.write, ready: me.ready, room: None });
        }
    }

    /// Lifts the ban on `user` in room `room`; membership is not restored.
    pub fn unban_user(&mut self, room: &str, user: &str)
        requires
            old(self).wf(),
        ensures
            final(self).wf(),
            final(self)@ == old(self)@.unban_user(room@, user@),
    {
        proof {
            lemma_standing_changes_keep_wf(self@, room@, user@);
        }
        self.store.unban_user(room, user);
    }

    /// Mutes `user` in room `room`; membership is not affected.
    pub fn mute_user(&mut self, room: &str, user: &str)
        requires
            old(self).wf(),
        ensures
            final(self).wf(),
            final(self)@ == old(self)@.mute_user(room@, user@),
    {
        proof {
            lemma_standing_changes_keep_wf(self@, room@, user@);
        }
        self.store.mute_user(room, user);
    }

    /// Lifts the mute on `user` in room `room`.
    pub fn unmute_user(&mut self, room: &str, user: &str)
        requires
            old(self).wf(),
        ensures
            final(self).wf(),
            final(self)@ == old(self)@.unmute_user(room@, user@),
    {
        proof {
            lemma_standing_changes_keep_wf(self@, room@, user@);
        }
        self.store.unmute_user(room, user);
    }

    /// Grants `user` moderator rights in room `room`.
    pub fn add_moderator(&mut self, room: &str, user: &str)
        requires
            old(self).wf(),
        ensures
            final(self).wf(),
            final(self)@ == old(self)@.add_moderator(room@, user@),
    {
        proof {
            lemma_standing_changes_keep_wf(self@, room@, user@);
        }
        self.store.add_moderator(room, user);
    }

    /// Withdraws moderator rights from `user` in room `room`.
    pub fn remove_moderator(&mut self, room: &str, user: &str)
        requires
            old(self).wf(),
        ensures
            final(self).wf(),
            final(self)@ == old(self)@.remove_moderator(room@, user@),
    {
        proof {
            lemma_standing_changes_keep_wf(self@, room@, user@);
        }
        self.store.remove_moderator(room, user);
    }

    /// Carries out a moderation command ordered by `issuer` for room
    /// `room`. Only a moderator of the room may order one: from anyone
    /// else the command is discarded and nothing changes.
    pub fn moderate(&mut self, issuer: &str, room: &str, action: &ModerationAction) -> (r: Result<
        (),
        HubError,
    >)
        requires
            old(self).wf(),
        ensures
            final(self).wf(),
            final(self)@ == old(self)@.moderate(issuer@, room@, action@),
            old(self)@.hub.is_moderator(room@, issuer@) ==> r is Ok,
            !old(self)@.hub.is_moderator(room@, issuer@) ==> r == Err::<(), HubError>(
                HubError::Unauthorized,
            ),
    {
        if !self.store.is_moderator(room, issuer) {
            return Err(HubError::Unauthorized);
        }
        match action {
            ModerationAction::Kick(user) => self.kick_user(room, user.as_str()),
            ModerationAction::Ban(user) => self.ban_user(room, user.as_str()),
            ModerationAction::Unban(user) => self.unban_user(room, user.as_str()),
            ModerationAction::Mute(user) => self.mute_user(room, user.as_str()),
            ModerationAction::Unmute(user) => self.unmute_user(room, user.as_str()),
        }
        Ok(())
    }
}

} // verus!
