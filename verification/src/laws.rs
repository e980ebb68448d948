//! Laws of the hub, proved about the models the executable operations
//! are specified with.
use crate::broadcast::{evict_failed, has_failed, lemma_eviction, plan, writer_failed};
use crate::error::HubError;
use crate::message::{parse_command, MessageView, ModerationCommand};
use crate::room::{
    distinct, includes, lemma_filter_members, lemma_hub_transitions_keep_wf,
    lemma_without_properties, other_writer, ConnectionView, HubView, WriterId,
};
use crate::router::{receive, route, routing, sender, Routing};
use crate::session_model::{
    lemma_unseat_keeps_wf, ClientEvent, DispatchView, ServerEvent, SessionView,
};
use crate::text::{is_whitespace, lemma_trim_is_tight, trim};
use vstd::prelude::*;

verus! {

/// The target of a parsed command carries no whitespace at either end.
pub proof fn law_command_targets_are_trimmed(content: Seq<char>)
    ensures
        parse_command(content) matches Some(command) ==> trim(command.target()) == command.target()
            && (command.target().len() > 0 ==> !is_whitespace(command.target()[0])
            && !is_whitespace(command.target().last())),
{
    lemma_trim_is_tight(content.skip("/kick "@.len() as int));
    lemma_trim_is_tight(content.skip("/ban "@.len() as int));
    lemma_trim_is_tight(content.skip("/unban "@.len() as int));
    lemma_trim_is_tight(content.skip("/mute "@.len() as int));
    lemma_trim_is_tight(content.skip("/unmute "@.len() as int));
}

/// One operation on the hub.
pub enum HubOp {
    OpenRoom { room: Seq<char> },
    AddMessage { message: MessageView },
    AddUser { room: Seq<char>, conn: ConnectionView },
    KickUser { room: Seq<char>, user: Seq<char> },
    BanUser { room: Seq<char>, user: Seq<char> },
    UnbanUser { room: Seq<char>, user: Seq<char> },
    MuteUser { room: Seq<char>, user: Seq<char> },
    UnmuteUser { room: Seq<char>, user: Seq<char> },
    AddModerator { room: Seq<char>, user: Seq<char> },
    RemoveModerator { room: Seq<char>, user: Seq<char> },
    RemoveConnection { write: WriterId },
    /// An inbound chat message handed to the router.
    Route { message: MessageView },
    /// An inbound chat message taken in from a connection.
    Receive { message: MessageView, write: WriterId },
    /// The settlement of a broadcast whose writes were attempted.
    Settle { room: Seq<char>, recipients: Seq<ConnectionView>, written: Seq<bool> },
}

impl HubOp {
    /// Whether the operation can be carried out at all.
    pub open spec fn admissible(self) -> bool {
        match self {
            HubOp::Settle { recipients, written, .. } => recipients.len() == written.len(),
            _ => true,
        }
    }

    /// Whether the operation is an order to lift the ban of `user` in
    /// `room`: the direct call, or a chat message that spells it.
    pub open spec fn lifts_ban(self, room: Seq<char>, user: Seq<char>) -> bool {
        match self {
            HubOp::UnbanUser { room: r, user: u } => r == room && u == user,
            HubOp::Route { message } => message.channel == room && message.command() == Some(
                ModerationCommand::Unban(user),
            ),
            HubOp::Receive { message, .. } => message.channel == room && message.command() == Some(
                ModerationCommand::Unban(user),
            ),
            _ => false,
        }
    }
}

/// The hub after one operation.
pub open spec fn apply(hub: HubView, op: HubOp) -> HubView {
    match op {
        HubOp::OpenRoom { room } => hub.open_room(room),
        HubOp::AddMessage { message } => hub.add_message(message),
        HubOp::AddUser { room, conn } => hub.add_user(room, conn),
        HubOp::KickUser { room, user } => hub.kick_user(room, user),
        HubOp::BanUser { room, user } => hub.ban_user(room, user),
        HubOp::UnbanUser { room, user } => hub.unban_user(room, user),
        HubOp::MuteUser { room, user } => hub.mute_user(room, user),
        HubOp::UnmuteUser { room, user } => hub.unmute_user(room, user),
        HubOp::AddModerator { room, user } => hub.add_moderator(room, user),
        HubOp::RemoveModerator { room, user } => hub.remove_moderator(room, user),
        HubOp::RemoveConnection { write } => hub.remove_connection(write),
        HubOp::Route { message } => route(hub, message),
        HubOp::Receive { message, write } => receive(hub, message, write),
        HubOp::Settle { room, recipients, written } => evict_failed(hub, room, recipients, written),
    }
}

/// The hub after a sequence of operations, first to last.
pub open spec fn apply_all(hub: HubView, ops: Seq<HubOp>) -> HubView
    decreases ops.len(),
{
    if ops.len() == 0 {
        hub
    } else {
        apply(apply_all(hub, ops.drop_last()), ops.last())
    }
}

/// The ban set of a room is untouched by the eviction of dead peers.
proof fn lemma_eviction_keeps_bans(
    hub: HubView,
    channel: Seq<char>,
    recipients: Seq<ConnectionView>,
    written: Seq<bool>,
    room: Seq<char>,
)
    ensures
        evict_failed(hub, channel, recipients, written).room(room).banned == hub.room(room).banned,
    decreases recipients.len(),
{
    if recipients.len() != 0 && written.len() != 0 {
        lemma_eviction_keeps_bans(hub, channel, recipients.drop_last(), written.drop_last(), room);
    }
}

/// No operation leaves the hub ill formed: at all times the members of
/// a room are distinct and none of them is banned from it.
pub proof fn law_operations_keep_the_hub_well_formed(hub: HubView, op: HubOp)
    requires
        hub.wf(),
        op.admissible(),
    ensures
        apply(hub, op).wf(),
        forall|room: Seq<char>, user: Seq<char>|
            apply(hub, op).is_banned(room, user) ==> !apply(hub, op).is_member(room, user),
{
    let after = apply(hub, op);
    match op {
        HubOp::OpenRoom { room } => {
            lemma_hub_transitions_keep_wf(hub, room, arbitrary(), arbitrary(), arbitrary());
        },
        HubOp::AddMessage { message } => {
            lemma_hub_transitions_keep_wf(hub, arbitrary(), arbitrary(), arbitrary(), message);
        },
        HubOp::AddUser { room, conn } => {
            lemma_hub_transitions_keep_wf(hub, room, arbitrary(), conn, arbitrary());
        },
        HubOp::KickUser { room, user } => {
            lemma_hub_transitions_keep_wf(hub, room, user, arbitrary(), arbitrary());
        },
        HubOp::BanUser { room, user } => {
            lemma_hub_transitions_keep_wf(hub, room, user, arbitrary(), arbitrary());
        },
        HubOp::UnbanUser { room, user } => {
            lemma_hub_transitions_keep_wf(hub, room, user, arbitrary(), arbitrary());
        },
        HubOp::MuteUser { room, user } => {
            lemma_hub_transitions_keep_wf(hub, room, user, arbitrary(), arbitrary());
        },
        HubOp::UnmuteUser { room, user } => {
            lemma_hub_transitions_keep_wf(hub, room, user, arbitrary(), arbitrary());
        },
        HubOp::AddModerator { room, user } => {
            lemma_hub_transitions_keep_wf(hub, room, user, arbitrary(), arbitrary());
        },
        HubOp::RemoveModerator { room, user } => {
            lemma_hub_transitions_keep_wf(hub, room, user, arbitrary(), arbitrary());
        },
        HubOp::RemoveConnection { write } => {
            lemma_hub_transitions_keep_wf(
                hub,
                arbitrary(),
                arbitrary(),
                ConnectionView { username: arbitrary(), write },
                arbitrary(),
            );
        },
        HubOp::Route { message } => {
            lemma_route_keeps_wf(hub, message);
        },
        HubOp::Receive { message, write } => {
            let joined = hub.add_user(message.channel, sender(message, write));
            lemma_hub_transitions_keep_wf(
                hub,
                message.channel,
                arbitrary(),
                sender(message, write),
                arbitrary(),
            );
            lemma_route_keeps_wf(joined, message);
        },
        HubOp::Settle { room, recipients, written } => {
            lemma_eviction(hub, room, recipients, written);
        },
    }
    assert forall|room: Seq<char>, user: Seq<char>| after.is_banned(room, user) implies !after.is_member(
        room,
        user,
    ) by {
        lemma_banned_users_are_not_members(after, room, user);
    }
}

/// Routing a message preserves the hub invariant.
pub proof fn lemma_route_keeps_wf(hub: HubView, message: MessageView)
    requires
        hub.wf(),
    ensures
        route(hub, message).wf(),
{
    match routing(hub, message) {
        Routing::Moderated(command) => {
            lemma_hub_transitions_keep_wf(
                hub,
                message.channel,
                command.target(),
                arbitrary(),
                arbitrary(),
            );
        },
        Routing::Accepted => {
            lemma_hub_transitions_keep_wf(hub, arbitrary(), arbitrary(), arbitrary(), message);
        },
        _ => {},
    }
}

/// In a well-formed hub a banned user is no member.
pub proof fn lemma_banned_users_are_not_members(hub: HubView, room: Seq<char>, user: Seq<char>)
    requires
        hub.wf(),
        hub.is_banned(room, user),
    ensures
        !hub.is_member(room, user),
{
    if hub.is_member(room, user) {
        let members = hub.room(room).members;
        let k = choose|k: int| 0 <= k < members.len() && (#[trigger] members[k]).username == user;
        assert(hub.rooms[room].wf());
        assert(!hub.rooms[room].banned.contains(hub.rooms[room].members[k].username));
    }
}

/// A ban is lifted by the order to lift it and by nothing else.
pub proof fn law_only_unban_lifts_a_ban(hub: HubView, op: HubOp, room: Seq<char>, user: Seq<char>)
    requires
        hub.is_banned(room, user),
        !op.lifts_ban(room, user),
    ensures
        apply(hub, op).is_banned(room, user),
{
    match op {
        HubOp::Settle { room: r, recipients, written } => {
            lemma_eviction_keeps_bans(hub, r, recipients, written, room);
        },
        _ => {},
    }
}

/// After `ban(room, user)`, and for as long as no order lifts that ban,
/// the user is banned, is no member, and every attempt to add the user
/// to the room is refused and changes nothing.
pub proof fn law_ban_holds_until_unban(
    hub: HubView,
    room: Seq<char>,
    user: Seq<char>,
    ops: Seq<HubOp>,
    conn: ConnectionView,
)
    requires
        hub.wf(),
        conn.username == user,
        forall|i: int| 0 <= i < ops.len() ==> (#[trigger] ops[i]).admissible() && !ops[i].lifts_ban(
            room,
            user,
        ),
    ensures
        apply_all(hub.ban_user(room, user), ops).wf(),
        apply_all(hub.ban_user(room, user), ops).is_banned(room, user),
        !apply_all(hub.ban_user(room, user), ops).is_member(room, user),
        apply_all(hub.ban_user(room, user), ops).add_user(room, conn) == apply_all(
            hub.ban_user(room, user),
            ops,
        ),
    decreases ops.len(),
{
    let banned = hub.ban_user(room, user);
    if ops.len() == 0 {
        lemma_hub_transitions_keep_wf(hub, room, user, arbitrary(), arbitrary());
    } else {
        let front = ops.drop_last();
        assert forall|i: int| 0 <= i < front.len() implies (#[trigger] front[i]).admissible()
            && !front[i].lifts_ban(room, user) by {
            assert(front[i] == ops[i]);
        }
        law_ban_holds_until_unban(hub, room, user, front, conn);
        assert(ops.last() == ops[ops.len() - 1]);
        law_operations_keep_the_hub_well_formed(apply_all(banned, front), ops.last());
        law_only_unban_lifts_a_ban(apply_all(banned, front), ops.last(), room, user);
    }
    lemma_banned_users_are_not_members(apply_all(banned, ops), room, user);
}

/// Once the ban is lifted the user is admitted again.
pub proof fn law_unban_readmits(hub: HubView, room: Seq<char>, user: Seq<char>, conn: ConnectionView)
    requires
        hub.wf(),
        conn.username == user,
    ensures
        !hub.unban_user(room, user).is_banned(room, user),
        hub.unban_user(room, user).add_user(room, conn).is_member(room, user),
{
    let lifted = hub.unban_user(room, user);
    lemma_joined_is_member(lifted, room, conn);
}

/// A user that is not banned is a member once added.
pub proof fn lemma_joined_is_member(hub: HubView, room: Seq<char>, conn: ConnectionView)
    requires
        !hub.is_banned(room, conn.username),
    ensures
        hub.add_user(room, conn).is_member(room, conn.username),
{
    let before = hub.room(room);
    let after = hub.add_user(room, conn).room(room);
    if !before.has_member(conn.username) {
        assert(after.members == before.members.push(conn));
        assert(after.members[before.members.len() as int].username == conn.username);
    }
}

/// A kick removes the membership and nothing else: the ban set of every
/// room stays as it was, and unless the user was banned beforehand a
/// following join succeeds.
pub proof fn law_kick_keeps_bans_and_allows_return(
    hub: HubView,
    room: Seq<char>,
    user: Seq<char>,
    conn: ConnectionView,
)
    requires
        hub.wf(),
        conn.username == user,
    ensures
        !hub.kick_user(room, user).is_member(room, user),
        forall|r: Seq<char>| hub.kick_user(room, user).room(r).banned == hub.room(r).banned,
        forall|other: Seq<char>|
            other != user ==> (hub.kick_user(room, user).is_member(room, other) <==> hub.is_member(
                room,
                other,
            )),
        !hub.is_banned(room, user) ==> !hub.kick_user(room, user).is_banned(room, user)
            && hub.kick_user(room, user).add_user(room, conn).is_member(room, user),
{
    let kicked = hub.kick_user(room, user);
    if hub.has_room(room) {
        assert(hub.rooms[room].wf());
        lemma_without_properties(hub.rooms[room].members, user);
    }
    if !hub.is_banned(room, user) {
        lemma_joined_is_member(kicked, room, conn);
    }
}

/// A broadcast reaches exactly the connections registered when it is
/// planned: a user unregistered before is not reached, and a plan made
/// before a user registers does not reach that user.
pub proof fn law_broadcast_reaches_the_snapshot(
    hub: HubView,
    room: Seq<char>,
    payload: Seq<char>,
    conn: ConnectionView,
)
    requires
        hub.wf(),
    ensures
        plan(hub, room, payload).recipients == hub.room(room).members,
        plan(hub, room, payload).payload == payload,
        distinct(plan(hub, room, payload).recipients),
        !includes(plan(hub.kick_user(room, conn.username), room, payload).recipients, conn.username),
        !hub.is_member(room, conn.username) ==> !includes(
            plan(hub, room, payload).recipients,
            conn.username,
        ),
        !hub.has_room(room) ==> plan(hub, room, payload).recipients.len() == 0,
{
    if hub.has_room(room) {
        assert(hub.rooms[room].wf());
        lemma_without_properties(hub.rooms[room].members, conn.username);
    }
}

/// Once a connection is removed no broadcast is planned for it, in any
/// room, and the connections of every other writer keep their place.
pub proof fn law_removed_connection_receives_nothing(
    hub: HubView,
    write: WriterId,
    room: Seq<char>,
    payload: Seq<char>,
)
    requires
        hub.wf(),
    ensures
        forall|i: int|
            0 <= i < plan(hub.remove_connection(write), room, payload).recipients.len() ==> (
            #[trigger] plan(hub.remove_connection(write), room, payload).recipients[i]).write
                != write,
        forall|k: int|
            0 <= k < hub.room(room).members.len() && (#[trigger] hub.room(room).members[k]).write
                != write ==> plan(hub.remove_connection(write), room, payload).recipients.contains(
                hub.room(room).members[k],
            ),
{
    if hub.has_room(room) {
        assert(hub.rooms[room].wf());
        lemma_filter_members(hub.rooms[room].members, other_writer(write));
    }
}

/// A failed write costs the peer it failed for its place and nobody
/// else: a recipient of the snapshot the write to whom has failed is
/// evicted, and one that was written to keeps its membership, unless a
/// write through its own connection has failed for another recipient.
pub proof fn law_failed_write_evicts_that_peer_only(
    hub: HubView,
    room: Seq<char>,
    written: Seq<bool>,
    i: int,
)
    requires
        hub.wf(),
        written.len() == hub.room(room).members.len(),
        0 <= i < written.len(),
    ensures
        !written[i] ==> !evict_failed(hub, room, hub.room(room).members, written).is_member(
            room,
            hub.room(room).members[i].username,
        ),
        written[i] && !writer_failed(hub.room(room).members, written, hub.room(room).members[i].write)
            ==> evict_failed(hub, room, hub.room(room).members, written).room(
            room,
        ).members.contains(hub.room(room).members[i]),
        written[i] && !writer_failed(hub.room(room).members, written, hub.room(room).members[i].write)
            ==> evict_failed(hub, room, hub.room(room).members, written).is_member(
            room,
            hub.room(room).members[i].username,
        ),
{
    let recipients = hub.room(room).members;
    let peer = recipients[i];
    let after = evict_failed(hub, room, recipients, written).room(room).members;
    lemma_eviction(hub, room, recipients, written);
    assert(recipients.contains(peer));
    if hub.has_room(room) {
        assert(hub.rooms[room].wf());
    }
    if written[i] {
        if has_failed(recipients, written, peer.username) {
            let k = choose|k: int|
                0 <= k < recipients.len() && k < written.len() && (#[trigger] recipients[k]).username
                    == peer.username && !written[k];
            assert(k != i);
            assert(recipients[k].username != recipients[i].username);
        }
        if !writer_failed(recipients, written, peer.write) {
            assert(after.contains(peer));
            let j = choose|j: int| 0 <= j < after.len() && after[j] == peer;
            assert(after[j].username == peer.username);
        }
    } else {
        if includes(after, peer.username) {
            let j = choose|j: int| 0 <= j < after.len() && (#[trigger] after[j]).username
                == peer.username;
            assert(after.contains(after[j]));
            assert(recipients[i].username == after[j].username && !written[i]);
            assert(has_failed(recipients, written, after[j].username));
        }
    }
}

/// A dead peer is gone from every room: after a broadcast is settled no
/// room lists a connection a write through which has failed, and the
/// connections of every other writer keep their place in other rooms.
pub proof fn law_dead_peers_leave_every_room(
    hub: HubView,
    channel: Seq<char>,
    recipients: Seq<ConnectionView>,
    written: Seq<bool>,
    room: Seq<char>,
    i: int,
)
    requires
        hub.wf(),
        recipients.len() == written.len(),
        0 <= i < evict_failed(hub, channel, recipients, written).room(room).members.len(),
    ensures
        !writer_failed(
            recipients,
            written,
            evict_failed(hub, channel, recipients, written).room(room).members[i].write,
        ),
        hub.room(room).members.contains(
            evict_failed(hub, channel, recipients, written).room(room).members[i],
        ),
        forall|m: ConnectionView|
            room != channel && hub.room(room).members.contains(m) && !writer_failed(
                recipients,
                written,
                m.write,
            ) ==> evict_failed(hub, channel, recipients, written).room(room).members.contains(m),
{
    let after = evict_failed(hub, channel, recipients, written).room(room).members;
    lemma_eviction(hub, channel, recipients, written);
    assert(after.contains(after[i]));
}

/// The router only ever appends to a log: what a room's log held
/// before a message was handled it holds afterwards, in the same order.
pub proof fn law_logs_only_grow(hub: HubView, message: MessageView, room: Seq<char>)
    ensures
        hub.room(room).log.is_prefix_of(route(hub, message).room(room).log),
{
    let before = hub.room(room).log;
    let after = route(hub, message).room(room).log;
    match routing(hub, message) {
        Routing::Accepted => {
            if room == message.channel {
                assert(after == before.push(message));
            }
        },
        _ => {},
    }
    assert(before =~= after.subrange(0, before.len() as int));
}

/// Two messages accepted one after the other into the same channel
/// stand in its log in the order they were sent.
pub proof fn law_messages_are_logged_in_the_order_sent(
    hub: HubView,
    first: MessageView,
    second: MessageView,
)
    requires
        first.channel == second.channel,
        routing(hub, first) is Accepted,
        routing(route(hub, first), second) is Accepted,
    ensures
        route(route(hub, first), second).room(first.channel).log == hub.room(
            first.channel,
        ).log.push(first).push(second),
{
}

/// The hub after the router has handled `messages` one after the
/// other.
pub open spec fn route_all(hub: HubView, messages: Seq<MessageView>) -> HubView
    decreases messages.len(),
{
    if messages.len() == 0 {
        hub
    } else {
        route(route_all(hub, messages.drop_last()), messages.last())
    }
}

/// Those of `messages` that the router accepts into room `room` when it
/// handles them one after the other, in the order they were sent.
pub open spec fn accepted_into(hub: HubView, messages: Seq<MessageView>, room: Seq<char>) -> Seq<
    MessageView,
>
    decreases messages.len(),
{
    if messages.len() == 0 {
        Seq::empty()
    } else {
        let front = messages.drop_last();
        let last = messages.last();
        if last.channel == room && routing(route_all(hub, front), last) is Accepted {
            accepted_into(hub, front, room).push(last)
        } else {
            accepted_into(hub, front, room)
        }
    }
}

/// However many messages are handled, the log of a room is what it was
/// followed by the messages accepted into the room, in the order sent.
pub proof fn law_log_follows_the_sending_order(
    hub: HubView,
    messages: Seq<MessageView>,
    room: Seq<char>,
)
    ensures
        route_all(hub, messages).room(room).log == hub.room(room).log + accepted_into(
            hub,
            messages,
            room,
        ),
    decreases messages.len(),
{
    let before = hub.room(room).log;
    if messages.len() == 0 {
        assert(before + Seq::<MessageView>::empty() =~= before);
    } else {
        let front = messages.drop_last();
        let last = messages.last();
        let middle = route_all(hub, front);
        law_log_follows_the_sending_order(hub, front, room);
        if last.channel == room && routing(middle, last) is Accepted {
            assert(route(middle, last).room(room).log == middle.room(room).log.push(last));
            assert((before + accepted_into(hub, front, room)).push(last) =~= before
                + accepted_into(hub, front, room).push(last));
        } else {
            assert(route(middle, last).room(room).log == middle.room(room).log);
        }
    }
}

/// A message over the content bound never reaches a log and never
/// changes the hub.
pub proof fn law_oversized_messages_change_nothing(hub: HubView, message: MessageView)
    requires
        !message.valid(),
        message.command() is None,
    ensures
        routing(hub, message) == Routing::Rejected(HubError::ContentTooLong),
        route(hub, message) == hub,
        hub.add_message(message) == hub,
{
}

/// A banned player is out of the room at once, and its request to join
/// is answered with the refusal and changes nothing.
pub proof fn law_banned_player_cannot_join(s: SessionView, room: Seq<char>, user: Seq<char>)
    requires
        s.wf(),
        s.is_connected(user),
    ensures
        s.ban_user(room, user).wf(),
        !s.ban_user(room, user).hub.is_member(room, user),
        s.ban_user(room, user).players[user].room != Some(room),
        s.ban_user(room, user).join_room(user, room).state == s.ban_user(room, user),
        s.ban_user(room, user).join_room(user, room).out == seq![
            s.ban_user(room, user).refusal(user, HubError::Banned),
        ],
{
    let t = s.ban_user(room, user);
    lemma_unseat_keeps_wf(s, room, user);
    lemma_banned_users_are_not_members(t.hub, room, user);
}

/// A change of readiness is announced to every member of the player's
/// room, the player itself among them.
pub proof fn law_readiness_reaches_every_member(
    s: SessionView,
    player: Seq<char>,
    ready: bool,
    other: Seq<char>,
)
    requires
        s.wf(),
        s.is_connected(player),
        s.players[player].room is Some,
    ensures
        s.set_ready(player, ready).state.players[player].ready == ready,
        s.set_ready(player, ready).out == seq![
            DispatchView {
                message: ServerEvent::PlayerReady { player_id: player, ready },
                recipients: s.hub.room(s.players[player].room->0).members,
            },
        ],
        includes(s.set_ready(player, ready).out[0].recipients, player),
        s.is_connected(other) && s.players[other].room == s.players[player].room ==> includes(
            s.set_ready(player, ready).out[0].recipients,
            other,
        ),
{
    assert(s.players.contains_key(player));
    if s.is_connected(other) && s.players[other].room == s.players[player].room {
        assert(s.players.contains_key(other));
    }
}

/// Membership and room references describe each other: a user is a
/// member of a room exactly if it is a connected player whose record
/// names that room. So a connection is associated with one room at most.
pub proof fn law_membership_matches_room_reference(s: SessionView, room: Seq<char>, player: Seq<char>)
    requires
        s.wf(),
    ensures
        s.hub.is_member(room, player) <==> s.is_connected(player) && s.players[player].room == Some(
            room,
        ),
        forall|other: Seq<char>|
            other != room && s.hub.is_member(room, player) ==> !s.hub.is_member(other, player),
{
    lemma_member_names_its_room(s, room, player);
    if s.is_connected(player) && s.players[player].room == Some(room) {
        assert(s.players.contains_key(player));
    }
    assert forall|other: Seq<char>| other != room && s.hub.is_member(room, player) implies !s.hub.is_member(
        other,
        player,
    ) by {
        lemma_member_names_its_room(s, other, player);
    }
}

/// A member of a room is a connected player whose record names the room.
proof fn lemma_member_names_its_room(s: SessionView, room: Seq<char>, player: Seq<char>)
    requires
        s.wf(),
    ensures
        s.hub.is_member(room, player) ==> s.is_connected(player) && s.players[player].room == Some(
            room,
        ),
{
    if s.hub.is_member(room, player) {
        let members = s.hub.room(room).members;
        let k = choose|k: int| 0 <= k < members.len() && (#[trigger] members[k]).username == player;
        assert(s.hub.rooms[room].members[k].username == player);
    }
}

/// No message from a client and no end of a connection touches a ban
/// set: a ban is lifted by moderation alone.
pub proof fn law_clients_cannot_lift_bans(
    s: SessionView,
    player: Seq<char>,
    event: ClientEvent,
    room: Seq<char>,
)
    ensures
        s.step(player, event).state.hub.room(room).banned == s.hub.room(room).banned,
        s.disconnect(player).state.hub.room(room).banned == s.hub.room(room).banned,
{
}

} // verus!
