//! The chat message router: tells a moderation command from an ordinary
//! message, checks the sender's standing, and applies the outcome to
//! the hub.
use crate::channel::{ChannelManager, UserConnection};
use crate::error::HubError;
use crate::message::{ChatMessage, MessageView, ModerationAction, ModerationCommand};
use crate::room::{ConnectionView, HubView, WriterId};
use vstd::prelude::*;
use vstd::string::*;

verus! {

/// What became of an inbound chat message.
#[derive(Debug, PartialEq, Eq)]
pub enum Routed {
    /// The message spelled a moderation command, which was applied.
    Moderated(ModerationAction),
    /// The message entered its channel's log and is to be broadcast.
    Accepted,
    /// The sender is muted: the message was discarded unlogged and is
    /// not to be broadcast.
    Dropped,
    /// The message was refused; the sender is to be told why.
    Rejected(HubError),
}

/// Model of a [`Routed`].
pub enum Routing {
    Moderated(ModerationCommand),
    Accepted,
    Dropped,
    Rejected(HubError),
}

impl View for Routed {
    type V = Routing;

    open spec fn view(&self) -> Routing {
        match self {
            Routed::Moderated(action) => Routing::Moderated(action@),
            Routed::Accepted => Routing::Accepted,
            Routed::Dropped => Routing::Dropped,
            Routed::Rejected(e) => Routing::Rejected(*e),
        }
    }
}

/// The hub after `command` was applied to room `channel`.
pub open spec fn apply_command(hub: HubView, channel: Seq<char>, command: ModerationCommand) -> HubView {
    match command {
        ModerationCommand::Kick(user) => hub.kick_user(channel, user),
        ModerationCommand::Ban(user) => hub.ban_user(channel, user),
        ModerationCommand::Unban(user) => hub.unban_user(channel, user),
        ModerationCommand::Mute(user) => hub.mute_user(channel, user),
        ModerationCommand::Unmute(user) => hub.unmute_user(channel, user),
    }
}

/// The hub after `issuer` has ordered `command` for room `channel`: the
/// command is applied if the issuer is a moderator of the room, and
/// discarded otherwise.
pub open spec fn moderate(
    hub: HubView,
    issuer: Seq<char>,
    channel: Seq<char>,
    command: ModerationCommand,
) -> HubView {
    if hub.is_moderator(channel, issuer) {
        apply_command(hub, channel, command)
    } else {
        hub
    }
}

/// How the router disposes of `message` as the hub stands. A command
/// counts only from a moderator of the channel. An ordinary message must
/// respect the content bound, and is discarded if its sender is muted.
pub open spec fn routing(hub: HubView, message: MessageView) -> Routing {
    match message.command() {
        Some(command) => if hub.is_moderator(message.channel, message.user) {
            Routing::Moderated(command)
        } else {
            Routing::Rejected(HubError::Unauthorized)
        },
        None => if !message.valid() {
            Routing::Rejected(HubError::ContentTooLong)
        } else if hub.is_muted(message.channel, message.user) {
            Routing::Dropped
        } else {
            Routing::Accepted
        },
    }
}

/// The hub after the router has handled `message`.
pub open spec fn route(hub: HubView, message: MessageView) -> HubView {
    match routing(hub, message) {
        Routing::Moderated(command) => apply_command(hub, message.channel, command),
        Routing::Accepted => hub.add_message(message),
        Routing::Dropped => hub,
        Routing::Rejected(_) => hub,
    }
}

/// How the router disposes of `message` when it arrives over the
/// connection written through `write`. A sender banned from the channel
/// is refused; any other sender is registered in the channel, if it is
/// not yet, before the message is routed.
pub open spec fn reception(hub: HubView, message: MessageView, write: WriterId) -> Routing {
    if hub.is_banned(message.channel, message.user) {
        Routing::Rejected(HubError::Banned)
    } else {
        routing(hub.add_user(message.channel, sender(message, write)), message)
    }
}

/// The hub after `message` has arrived over the connection written
/// through `write`.
pub open spec fn receive(hub: HubView, message: MessageView, write: WriterId) -> HubView {
    if hub.is_banned(message.channel, message.user) {
        hub
    } else {
        route(hub.add_user(message.channel, sender(message, write)), message)
    }
}

/// The connection a message arrived over.
pub open spec fn sender(message: MessageView, write: WriterId) -> ConnectionView {
    ConnectionView { username: message.user, write }
}

/// Applies a moderation command to room `channel`, whoever ordered it.
fn apply_action(action: &ModerationAction, manager: &mut ChannelManager, channel: &str)
    requires
        old(manager).wf(),
    ensures
        final(manager).wf(),
        final(manager)@ == apply_command(old(manager)@, channel@, action@),
{
    match action {
        ModerationAction::Kick(user) => manager.kick_user(channel, user.as_str()),
        ModerationAction::Ban(user) => manager.ban_user(channel, user.as_str()),
        ModerationAction::Unban(user) => manager.unban_user(channel, user.as_str()),
        ModerationAction::Mute(user) => manager.mute_user(channel, user.as_str()),
        ModerationAction::Unmute(user) => manager.unmute_user(channel, user.as_str()),
    }
}

/// Carries out a moderation command ordered by `issuer` for room
/// `channel`. Only a moderator of the room may order one: from anyone
/// else the command is discarded, the hub stays as it was, and the
/// refusal is returned for the issuer.
pub fn handle_moderation(
    issuer: &str,
    action: &ModerationAction,
    manager: &mut ChannelManager,
    channel: &str,
) -> (r: Result<(), HubError>)
    requires
        old(manager).wf(),
    ensures
        final(manager).wf(),
        final(manager)@ == moderate(old(manager)@, issuer@, channel@, action@),
        old(manager)@.is_moderator(channel@, issuer@) ==> r is Ok && final(manager)@
            == apply_command(old(manager)@, channel@, action@),
        !old(manager)@.is_moderator(channel@, issuer@) ==> r == Err::<(), HubError>(
            HubError::Unauthorized,
        ) && final(manager)@ == old(manager)@,
{
    if manager.is_moderator(channel, issuer) {
        apply_action(action, manager, channel);
        Ok(())
    } else {
        Err(HubError::Unauthorized)
    }
}

/// Routes one inbound chat message. A command from a moderator is
/// applied, from anyone else refused. An ordinary message over the
/// content bound is refused before it reaches the log; one from a muted
/// sender is discarded; any other is appended to the log of its channel.
pub fn handle_message(incoming: ChatMessage, manager: &mut ChannelManager) -> (r: Routed)
    requires
        old(manager).wf(),
    ensures
        final(manager).wf(),
        r@ == routing(old(manager)@, incoming@),
        final(manager)@ == route(old(manager)@, incoming@),
{
    match incoming.parse_moderation_command() {
        Some(action) => {
            match handle_moderation(
                incoming.user.as_str(),
                &action,
                manager,
                incoming.channel.as_str(),
            ) {
                Ok(()) => Routed::Moderated(action),
                Err(e) => Routed::Rejected(e),
            }
        },
        None => {
            if !incoming.is_valid() {
                Routed::Rejected(HubError::ContentTooLong)
            } else if manager.is_muted(incoming.channel.as_str(), incoming.user.as_str()) {
                Routed::Dropped
            } else {
                let _ = manager.add_message(incoming);
                Routed::Accepted
            }
        },
    }
}

/// Takes in one chat message that arrived over the connection written
/// through `write`: registers the sender in the channel of the message,
/// then routes the message. A sender banned from the channel is refused
/// and nothing changes.
pub fn receive_message(incoming: ChatMessage, write: WriterId, manager: &mut ChannelManager) -> (r:
    Routed)
    requires
        old(manager).wf(),
    ensures
        final(manager).wf(),
        r@ == reception(old(manager)@, incoming@, write),
        final(manager)@ == receive(old(manager)@, incoming@, write),
{
    let connection = UserConnection { username: incoming.user.clone(), write };
    match manager.add_user(incoming.channel.as_str(), connection) {
        Ok(()) => handle_message(incoming, manager),
        Err(e) => Routed::Rejected(e),
    }
}

} // verus!
