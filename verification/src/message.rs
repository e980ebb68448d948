//! Chat messages and the moderation commands that may be embedded in them.
use crate::text::{chars_of, strip_prefix, trim, trimmed_range};
use uuid::Uuid;
use vstd::prelude::*;
use vstd::string::*;
use vstd::utf8::encode_utf8;

verus! {

/// `uuid::Uuid`, carried through the library as an opaque identifier.
#[verifier::external_type_specification]
#[verifier::external_body]
pub struct ExUuid(uuid::Uuid);

/// `uuid::Uuid::new_v4`: draws a random identifier from the operating system's
/// generator. Nothing is claimed about the value. The call panics if the
/// operating system cannot supply random bytes.
#[verifier::external_body]
pub(crate) fn fresh_uuid() -> (id: Uuid) {
    Uuid::new_v4()
}

/// Whether `c` is a decimal digit or one of the letters `a` to `f`.
pub open spec fn is_lower_hex(c: char) -> bool {
    let n = c as u32;
    0x30 <= n <= 0x39 || 0x61 <= n <= 0x66
}

/// The shape of an identifier written out: thirty-six characters, four
/// hyphens that part groups of 8, 4, 4, 4 and 12 lower-case hex digits.
pub open spec fn is_identifier_text(text: Seq<char>) -> bool {
    &&& text.len() == 36
    &&& forall|i: int|
        0 <= i < 36 ==> if i == 8 || i == 13 || i == 18 || i == 23 {
            #[trigger] text[i] == '-'
        } else {
            is_lower_hex(#[trigger] text[i])
        }
}

/// `uuid::Uuid`'s `Display`, reached through `to_string`: writes the
/// identifier in its hyphenated lower-case form. The contract claims the
/// shape of that form, which every identifier has; it does not say which
/// digits stand in it.
#[verifier::external_body]
pub(crate) fn identifier_text(id: &Uuid) -> (text: String)
    ensures
        is_identifier_text(text@),
{
    id.to_string()
}

/// Largest accepted size of a message's content, in bytes of UTF-8.
pub const MAX_CONTENT_LEN: usize = 500;

/// A moderation command addressed at a user.
#[derive(Debug, PartialEq, Eq)]
pub enum ModerationAction {
    /// Remove the user from the channel; rejoining is allowed.
    Kick(String),
    /// Remove the user from the channel and refuse future joins.
    Ban(String),
    /// Lift a ban; membership is not restored.
    Unban(String),
    /// Silence the user in the channel.
    Mute(String),
    /// Lift a mute.
    Unmute(String),
}

/// Mathematical model of a [`ModerationAction`].
pub enum ModerationCommand {
    Kick(Seq<char>),
    Ban(Seq<char>),
    Unban(Seq<char>),
    Mute(Seq<char>),
    Unmute(Seq<char>),
}

impl ModerationCommand {
    /// The user the command is aimed at.
    pub open spec fn target(self) -> Seq<char> {
        match self {
            ModerationCommand::Kick(u) => u,
            ModerationCommand::Ban(u) => u,
            ModerationCommand::Unban(u) => u,
            ModerationCommand::Mute(u) => u,
            ModerationCommand::Unmute(u) => u,
        }
    }
}

impl View for ModerationAction {
    type V = ModerationCommand;

    open spec fn view(&self) -> ModerationCommand {
        match self {
            ModerationAction::Kick(u) => ModerationCommand::Kick(u@),
            ModerationAction::Ban(u) => ModerationCommand::Ban(u@),
            ModerationAction::Unban(u) => ModerationCommand::Unban(u@),
            ModerationAction::Mute(u) => ModerationCommand::Mute(u@),
            ModerationAction::Unmute(u) => ModerationCommand::Unmute(u@),
        }
    }
}

impl Clone for ModerationAction {
    fn clone(&self) -> (r: Self)
        ensures
            r@ == self@,
    {
        match self {
            ModerationAction::Kick(u) => ModerationAction::Kick(u.clone()),
            ModerationAction::Ban(u) => ModerationAction::Ban(u.clone()),
            ModerationAction::Unban(u) => ModerationAction::Unban(u.clone()),
            ModerationAction::Mute(u) => ModerationAction::Mute(u.clone()),
            ModerationAction::Unmute(u) => ModerationAction::Unmute(u.clone()),
        }
    }
}

/// The argument of a command: what follows `marker` in `content`, trimmed.
pub open spec fn command_argument(content: Seq<char>, marker: Seq<char>) -> Seq<char> {
    trim(content.skip(marker.len() as int))
}

/// The command grammar: a reserved marker at the very start of the content,
/// followed by the target user. Content without a marker is no command.
pub open spec fn parse_command(content: Seq<char>) -> Option<ModerationCommand> {
    if "/kick "@.is_prefix_of(content) {
        Some(ModerationCommand::Kick(command_argument(content, "/kick "@)))
    } else if "/ban "@.is_prefix_of(content) {
        Some(ModerationCommand::Ban(command_argument(content, "/ban "@)))
    } else if "/unban "@.is_prefix_of(content) {
        Some(ModerationCommand::Unban(command_argument(content, "/unban "@)))
    } else if "/mute "@.is_prefix_of(content) {
        Some(ModerationCommand::Mute(command_argument(content, "/mute "@)))
    } else if "/unmute "@.is_prefix_of(content) {
        Some(ModerationCommand::Unmute(command_argument(content, "/unmute "@)))
    } else {
        None
    }
}

/// Whether content of this shape respects the size bound.
pub open spec fn content_fits(content: Seq<char>) -> bool {
    encode_utf8(content).len() <= MAX_CONTENT_LEN
}

/// The model of an optional parsed command.
pub open spec fn command_of(action: Option<ModerationAction>) -> Option<ModerationCommand> {
    match action {
        Some(a) => Some(a@),
        None => None,
    }
}

/// A chat message as received from a client.
#[derive(Debug, PartialEq, Eq)]
pub struct ChatMessage {
    pub id: Uuid,
    pub user: String,
    pub content: String,
    pub channel: String,
    /// Identifier of the message being replied to.
    pub reply_to: Option<Uuid>,
    /// Custom emote tags attached to the message.
    pub emotes: Vec<String>,
}

/// Mathematical model of a [`ChatMessage`].
pub struct MessageView {
    pub id: Uuid,
    pub user: Seq<char>,
    pub content: Seq<char>,
    pub channel: Seq<char>,
    pub reply_to: Option<Uuid>,
    pub emotes: Seq<Seq<char>>,
}

impl MessageView {
    /// Whether the message respects the content bound.
    pub open spec fn valid(self) -> bool {
        content_fits(self.content)
    }

    /// The moderation command the content spells, if any.
    pub open spec fn command(self) -> Option<ModerationCommand> {
        parse_command(self.content)
    }
}

impl View for ChatMessage {
    type V = MessageView;

    open spec fn view(&self) -> MessageView {
        MessageView {
            id: self.id,
            user: self.user@,
            content: self.content@,
            channel: self.channel@,
            reply_to: self.reply_to,
            emotes: self.emotes@.map_values(|e: String| e@),
        }
    }
}

impl Clone for ChatMessage {
    fn clone(&self) -> (r: Self)
        ensures
            r@ == self@,
    {
        let mut emotes: Vec<String> = Vec::new();
        let mut i: usize = 0;
        while i < self.emotes.len()
            invariant
                i <= self.emotes.len(),
                emotes@.len() == i,
                forall|j: int| 0 <= j < i ==> emotes@[j]@ == self.emotes@[j]@,
            decreases self.emotes.len() - i,
        {
            emotes.push(self.emotes[i].clone());
            i = i + 1;
        }
        let r = ChatMessage {
            id: self.id,
            user: self.user.clone(),
            content: self.content.clone(),
            channel: self.channel.clone(),
            reply_to: self.reply_to,
            emotes,
        };
        assert(r@.emotes =~= self@.emotes);
        r
    }
}

impl ChatMessage {
    /// Builds a message under a freshly drawn identifier.
    pub fn new(
        user: String,
        content: String,
        channel: String,
        reply_to: Option<Uuid>,
        emotes: Vec<String>,
    ) -> (m: Self)
        ensures
            m.user == user,
            m.content == content,
            m.channel == channel,
            m.reply_to == reply_to,
            m.emotes == emotes,
    {
        ChatMessage::with_id(fresh_uuid(), user, content, channel, reply_to, emotes)
    }

    /// Builds a message under the identifier given.
    pub fn with_id(
        id: Uuid,
        user: String,
        content: String,
        channel: String,
        reply_to: Option<Uuid>,
        emotes: Vec<String>,
    ) -> (m: Self)
        ensures
            m == (ChatMessage { id, user, content, channel, reply_to, emotes }),
    {
        ChatMessage { id, user, content, channel, reply_to, emotes }
    }

    /// Reads a moderation command out of the content, if it spells one.
    pub fn parse_moderation_command(&self) -> (r: Option<ModerationAction>)
        ensures
            command_of(r) == self@.command(),
    {
        let content = self.content.as_str();
        let chars = chars_of(content);
        if let Some(n) = strip_prefix(&chars, "/kick ") {
            Some(ModerationAction::Kick(argument(content, &chars, n)))
        } else if let Some(n) = strip_prefix(&chars, "/ban ") {
            Some(ModerationAction::Ban(argument(content, &chars, n)))
        } else if let Some(n) = strip_prefix(&chars, "/unban ") {
            Some(ModerationAction::Unban(argument(content, &chars, n)))
        } else if let Some(n) = strip_prefix(&chars, "/mute ") {
            Some(ModerationAction::Mute(argument(content, &chars, n)))
        } else if let Some(n) = strip_prefix(&chars, "/unmute ") {
            Some(ModerationAction::Unmute(argument(content, &chars, n)))
        } else {
            None
        }
    }

    /// Whether the content respects the size bound.
    pub fn is_valid(&self) -> (b: bool)
        ensures
            b == self@.valid(),
    {
        self.content.as_str().as_bytes().len() <= MAX_CONTENT_LEN
    }
}

/// Cuts the trimmed argument that follows a marker of `skip` characters.
fn argument(content: &str, chars: &Vec<char>, skip: usize) -> (name: String)
    requires
        chars@ == content@,
        skip <= chars.len(),
    ensures
        name@ == trim(content@.skip(skip as int)),
{
    let (a, b) = trimmed_range(chars, skip);
    content.substring_char(a, b).to_owned()
}

} // verus!
