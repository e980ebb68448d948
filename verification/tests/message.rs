use room_hub::message::{ChatMessage, ModerationAction, MAX_CONTENT_LEN};
use uuid::Uuid;

fn message(content: &str) -> ChatMessage {
    ChatMessage::with_id(
        Uuid::from_u128(1),
        "alice".to_string(),
        content.to_string(),
        "general".to_string(),
        None,
        Vec::new(),
    )
}

#[test]
fn kick_command_is_parsed() {
    assert_eq!(
        message("/kick bob").parse_moderation_command(),
        Some(ModerationAction::Kick("bob".to_string()))
    );
}

#[test]
fn ban_command_is_parsed() {
    assert_eq!(
        message("/ban bob").parse_moderation_command(),
        Some(ModerationAction::Ban("bob".to_string()))
    );
}

#[test]
fn unban_command_is_parsed() {
    assert_eq!(
        message("/unban bob").parse_moderation_command(),
        Some(ModerationAction::Unban("bob".to_string()))
    );
}

#[test]
fn mute_command_is_parsed() {
    assert_eq!(
        message("/mute bob").parse_moderation_command(),
        Some(ModerationAction::Mute("bob".to_string()))
    );
}

#[test]
fn unmute_command_is_parsed() {
    assert_eq!(
        message("/unmute bob").parse_moderation_command(),
        Some(ModerationAction::Unmute("bob".to_string()))
    );
}

#[test]
fn command_argument_is_trimmed() {
    assert_eq!(
        message("/kick   bob \t\n").parse_moderation_command(),
        Some(ModerationAction::Kick("bob".to_string()))
    );
    assert_eq!(
        message("/ban \u{3000}b o b\u{a0}").parse_moderation_command(),
        Some(ModerationAction::Ban("b o b".to_string()))
    );
}

#[test]
fn command_argument_may_be_empty() {
    assert_eq!(
        message("/kick ").parse_moderation_command(),
        Some(ModerationAction::Kick(String::new()))
    );
    assert_eq!(
        message("/mute    ").parse_moderation_command(),
        Some(ModerationAction::Mute(String::new()))
    );
}

#[test]
fn command_argument_keeps_non_ascii_names() {
    assert_eq!(
        message("/kick zoë").parse_moderation_command(),
        Some(ModerationAction::Kick("zoë".to_string()))
    );
}

#[test]
fn ordinary_content_is_no_command() {
    assert_eq!(message("hello").parse_moderation_command(), None);
    assert_eq!(message("").parse_moderation_command(), None);
    assert_eq!(message("/kick").parse_moderation_command(), None);
    assert_eq!(message("/kickbob").parse_moderation_command(), None);
    assert_eq!(message(" /kick bob").parse_moderation_command(), None);
    assert_eq!(message("/KICK bob").parse_moderation_command(), None);
    assert_eq!(message("/promote bob").parse_moderation_command(), None);
}

#[test]
fn content_of_500_bytes_is_valid() {
    assert_eq!(MAX_CONTENT_LEN, 500);
    assert!(message(&"a".repeat(500)).is_valid());
    assert!(message("").is_valid());
}

#[test]
fn content_of_501_bytes_is_invalid() {
    assert!(!message(&"a".repeat(501)).is_valid());
}

#[test]
fn content_bound_counts_bytes_of_utf8() {
    assert!(message(&"é".repeat(250)).is_valid());
    assert!(!message(&"é".repeat(251)).is_valid());
}

#[test]
fn new_message_keeps_its_fields() {
    let reply = Some(Uuid::from_u128(9));
    let m = ChatMessage::new(
        "alice".to_string(),
        "hi".to_string(),
        "general".to_string(),
        reply,
        vec!["wave".to_string()],
    );
    assert_eq!(m.user, "alice");
    assert_eq!(m.content, "hi");
    assert_eq!(m.channel, "general");
    assert_eq!(m.reply_to, reply);
    assert_eq!(m.emotes, vec!["wave".to_string()]);
}

#[test]
fn new_messages_get_random_identifiers() {
    let a = ChatMessage::new("a".to_string(), "x".to_string(), "c".to_string(), None, Vec::new());
    let b = ChatMessage::new("a".to_string(), "x".to_string(), "c".to_string(), None, Vec::new());
    assert_ne!(a.id, b.id);
    assert_eq!(a.id.get_version_num(), 4);
    assert_ne!(a.id, Uuid::nil());
}

#[test]
fn with_id_uses_the_identifier_given() {
    let m = message("hello");
    assert_eq!(m.id, Uuid::from_u128(1));
    assert_eq!(m.reply_to, None);
}

#[test]
fn cloned_message_equals_its_source() {
    let m = ChatMessage::with_id(
        Uuid::from_u128(77),
        "alice".to_string(),
        "hi".to_string(),
        "general".to_string(),
        Some(Uuid::from_u128(5)),
        vec!["wave".to_string(), "smile".to_string()],
    );
    let c = m.clone();
    assert_eq!(c, m);
    assert_eq!(c.id, Uuid::from_u128(77));
    assert_eq!(c.reply_to, Some(Uuid::from_u128(5)));
    assert_eq!(c.emotes.len(), 2);
}

#[test]
fn cloned_action_equals_its_source() {
    let a = ModerationAction::Ban("bob".to_string());
    assert_eq!(a.clone(), a);
    assert_ne!(a, ModerationAction::Kick("bob".to_string()));
}
