use room_hub::channel::{copy_connections, ChannelManager, UserConnection};
use room_hub::error::{Disposition, HubError};
use room_hub::message::ChatMessage;
use uuid::Uuid;

fn conn(name: &str, write: u64) -> UserConnection {
    UserConnection { username: name.to_string(), write }
}

fn message(id: u128, user: &str, channel: &str, content: &str) -> ChatMessage {
    ChatMessage::with_id(
        Uuid::from_u128(id),
        user.to_string(),
        content.to_string(),
        channel.to_string(),
        None,
        Vec::new(),
    )
}

fn names(hub: &ChannelManager, channel: &str) -> Vec<String> {
    hub.snapshot(channel).into_iter().map(|c| c.username).collect()
}

#[test]
fn new_manager_has_no_rooms() {
    let hub = ChannelManager::new();
    assert!(!hub.has_channel("general"));
    assert!(hub.get_channel_messages("general").is_none());
    assert!(hub.get_connected_users("general").is_none());
    assert!(hub.snapshot("general").is_empty());
    assert!(!hub.is_muted("general", "bob"));
    assert!(!hub.is_banned("general", "bob"));
    assert!(!hub.is_member("general", "bob"));
    assert!(!hub.is_moderator("general", "bob"));
}

#[test]
fn banned_user_cannot_join_until_unbanned() {
    let mut hub = ChannelManager::new();
    hub.ban_user("r1", "bob");
    assert_eq!(hub.add_user("r1", conn("bob", 7)), Err(HubError::Banned));
    hub.mute_user("r1", "bob");
    hub.kick_user("r1", "bob");
    hub.unban_user("r1", "alice");
    hub.unban_user("r2", "bob");
    assert_eq!(hub.add_user("r1", conn("alice", 1)), Ok(()));
    assert_eq!(hub.add_user("r1", conn("bob", 8)), Err(HubError::Banned));
    assert!(!hub.is_member("r1", "bob"));
    assert!(hub.is_banned("r1", "bob"));
    hub.unban_user("r1", "bob");
    assert!(!hub.is_banned("r1", "bob"));
    assert_eq!(hub.add_user("r1", conn("bob", 9)), Ok(()));
    assert!(hub.is_member("r1", "bob"));
}

#[test]
fn ban_is_per_room() {
    let mut hub = ChannelManager::new();
    hub.ban_user("r1", "bob");
    assert_eq!(hub.add_user("r2", conn("bob", 7)), Ok(()));
    assert!(hub.is_member("r2", "bob"));
    assert!(!hub.is_banned("r2", "bob"));
}

#[test]
fn ban_removes_a_member_at_once() {
    let mut hub = ChannelManager::new();
    assert_eq!(hub.add_user("r1", conn("alice", 1)), Ok(()));
    assert_eq!(hub.add_user("r1", conn("bob", 2)), Ok(()));
    assert_eq!(hub.add_user("r1", conn("carol", 3)), Ok(()));
    hub.ban_user("r1", "bob");
    assert!(!hub.is_member("r1", "bob"));
    assert_eq!(names(&hub, "r1"), vec!["alice".to_string(), "carol".to_string()]);
}

#[test]
fn unban_does_not_restore_membership() {
    let mut hub = ChannelManager::new();
    assert_eq!(hub.add_user("r1", conn("bob", 2)), Ok(()));
    hub.ban_user("r1", "bob");
    hub.unban_user("r1", "bob");
    assert!(!hub.is_member("r1", "bob"));
    assert!(!hub.is_banned("r1", "bob"));
}

#[test]
fn kick_leaves_bans_alone_and_allows_rejoin() {
    let mut hub = ChannelManager::new();
    assert_eq!(hub.add_user("r1", conn("alice", 1)), Ok(()));
    assert_eq!(hub.add_user("r1", conn("bob", 2)), Ok(()));
    hub.ban_user("r1", "mallory");
    hub.kick_user("r1", "bob");
    assert!(!hub.is_member("r1", "bob"));
    assert!(hub.is_member("r1", "alice"));
    assert!(!hub.is_banned("r1", "bob"));
    assert!(hub.is_banned("r1", "mallory"));
    assert_eq!(hub.add_user("r1", conn("bob", 5)), Ok(()));
    assert!(hub.is_member("r1", "bob"));
    assert_eq!(hub.snapshot("r1")[1].write, 5);
}

#[test]
fn kick_in_a_missing_room_creates_nothing() {
    let mut hub = ChannelManager::new();
    hub.kick_user("r1", "bob");
    hub.unban_user("r1", "bob");
    hub.unmute_user("r1", "bob");
    hub.remove_moderator("r1", "bob");
    assert!(!hub.has_channel("r1"));
}

#[test]
fn kick_of_a_stranger_changes_nothing() {
    let mut hub = ChannelManager::new();
    assert_eq!(hub.add_user("r1", conn("alice", 1)), Ok(()));
    hub.kick_user("r1", "bob");
    assert_eq!(names(&hub, "r1"), vec!["alice".to_string()]);
}

#[test]
fn first_connection_of_a_user_is_kept() {
    let mut hub = ChannelManager::new();
    assert_eq!(hub.add_user("r1", conn("bob", 2)), Ok(()));
    assert_eq!(hub.add_user("r1", conn("bob", 3)), Ok(()));
    let users = hub.snapshot("r1");
    assert_eq!(users.len(), 1);
    assert_eq!(users[0].username, "bob");
    assert_eq!(users[0].write, 2);
}

#[test]
fn members_are_listed_in_joining_order() {
    let mut hub = ChannelManager::new();
    assert_eq!(hub.add_user("r1", conn("carol", 3)), Ok(()));
    assert_eq!(hub.add_user("r1", conn("alice", 1)), Ok(()));
    assert_eq!(hub.add_user("r1", conn("bob", 2)), Ok(()));
    let users = hub.get_connected_users("r1").expect("room exists");
    let listed: Vec<(String, u64)> = users.iter().map(|c| (c.username.clone(), c.write)).collect();
    assert_eq!(
        listed,
        vec![("carol".to_string(), 3), ("alice".to_string(), 1), ("bob".to_string(), 2)]
    );
}

#[test]
fn snapshot_is_a_copy() {
    let mut hub = ChannelManager::new();
    assert_eq!(hub.add_user("r1", conn("alice", 1)), Ok(()));
    let before = hub.snapshot("r1");
    assert_eq!(hub.add_user("r1", conn("bob", 2)), Ok(()));
    hub.kick_user("r1", "alice");
    assert_eq!(before.len(), 1);
    assert_eq!(before[0].username, "alice");
    assert_eq!(names(&hub, "r1"), vec!["bob".to_string()]);
}

#[test]
fn mute_and_unmute_toggle_the_mute_set_only() {
    let mut hub = ChannelManager::new();
    assert_eq!(hub.add_user("r1", conn("bob", 2)), Ok(()));
    assert!(!hub.is_muted("r1", "bob"));
    hub.mute_user("r1", "bob");
    assert!(hub.is_muted("r1", "bob"));
    assert!(hub.is_member("r1", "bob"));
    assert!(!hub.is_muted("r2", "bob"));
    assert!(!hub.is_muted("r1", "alice"));
    hub.unmute_user("r1", "bob");
    assert!(!hub.is_muted("r1", "bob"));
    assert!(hub.is_member("r1", "bob"));
}

#[test]
fn moderator_rights_are_granted_and_withdrawn() {
    let mut hub = ChannelManager::new();
    hub.add_moderator("r1", "alice");
    assert!(hub.is_moderator("r1", "alice"));
    assert!(!hub.is_moderator("r2", "alice"));
    assert!(!hub.is_member("r1", "alice"));
    hub.remove_moderator("r1", "alice");
    assert!(!hub.is_moderator("r1", "alice"));
}

#[test]
fn create_room_fails_when_the_identifier_is_taken() {
    let mut hub = ChannelManager::new();
    assert_eq!(hub.create_room("r1"), Ok(()));
    assert!(hub.has_channel("r1"));
    assert_eq!(hub.create_room("r1"), Err(HubError::AlreadyExists));
    assert_eq!(hub.create_room("r2"), Ok(()));
}

#[test]
fn channel_is_created_on_first_reference() {
    let mut hub = ChannelManager::new();
    assert!(hub.get_or_create_channel("general"));
    assert!(!hub.get_or_create_channel("general"));
    assert!(hub.has_channel("general"));
    assert_eq!(hub.get_channel_messages("general").map(|log| log.len()), Some(0));
    assert_eq!(hub.get_connected_users("general").map(|users| users.len()), Some(0));
}

#[test]
fn messages_are_logged_in_order() {
    let mut hub = ChannelManager::new();
    assert_eq!(hub.add_message(message(1, "alice", "general", "one")), Ok(()));
    assert_eq!(hub.add_message(message(2, "bob", "general", "two")), Ok(()));
    assert_eq!(hub.add_message(message(3, "alice", "other", "three")), Ok(()));
    let log = hub.get_channel_messages("general").expect("channel exists");
    let contents: Vec<&str> = log.iter().map(|m| m.content.as_str()).collect();
    assert_eq!(contents, vec!["one", "two"]);
    assert_eq!(log[0].id, Uuid::from_u128(1));
    let other = hub.get_channel_messages("other").expect("channel exists");
    assert_eq!(other.len(), 1);
}

#[test]
fn oversized_message_is_not_logged() {
    let mut hub = ChannelManager::new();
    let long = "x".repeat(501);
    assert_eq!(
        hub.add_message(message(1, "alice", "general", &long)),
        Err(HubError::ContentTooLong)
    );
    assert!(!hub.has_channel("general"));
    assert_eq!(hub.add_message(message(2, "alice", "general", &"x".repeat(500))), Ok(()));
    assert_eq!(hub.get_channel_messages("general").map(|log| log.len()), Some(1));
}

#[test]
fn many_rooms_stay_apart() {
    let mut hub = ChannelManager::new();
    for i in 0..50u64 {
        let room = format!("room{}", i);
        assert_eq!(hub.add_user(&room, conn("alice", i)), Ok(()));
        if i % 2 == 0 {
            hub.ban_user(&room, "bob");
        }
    }
    for i in 0..50u64 {
        let room = format!("room{}", i);
        assert_eq!(hub.snapshot(&room)[0].write, i);
        assert_eq!(hub.is_banned(&room, "bob"), i % 2 == 0);
    }
}

#[test]
fn connections_compare_by_user() {
    assert_eq!(conn("bob", 1), conn("bob", 2));
    assert_ne!(conn("bob", 1), conn("alice", 1));
}

#[test]
fn copy_connections_keeps_users_and_writers() {
    let users = vec![conn("alice", 1), conn("bob", 2)];
    let copy = copy_connections(&users);
    assert_eq!(copy.len(), 2);
    assert_eq!(copy[0].username, "alice");
    assert_eq!(copy[0].write, 1);
    assert_eq!(copy[1].username, "bob");
    assert_eq!(copy[1].write, 2);
    let one = conn("carol", 3).clone();
    assert_eq!(one.write, 3);
}

#[test]
fn failures_are_contained_as_their_kind_demands() {
    assert_eq!(HubError::DecodeError.disposition(), Disposition::ReportToSender);
    assert_eq!(HubError::NotFound.disposition(), Disposition::ReportToSender);
    assert_eq!(HubError::AlreadyExists.disposition(), Disposition::ReportToSender);
    assert_eq!(HubError::Banned.disposition(), Disposition::ReportToSender);
    assert_eq!(HubError::Unauthorized.disposition(), Disposition::ReportToSender);
    assert_eq!(HubError::ContentTooLong.disposition(), Disposition::ReportToSender);
    assert_eq!(HubError::AlreadyInRoom.disposition(), Disposition::ReportToSender);
    assert_eq!(HubError::PeerWriteFailure.disposition(), Disposition::EvictPeer);
    assert_eq!(HubError::TransportFailure.disposition(), Disposition::CloseConnection);
}

#[test]
fn failures_have_their_own_texts() {
    assert_eq!(HubError::NotFound.message(), "Room not found");
    assert_eq!(HubError::AlreadyExists.message(), "Room already exists");
    assert_eq!(HubError::Banned.message(), "Banned from room");
    assert_eq!(HubError::Unauthorized.message(), "Not a moderator");
    assert_eq!(HubError::ContentTooLong.message(), "Message too long");
    assert_eq!(HubError::AlreadyInRoom.message(), "Already in a room");
    assert_eq!(HubError::DecodeError.message(), "Malformed message");
    assert_eq!(HubError::PeerWriteFailure.message(), "Peer write failed");
    assert_eq!(HubError::TransportFailure.message(), "Transport failed");
}

#[test]
fn removing_a_connection_clears_it_from_every_room() {
    let mut hub = ChannelManager::new();
    assert_eq!(hub.add_user("r1", conn("alice", 1)), Ok(()));
    assert_eq!(hub.add_user("r1", conn("bob", 2)), Ok(()));
    assert_eq!(hub.add_user("r1", conn("bobby", 2)), Ok(()));
    assert_eq!(hub.add_user("r1", conn("carol", 3)), Ok(()));
    assert_eq!(hub.add_user("r2", conn("bob", 2)), Ok(()));
    assert_eq!(hub.add_user("r3", conn("dave", 4)), Ok(()));
    hub.ban_user("r3", "mallory");
    hub.remove_connection(2);
    assert_eq!(names(&hub, "r1"), vec!["alice".to_string(), "carol".to_string()]);
    assert!(hub.snapshot("r2").is_empty());
    assert!(hub.has_channel("r2"));
    assert_eq!(names(&hub, "r3"), vec!["dave".to_string()]);
    assert!(hub.is_banned("r3", "mallory"));
    hub.remove_connection(99);
    assert_eq!(names(&hub, "r1"), vec!["alice".to_string(), "carol".to_string()]);
    assert_eq!(hub.add_user("r1", conn("bob", 5)), Ok(()));
}
