use room_hub::channel::UserConnection;
use room_hub::error::HubError;
use room_hub::message::ModerationAction;
use room_hub::session::{copy_grid, ClientMessage, Dispatch, ServerMessage, SessionHub};

fn create(room: &str) -> ClientMessage {
    ClientMessage::CreateRoom { room_id: room.to_string() }
}

fn join(room: &str) -> ClientMessage {
    ClientMessage::JoinRoom { room_id: room.to_string() }
}

fn error(e: HubError) -> ServerMessage {
    ServerMessage::Error { message: e.message() }
}

fn to(d: &Dispatch) -> Vec<(String, u64)> {
    d.recipients.iter().map(|c| (c.username.clone(), c.write)).collect()
}

fn who(name: &str, write: u64) -> (String, u64) {
    (name.to_string(), write)
}

fn hub_with(players: &[(&str, u64)]) -> SessionHub {
    let mut hub = SessionHub::new();
    for (name, write) in players {
        assert_eq!(
            hub.connect_as(name.to_string(), *write),
            Ok(ServerMessage::Connected { player_id: name.to_string() })
        );
    }
    hub
}

fn room_with_alice_and_bob() -> SessionHub {
    let mut hub = hub_with(&[("alice", 1), ("bob", 2)]);
    assert_eq!(hub.handle("alice", create("r1")).len(), 1);
    assert_eq!(hub.handle("bob", join("r1")).len(), 2);
    hub
}

#[test]
fn ready_is_announced_to_both_members() {
    let mut hub = hub_with(&[("alice", 1), ("bob", 2)]);
    let created = hub.handle("alice", create("r1"));
    assert_eq!(created.len(), 1);
    assert_eq!(created[0].message, ServerMessage::RoomCreated { room_id: "r1".to_string() });
    let again = hub.handle("alice", join("r1"));
    assert_eq!(again.len(), 1);
    assert_eq!(again[0].message, ServerMessage::JoinedRoom { room_id: "r1".to_string() });
    assert_eq!(hub.handle("bob", join("r1")).len(), 2);
    let out = hub.handle("alice", ClientMessage::Ready { ready: true });
    assert_eq!(out.len(), 1);
    assert_eq!(
        out[0].message,
        ServerMessage::PlayerReady { player_id: "alice".to_string(), ready: true }
    );
    assert_eq!(to(&out[0]), vec![who("alice", 1), who("bob", 2)]);
    assert!(hub.is_ready("alice"));
    assert!(!hub.is_ready("bob"));
}

#[test]
fn banned_member_is_removed_and_cannot_join() {
    let mut hub = room_with_alice_and_bob();
    hub.ban_user("r1", "bob");
    assert!(!hub.store().is_member("r1", "bob"));
    assert!(hub.store().is_banned("r1", "bob"));
    assert_eq!(hub.room_of("bob"), None);
    let out = hub.handle("bob", join("r1"));
    assert_eq!(out.len(), 1);
    assert_eq!(out[0].message, error(HubError::Banned));
    assert_eq!(out[0].message, ServerMessage::Error { message: "Banned from room".to_string() });
    assert_eq!(to(&out[0]), vec![who("bob", 2)]);
    assert!(!hub.store().is_member("r1", "bob"));
    hub.unban_user("r1", "bob");
    let back = hub.handle("bob", join("r1"));
    assert_eq!(back.len(), 2);
    assert!(hub.store().is_member("r1", "bob"));
}

#[test]
fn connect_draws_a_fresh_identifier() {
    let mut hub = SessionHub::new();
    let first = match hub.connect(1) {
        Ok(ServerMessage::Connected { player_id }) => player_id,
        other => panic!("unexpected greeting {:?}", other),
    };
    let second = match hub.connect(2) {
        Ok(ServerMessage::Connected { player_id }) => player_id,
        other => panic!("unexpected greeting {:?}", other),
    };
    assert_ne!(first, second);
    assert_eq!(first.len(), 36);
    for (i, c) in first.chars().enumerate() {
        if i == 8 || i == 13 || i == 18 || i == 23 {
            assert_eq!(c, '-');
        } else {
            assert!(c.is_ascii_digit() || ('a'..='f').contains(&c), "character {:?}", c);
        }
    }
    assert!(hub.is_connected(&first));
    assert!(hub.is_connected(&second));
    assert_eq!(hub.room_of(&first), None);
    assert!(!hub.is_ready(&first));
}

#[test]
fn connect_as_refuses_a_taken_identifier() {
    let mut hub = room_with_alice_and_bob();
    assert_eq!(hub.connect_as("alice".to_string(), 9), Err(HubError::AlreadyExists));
    assert_eq!(hub.room_of("alice"), Some("r1".to_string()));
    let out = hub.handle("bob", ClientMessage::Ready { ready: true });
    assert_eq!(to(&out[0]), vec![who("alice", 1), who("bob", 2)]);
}

#[test]
fn message_of_an_unknown_player_is_ignored() {
    let mut hub = hub_with(&[("alice", 1)]);
    assert!(hub.handle("ghost", create("r1")).is_empty());
    assert!(!hub.store().has_channel("r1"));
    assert!(hub.handle("ghost", ClientMessage::LeaveRoom).is_empty());
    assert!(hub.disconnect("ghost").is_empty());
}

#[test]
fn create_room_makes_the_caller_its_sole_member() {
    let mut hub = hub_with(&[("alice", 1)]);
    let out = hub.handle("alice", create("r1"));
    assert_eq!(out.len(), 1);
    assert_eq!(out[0].message, ServerMessage::RoomCreated { room_id: "r1".to_string() });
    assert_eq!(to(&out[0]), vec![who("alice", 1)]);
    assert_eq!(hub.room_of("alice"), Some("r1".to_string()));
    let members = hub.store().snapshot("r1");
    assert_eq!(members.len(), 1);
    assert_eq!(members[0].username, "alice");
    assert_eq!(members[0].write, 1);
}

#[test]
fn create_room_fails_when_the_room_exists() {
    let mut hub = hub_with(&[("alice", 1), ("bob", 2)]);
    assert_eq!(hub.handle("alice", create("r1")).len(), 1);
    let out = hub.handle("bob", create("r1"));
    assert_eq!(out.len(), 1);
    assert_eq!(out[0].message, ServerMessage::Error { message: "Room already exists".to_string() });
    assert_eq!(to(&out[0]), vec![who("bob", 2)]);
    assert_eq!(hub.room_of("bob"), None);
    assert!(!hub.store().is_member("r1", "bob"));
}

#[test]
fn create_room_is_refused_to_a_seated_player() {
    let mut hub = hub_with(&[("alice", 1)]);
    assert_eq!(hub.handle("alice", create("r1")).len(), 1);
    let out = hub.handle("alice", create("r2"));
    assert_eq!(out.len(), 1);
    assert_eq!(out[0].message, error(HubError::AlreadyInRoom));
    assert!(!hub.store().has_channel("r2"));
    assert_eq!(hub.room_of("alice"), Some("r1".to_string()));
}

#[test]
fn join_fails_when_the_room_is_missing() {
    let mut hub = hub_with(&[("alice", 1)]);
    let out = hub.handle("alice", join("r1"));
    assert_eq!(out.len(), 1);
    assert_eq!(out[0].message, ServerMessage::Error { message: "Room not found".to_string() });
    assert_eq!(to(&out[0]), vec![who("alice", 1)]);
    assert!(!hub.store().has_channel("r1"));
}

#[test]
fn join_tells_the_caller_and_the_members_present() {
    let mut hub = hub_with(&[("alice", 1), ("bob", 2), ("carol", 3)]);
    assert_eq!(hub.handle("alice", create("r1")).len(), 1);
    assert_eq!(hub.handle("bob", join("r1")).len(), 2);
    let out = hub.handle("carol", join("r1"));
    assert_eq!(out.len(), 2);
    assert_eq!(out[0].message, ServerMessage::JoinedRoom { room_id: "r1".to_string() });
    assert_eq!(to(&out[0]), vec![who("carol", 3)]);
    assert_eq!(out[1].message, ServerMessage::PlayerJoined { player_id: "carol".to_string() });
    assert_eq!(to(&out[1]), vec![who("alice", 1), who("bob", 2)]);
    assert_eq!(hub.room_of("carol"), Some("r1".to_string()));
}

#[test]
fn joining_twice_announces_nothing_twice() {
    let mut hub = room_with_alice_and_bob();
    let out = hub.handle("bob", join("r1"));
    assert_eq!(out.len(), 1);
    assert_eq!(out[0].message, ServerMessage::JoinedRoom { room_id: "r1".to_string() });
    assert_eq!(to(&out[0]), vec![who("bob", 2)]);
    assert_eq!(hub.store().snapshot("r1").len(), 2);
}

#[test]
fn join_is_refused_to_a_player_seated_elsewhere() {
    let mut hub = hub_with(&[("alice", 1), ("bob", 2)]);
    assert_eq!(hub.handle("alice", create("r1")).len(), 1);
    assert_eq!(hub.handle("bob", create("r2")).len(), 1);
    let out = hub.handle("bob", join("r1"));
    assert_eq!(out.len(), 1);
    assert_eq!(out[0].message, error(HubError::AlreadyInRoom));
    assert_eq!(hub.room_of("bob"), Some("r2".to_string()));
    assert!(!hub.store().is_member("r1", "bob"));
}

#[test]
fn leave_tells_the_members_that_remain() {
    let mut hub = room_with_alice_and_bob();
    let out = hub.handle("bob", ClientMessage::LeaveRoom);
    assert_eq!(out.len(), 1);
    assert_eq!(out[0].message, ServerMessage::PlayerLeft { player_id: "bob".to_string() });
    assert_eq!(to(&out[0]), vec![who("alice", 1)]);
    assert_eq!(hub.room_of("bob"), None);
    assert!(!hub.store().is_member("r1", "bob"));
    assert!(hub.is_connected("bob"));
    assert_eq!(hub.handle("bob", join("r1")).len(), 2);
}

#[test]
fn leave_outside_any_room_does_nothing() {
    let mut hub = hub_with(&[("alice", 1)]);
    assert!(hub.handle("alice", ClientMessage::LeaveRoom).is_empty());
    assert!(hub.is_connected("alice"));
}

#[test]
fn last_member_leaving_keeps_the_room() {
    let mut hub = hub_with(&[("alice", 1), ("bob", 2)]);
    assert_eq!(hub.handle("alice", create("r1")).len(), 1);
    let out = hub.handle("alice", ClientMessage::LeaveRoom);
    assert_eq!(out.len(), 1);
    assert!(out[0].recipients.is_empty());
    assert!(hub.store().has_channel("r1"));
    let joined = hub.handle("bob", join("r1"));
    assert_eq!(joined.len(), 2);
    assert!(joined[1].recipients.is_empty());
}

#[test]
fn ready_outside_any_room_is_recorded_quietly() {
    let mut hub = hub_with(&[("alice", 1)]);
    assert!(hub.handle("alice", ClientMessage::Ready { ready: true }).is_empty());
    assert!(hub.is_ready("alice"));
    assert!(hub.handle("alice", ClientMessage::Ready { ready: false }).is_empty());
    assert!(!hub.is_ready("alice"));
}

#[test]
fn board_update_is_announced_to_the_room() {
    let mut hub = room_with_alice_and_bob();
    let board = vec![vec![0u8, 1, 2], vec![], vec![7]];
    let out = hub.handle(
        "bob",
        ClientMessage::BoardUpdate { board: board.clone(), piece: "T".to_string() },
    );
    assert_eq!(out.len(), 1);
    assert_eq!(
        out[0].message,
        ServerMessage::BoardUpdate {
            player_id: "bob".to_string(),
            board,
            piece: "T".to_string()
        }
    );
    assert_eq!(to(&out[0]), vec![who("alice", 1), who("bob", 2)]);
    assert_eq!(
        hub.board_of("bob"),
        Some((vec![vec![0u8, 1, 2], vec![], vec![7]], "T".to_string()))
    );
    assert_eq!(hub.board_of("alice"), None);
    assert_eq!(hub.board_of("ghost"), None);
}

#[test]
fn board_update_outside_any_room_reaches_nobody() {
    let mut hub = hub_with(&[("alice", 1)]);
    let out = hub.handle(
        "alice",
        ClientMessage::BoardUpdate { board: vec![vec![1u8]], piece: "L".to_string() },
    );
    assert!(out.is_empty());
    assert_eq!(hub.board_of("alice"), Some((vec![vec![1u8]], "L".to_string())));
}

#[test]
fn disconnect_forgets_the_board() {
    let mut hub = hub_with(&[("alice", 1)]);
    let update = ClientMessage::BoardUpdate { board: vec![vec![1u8]], piece: "L".to_string() };
    assert!(hub.handle("alice", update).is_empty());
    assert!(hub.disconnect("alice").is_empty());
    assert_eq!(hub.board_of("alice"), None);
    assert!(hub.connect_as("alice".to_string(), 2).is_ok());
    assert_eq!(hub.board_of("alice"), None);
}

#[test]
fn disconnect_cleans_up_and_tells_the_room() {
    let mut hub = room_with_alice_and_bob();
    let out = hub.disconnect("alice");
    assert_eq!(out.len(), 1);
    assert_eq!(out[0].message, ServerMessage::PlayerLeft { player_id: "alice".to_string() });
    assert_eq!(to(&out[0]), vec![who("bob", 2)]);
    assert!(!hub.is_connected("alice"));
    assert!(!hub.store().is_member("r1", "alice"));
    assert!(hub.handle("alice", ClientMessage::Ready { ready: true }).is_empty());
    assert_eq!(
        hub.connect_as("alice".to_string(), 5),
        Ok(ServerMessage::Connected { player_id: "alice".to_string() })
    );
    assert!(!hub.is_ready("alice"));
    assert_eq!(hub.room_of("alice"), None);
}

#[test]
fn disconnect_outside_any_room_is_silent() {
    let mut hub = hub_with(&[("alice", 1)]);
    assert!(hub.disconnect("alice").is_empty());
    assert!(!hub.is_connected("alice"));
}

#[test]
fn kicked_player_may_join_again() {
    let mut hub = room_with_alice_and_bob();
    hub.kick_user("r1", "bob");
    assert_eq!(hub.room_of("bob"), None);
    assert!(!hub.store().is_member("r1", "bob"));
    assert!(!hub.store().is_banned("r1", "bob"));
    let out = hub.handle("bob", join("r1"));
    assert_eq!(out.len(), 2);
    assert_eq!(hub.room_of("bob"), Some("r1".to_string()));
}

#[test]
fn kick_from_another_room_leaves_the_seat() {
    let mut hub = room_with_alice_and_bob();
    hub.kick_user("r2", "bob");
    hub.ban_user("r2", "bob");
    assert_eq!(hub.room_of("bob"), Some("r1".to_string()));
    assert!(hub.store().is_member("r1", "bob"));
}

#[test]
fn settle_disconnects_the_peers_that_failed() {
    let mut hub = hub_with(&[("alice", 1), ("bob", 2), ("carol", 3)]);
    assert_eq!(hub.handle("alice", create("r1")).len(), 1);
    assert_eq!(hub.handle("bob", join("r1")).len(), 2);
    assert_eq!(hub.handle("carol", join("r1")).len(), 2);
    let out = hub.handle("alice", ClientMessage::Ready { ready: true });
    let notices = hub.settle(&out[0].recipients, &vec![true, false, true]);
    assert_eq!(notices.len(), 1);
    assert_eq!(notices[0].message, ServerMessage::PlayerLeft { player_id: "bob".to_string() });
    assert_eq!(to(&notices[0]), vec![who("alice", 1), who("carol", 3)]);
    assert!(!hub.is_connected("bob"));
    assert!(hub.is_connected("alice"));
    assert!(hub.is_connected("carol"));
    assert!(hub.store().is_member("r1", "carol"));
}

#[test]
fn settle_without_failures_changes_nothing() {
    let mut hub = room_with_alice_and_bob();
    let out = hub.handle("alice", ClientMessage::Ready { ready: true });
    assert!(hub.settle(&out[0].recipients, &vec![true, true]).is_empty());
    assert!(hub.is_connected("alice"));
    assert!(hub.is_connected("bob"));
    let gone: Vec<UserConnection> = Vec::new();
    assert!(hub.settle(&gone, &Vec::new()).is_empty());
}

#[test]
fn copy_grid_copies_every_row() {
    let grid = vec![vec![1u8, 2, 3], vec![], vec![255]];
    assert_eq!(copy_grid(&grid), grid);
    assert_eq!(copy_grid(&Vec::new()), Vec::<Vec<u8>>::new());
}

#[test]
fn moderation_in_a_game_room_needs_moderator_rights() {
    let mut hub = room_with_alice_and_bob();
    let ban = ModerationAction::Ban("bob".to_string());
    assert_eq!(hub.moderate("alice", "r1", &ban), Err(HubError::Unauthorized));
    assert!(hub.store().is_member("r1", "bob"));
    hub.add_moderator("r1", "alice");
    assert!(hub.store().is_moderator("r1", "alice"));
    assert_eq!(hub.moderate("alice", "r1", &ban), Ok(()));
    assert!(!hub.store().is_member("r1", "bob"));
    assert_eq!(hub.room_of("bob"), None);
    assert_eq!(hub.handle("bob", join("r1"))[0].message, error(HubError::Banned));
    let unban = ModerationAction::Unban("bob".to_string());
    assert_eq!(hub.moderate("alice", "r1", &unban), Ok(()));
    assert_eq!(hub.handle("bob", join("r1")).len(), 2);
    let kick = ModerationAction::Kick("bob".to_string());
    assert_eq!(hub.moderate("alice", "r1", &kick), Ok(()));
    assert_eq!(hub.room_of("bob"), None);
    hub.remove_moderator("r1", "alice");
    assert_eq!(hub.moderate("alice", "r1", &kick), Err(HubError::Unauthorized));
}

#[test]
fn mute_in_a_game_room_leaves_the_seat() {
    let mut hub = room_with_alice_and_bob();
    hub.add_moderator("r1", "alice");
    let mute = ModerationAction::Mute("bob".to_string());
    assert_eq!(hub.moderate("alice", "r1", &mute), Ok(()));
    assert!(hub.store().is_muted("r1", "bob"));
    assert_eq!(hub.room_of("bob"), Some("r1".to_string()));
    let unmute = ModerationAction::Unmute("bob".to_string());
    assert_eq!(hub.moderate("alice", "r1", &unmute), Ok(()));
    assert!(!hub.store().is_muted("r1", "bob"));
    hub.mute_user("r1", "alice");
    assert!(hub.store().is_muted("r1", "alice"));
    hub.unmute_user("r1", "alice");
    assert!(!hub.store().is_muted("r1", "alice"));
}

#[test]
fn empty_hub_admits_every_connection() {
    for write in 0..20u64 {
        let mut hub = SessionHub::new();
        assert!(hub.connect(write).is_ok());
    }
    let mut hub = hub_with(&[("alice", 1), ("bob", 2)]);
    assert!(hub.connect(3).is_ok());
}
