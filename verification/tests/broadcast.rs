use room_hub::broadcast::{broadcast_to_channel, settle_broadcast};
use room_hub::channel::{ChannelManager, UserConnection};

fn conn(name: &str, write: u64) -> UserConnection {
    UserConnection { username: name.to_string(), write }
}

fn room_of_three() -> ChannelManager {
    let mut hub = ChannelManager::new();
    assert!(hub.add_user("r1", conn("alice", 1)).is_ok());
    assert!(hub.add_user("r1", conn("bob", 2)).is_ok());
    assert!(hub.add_user("r1", conn("carol", 3)).is_ok());
    hub
}

fn writers(users: &[UserConnection]) -> Vec<u64> {
    users.iter().map(|c| c.write).collect()
}

#[test]
fn broadcast_to_an_empty_room_plans_no_write() {
    let mut hub = ChannelManager::new();
    assert!(hub.create_room("r2").is_ok());
    let plan = broadcast_to_channel(&hub, "r2", "hello".to_string());
    assert_eq!(plan.payload, "hello");
    assert!(plan.recipients.is_empty());
    let evicted = settle_broadcast(&mut hub, "r2", &plan.recipients, &Vec::new());
    assert!(evicted.is_empty());
    assert!(hub.has_channel("r2"));
}

#[test]
fn broadcast_to_a_missing_room_plans_no_write() {
    let hub = ChannelManager::new();
    let plan = broadcast_to_channel(&hub, "nowhere", "hello".to_string());
    assert!(plan.recipients.is_empty());
    assert!(!hub.has_channel("nowhere"));
}

#[test]
fn broadcast_reaches_exactly_the_registered_connections() {
    let mut hub = room_of_three();
    assert!(hub.add_user("r2", conn("dave", 4)).is_ok());
    hub.kick_user("r1", "bob");
    let plan = broadcast_to_channel(&hub, "r1", "hello".to_string());
    assert_eq!(plan.payload, "hello");
    assert_eq!(writers(&plan.recipients), vec![1, 3]);
    assert!(hub.add_user("r1", conn("erin", 5)).is_ok());
    assert_eq!(writers(&plan.recipients), vec![1, 3]);
    let later = broadcast_to_channel(&hub, "r1", "again".to_string());
    assert_eq!(writers(&later.recipients), vec![1, 3, 5]);
}

#[test]
fn failed_write_evicts_that_peer_only() {
    let mut hub = room_of_three();
    let plan = broadcast_to_channel(&hub, "r1", "hello".to_string());
    let evicted = settle_broadcast(&mut hub, "r1", &plan.recipients, &vec![true, false, true]);
    assert_eq!(writers(&evicted), vec![2]);
    assert_eq!(evicted[0].username, "bob");
    assert!(hub.is_member("r1", "alice"));
    assert!(!hub.is_member("r1", "bob"));
    assert!(hub.is_member("r1", "carol"));
    assert!(!hub.is_banned("r1", "bob"));
    assert!(hub.add_user("r1", conn("bob", 9)).is_ok());
}

#[test]
fn first_failure_does_not_stop_the_rest() {
    let mut hub = room_of_three();
    let plan = broadcast_to_channel(&hub, "r1", "hello".to_string());
    assert_eq!(plan.recipients.len(), 3);
    let evicted = settle_broadcast(&mut hub, "r1", &plan.recipients, &vec![false, true, true]);
    assert_eq!(writers(&evicted), vec![1]);
    assert_eq!(writers(&hub.snapshot("r1")), vec![2, 3]);
}

#[test]
fn all_failed_writes_empty_the_room() {
    let mut hub = room_of_three();
    let plan = broadcast_to_channel(&hub, "r1", "hello".to_string());
    let evicted = settle_broadcast(&mut hub, "r1", &plan.recipients, &vec![false, false, false]);
    assert_eq!(writers(&evicted), vec![1, 2, 3]);
    assert!(hub.snapshot("r1").is_empty());
    assert!(hub.has_channel("r1"));
}

#[test]
fn successful_writes_evict_nobody() {
    let mut hub = room_of_three();
    let plan = broadcast_to_channel(&hub, "r1", "hello".to_string());
    let evicted = settle_broadcast(&mut hub, "r1", &plan.recipients, &vec![true, true, true]);
    assert!(evicted.is_empty());
    assert_eq!(writers(&hub.snapshot("r1")), vec![1, 2, 3]);
}

#[test]
fn settling_in_a_missing_room_changes_nothing() {
    let mut hub = ChannelManager::new();
    let gone = vec![conn("bob", 2)];
    let evicted = settle_broadcast(&mut hub, "r1", &gone, &vec![false]);
    assert_eq!(writers(&evicted), vec![2]);
    assert!(!hub.has_channel("r1"));
}

#[test]
fn dead_peer_leaves_every_room() {
    let mut hub = room_of_three();
    assert!(hub.add_user("r2", conn("bob", 2)).is_ok());
    assert!(hub.add_user("r2", conn("dave", 4)).is_ok());
    assert!(hub.add_user("r3", conn("robert", 2)).is_ok());
    hub.ban_user("r2", "mallory");
    let plan = broadcast_to_channel(&hub, "r1", "hello".to_string());
    let evicted = settle_broadcast(&mut hub, "r1", &plan.recipients, &vec![true, false, true]);
    assert_eq!(writers(&evicted), vec![2]);
    assert_eq!(writers(&hub.snapshot("r1")), vec![1, 3]);
    assert_eq!(writers(&hub.snapshot("r2")), vec![4]);
    assert!(hub.snapshot("r3").is_empty());
    assert!(hub.has_channel("r3"));
    assert!(hub.is_banned("r2", "mallory"));
    assert!(!hub.is_banned("r2", "bob"));
}

#[test]
fn failed_write_through_a_shared_connection_evicts_its_other_users() {
    let mut hub = ChannelManager::new();
    assert!(hub.add_user("r1", conn("alice", 1)).is_ok());
    assert!(hub.add_user("r1", conn("bob", 2)).is_ok());
    assert!(hub.add_user("r1", conn("bobby", 2)).is_ok());
    let plan = broadcast_to_channel(&hub, "r1", "hello".to_string());
    let evicted = settle_broadcast(&mut hub, "r1", &plan.recipients, &vec![true, false, true]);
    assert_eq!(evicted.len(), 1);
    assert_eq!(evicted[0].username, "bob");
    assert_eq!(writers(&hub.snapshot("r1")), vec![1]);
}

#[test]
fn eviction_goes_by_the_user_in_the_room_of_the_broadcast() {
    let mut hub = room_of_three();
    let plan = broadcast_to_channel(&hub, "r1", "hello".to_string());
    hub.kick_user("r1", "bob");
    assert!(hub.add_user("r1", conn("bob", 9)).is_ok());
    let evicted = settle_broadcast(&mut hub, "r1", &plan.recipients, &vec![true, false, true]);
    assert_eq!(writers(&evicted), vec![2]);
    assert!(!hub.is_member("r1", "bob"));
    assert_eq!(writers(&hub.snapshot("r1")), vec![1, 3]);
}
