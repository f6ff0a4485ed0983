use starlume::server::pending::{insert_pending, take_pending, PendingMap};

#[test]
fn stored_value_is_taken_before_expiry() {
    let mut map: PendingMap<String> = PendingMap::new();
    insert_pending(&mut map, "state-a".to_string(), "user-1".to_string(), 600_000, 1_000);
    assert_eq!(take_pending(&mut map, "state-a", 500_000), Some("user-1".to_string()));
}

#[test]
fn a_taken_code_cannot_be_taken_again() {
    let mut map: PendingMap<u32> = PendingMap::new();
    insert_pending(&mut map, "code".to_string(), 7, 60_000, 0);
    assert_eq!(take_pending(&mut map, "code", 10), Some(7));
    assert_eq!(take_pending(&mut map, "code", 11), None);
}

#[test]
fn expired_entries_are_not_handed_out() {
    let mut map: PendingMap<u32> = PendingMap::new();
    insert_pending(&mut map, "code".to_string(), 7, 100, 1_000);
    // Expiry is exclusive: at 1_100 the entry is already gone.
    assert_eq!(take_pending(&mut map, "code", 1_100), None);
    assert_eq!(take_pending(&mut map, "code", 1_050), None);
}

#[test]
fn storing_again_replaces_value_and_expiry() {
    let mut map: PendingMap<u32> = PendingMap::new();
    insert_pending(&mut map, "k".to_string(), 1, 10, 0);
    insert_pending(&mut map, "k".to_string(), 2, 1_000, 5);
    assert_eq!(take_pending(&mut map, "k", 500), Some(2));
}

#[test]
fn unknown_keys_and_other_entries_are_independent() {
    let mut map: PendingMap<u32> = PendingMap::new();
    insert_pending(&mut map, "a".to_string(), 1, 1_000, 0);
    insert_pending(&mut map, "b".to_string(), 2, 1_000, 0);
    assert_eq!(take_pending(&mut map, "zzz", 1), None);
    assert_eq!(take_pending(&mut map, "b", 2), Some(2));
    assert_eq!(take_pending(&mut map, "a", 3), Some(1));
}

#[test]
fn an_insert_purges_entries_expired_by_then() {
    let mut map: PendingMap<u32> = PendingMap::new();
    insert_pending(&mut map, "old".to_string(), 1, 10, 0);
    insert_pending(&mut map, "new".to_string(), 2, 10, 50);
    // Even asked with an earlier clock, the purged entry is gone.
    assert_eq!(take_pending(&mut map, "old", 5), None);
    assert_eq!(take_pending(&mut map, "new", 55), Some(2));
}
