use starlume::accounts::{find_account, recognize_account, record_verification, RsiAccount};
use starlume::profile::ProfileInfo;

fn account(id: &str, handle: &str) -> RsiAccount {
    RsiAccount {
        id: id.to_string(),
        handle: handle.to_string(),
        citizen_record: None,
        enlisted: None,
        primary_org_sid: None,
        last_verified_ms: None,
    }
}

fn profile(handle: &str) -> ProfileInfo {
    ProfileInfo {
        handle: handle.to_string(),
        citizen_record: 4242,
        enlisted: "2015-03-14".to_string(),
        primary_org_sid: Some("EXAMPLE".to_string()),
        primary_org_rank: Some("Recruit".to_string()),
    }
}

#[test]
fn accounts_match_handles_ignoring_ascii_case() {
    let accounts = vec![account("a", "Alpha"), account("b", "TestUser"), account("c", "testuser")];
    assert_eq!(find_account(&accounts, "TESTUSER"), Some(1));
    assert_eq!(find_account(&accounts, "alpha"), Some(0));
    assert_eq!(find_account(&accounts, "nobody"), None);
}

#[test]
fn launcher_handle_creates_an_account_once() {
    let mut accounts = vec![account("a", "Alpha")];
    let (acct, created) = recognize_account(&mut accounts, "TestUser", "id-1".to_string());
    assert!(created);
    assert_eq!(acct.id, "id-1");
    assert_eq!(acct.handle, "TestUser");
    assert!(acct.citizen_record.is_none());
    assert_eq!(accounts.len(), 2);
    let (again, created) = recognize_account(&mut accounts, "testuser", "id-2".to_string());
    assert!(!created);
    assert_eq!(again.id, "id-1");
    assert_eq!(accounts.len(), 2);
}

#[test]
fn verification_updates_the_matching_account() {
    let mut accounts = vec![account("a", "Alpha"), account("b", "testuser")];
    let stored = record_verification(&mut accounts, "TESTUSER", &profile("TestUser"), 1_700_000_000_000, "unused".to_string());
    assert_eq!(stored.id, "b");
    assert_eq!(stored.handle, "TestUser");
    assert_eq!(stored.citizen_record, Some(4242));
    assert_eq!(stored.enlisted.as_deref(), Some("2015-03-14"));
    assert_eq!(stored.primary_org_sid.as_deref(), Some("EXAMPLE"));
    assert_eq!(stored.last_verified_ms, Some(1_700_000_000_000));
    assert_eq!(accounts.len(), 2);
    assert_eq!(accounts[1].handle, "TestUser");
    assert_eq!(accounts[0].handle, "Alpha");

    let fresh = record_verification(&mut accounts, "Newbie", &profile("Newbie"), 5, "id-9".to_string());
    assert_eq!(fresh.id, "id-9");
    assert_eq!(accounts.len(), 3);
    assert_eq!(accounts[2].citizen_record, Some(4242));
}
