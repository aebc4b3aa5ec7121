use permctl::{AuditAction, Database};

const NOW: i64 = 1_000_000;
const LATER: i64 = 1_003_600;

#[test]
fn test_grant_and_check_permission() {
    let mut db = Database::new();

    let id = db.grant_permission("testuser", "/test/command", LATER, "admin", NOW);

    assert!(id > 0);
    assert!(db.check_permission("testuser", "/test/command", NOW));
}

#[test]
fn test_revoke_permission() {
    let mut db = Database::new();

    db.grant_permission("testuser", "/test/command", LATER, "admin", NOW);

    assert!(db.revoke_permission("testuser", "/test/command", "admin", NOW));

    assert!(!db.check_permission("testuser", "/test/command", NOW));
}

#[test]
fn test_grant_twice_supersedes() {
    let mut db = Database::new();
    let first = db.grant_permission("alice", "/test/command", LATER, "admin", NOW);
    let second = db.grant_permission("alice", "/test/command", LATER + 60, "root", NOW + 1);

    assert_ne!(first, second);
    let rows = db.grant_rows();
    assert_eq!(rows.len(), 1);
    assert_eq!(rows[0].id, second);
    assert_eq!(rows[0].expires_at, LATER + 60);
    assert_eq!(rows[0].granted_by, "root");
    assert!(db.check_permission("alice", "/test/command", NOW + 1));
}

#[test]
fn test_expired_grant_is_inactive() {
    let mut db = Database::new();
    db.grant_permission("alice", "/test/command", NOW + 10, "admin", NOW);
    assert!(db.check_permission("alice", "/test/command", NOW));
    assert!(!db.check_permission("alice", "/test/command", NOW + 10));
    assert!(!db.check_permission("alice", "/test/command", NOW + 11));
}

#[test]
fn test_cleanup_expired_marks_system_actor() {
    let mut db = Database::new();
    db.grant_permission("alice", "/test/command", NOW + 10, "admin", NOW);
    db.grant_permission("bob", "/test/command", LATER, "admin", NOW);

    let count = db.cleanup_expired(NOW + 100);
    assert_eq!(count, 1);

    let rows = db.grant_rows();
    assert_eq!(rows.len(), 2);
    let alice = rows.iter().find(|r| r.username == "alice").unwrap();
    assert!(alice.revoked);
    assert_eq!(alice.revoked_by.as_deref(), Some("system_cleanup"));
    assert_eq!(alice.revoked_at, Some(NOW + 100));

    let active = db.list_active_permissions(NOW + 100);
    assert_eq!(active.len(), 1);
    assert_eq!(active[0].username, "bob");

    // A second sweep finds nothing left to mark.
    assert_eq!(db.cleanup_expired(NOW + 100), 0);
}

#[test]
fn test_list_active_sorted_by_user_and_command() {
    let mut db = Database::new();
    db.grant_permission("carol", "/bin/b", LATER, "admin", NOW);
    db.grant_permission("alice", "/bin/z", LATER, "admin", NOW);
    db.grant_permission("carol", "/bin/a", LATER, "admin", NOW);
    db.grant_permission("bob", "/bin/m", LATER, "admin", NOW);

    let active = db.list_active_permissions(NOW);
    let keys: Vec<(String, String)> = active
        .iter()
        .map(|g| (g.username.clone(), g.command.clone()))
        .collect();
    assert_eq!(
        keys,
        vec![
            ("alice".to_string(), "/bin/z".to_string()),
            ("bob".to_string(), "/bin/m".to_string()),
            ("carol".to_string(), "/bin/a".to_string()),
            ("carol".to_string(), "/bin/b".to_string()),
        ]
    );
}

#[test]
fn test_list_user_permissions_expiry_descending() {
    let mut db = Database::new();
    db.grant_permission("alice", "/bin/a", NOW + 100, "admin", NOW);
    db.grant_permission("alice", "/bin/b", NOW + 300, "admin", NOW);
    db.grant_permission("alice", "/bin/c", NOW + 200, "admin", NOW);
    db.grant_permission("bob", "/bin/a", NOW + 900, "admin", NOW);

    let listed = db.list_user_permissions("alice", NOW);
    let expiries: Vec<i64> = listed.iter().map(|g| g.expires_at).collect();
    assert_eq!(expiries, vec![NOW + 300, NOW + 200, NOW + 100]);
    assert!(listed.iter().all(|g| g.username == "alice"));
}

#[test]
fn test_audit_trail_records_events() {
    let mut db = Database::new();
    db.grant_permission("alice", "/bin/a", LATER, "admin", NOW);
    db.update_last_used("alice", "/bin/a", NOW + 1);
    db.revoke_permission("alice", "/bin/a", "root", NOW + 2);

    let audit = db.audit_rows();
    assert_eq!(audit.len(), 3);
    assert_eq!(audit[0].action, AuditAction::Grant);
    assert_eq!(audit[0].username, "alice");
    assert_eq!(audit[0].details.as_deref(), Some("admin"));
    assert_eq!(audit[1].action, AuditAction::Use);
    assert_eq!(audit[1].timestamp, NOW + 1);
    assert_eq!(audit[2].action, AuditAction::Revoke);
    assert_eq!(audit[2].details.as_deref(), Some("root"));

    let rows = db.grant_rows();
    assert_eq!(rows[0].last_used, Some(NOW + 1));
}

#[test]
fn test_revoke_without_grant_appends_no_audit() {
    let mut db = Database::new();
    assert!(!db.revoke_permission("nobody", "/bin/a", "admin", NOW));
    assert_eq!(db.audit_rows().len(), 0);
    assert_eq!(db.grant_rows().len(), 0);
}

#[test]
fn test_from_records_roundtrip() {
    let mut db = Database::new();
    db.grant_permission("alice", "/bin/a", LATER, "admin", NOW);
    db.grant_permission("bob", "/bin/b", LATER, "admin", NOW);
    db.update_last_used("alice", "/bin/a", NOW + 5);

    let rows = db.grant_rows().clone();
    let audit: Vec<permctl::AuditLogEntry> = Vec::new();
    let next_id = db.next_grant_id();

    let rebuilt = Database::from_records(rows, audit, next_id).unwrap();
    assert!(rebuilt.check_permission("alice", "/bin/a", NOW));
    assert!(rebuilt.check_permission("bob", "/bin/b", NOW));
    assert_eq!(rebuilt.next_grant_id(), next_id);
    assert_eq!(rebuilt.grant_rows()[0].last_used, Some(NOW + 5));
}

#[test]
fn test_from_records_rejects_bad_snapshots() {
    let mut db = Database::new();
    db.grant_permission("bob", "/bin/b", LATER, "admin", NOW);
    db.grant_permission("alice", "/bin/a", LATER, "admin", NOW);
    let sorted_rows = db.grant_rows().clone();

    // Out of (username, command) order.
    let mut unsorted = sorted_rows.clone();
    unsorted.reverse();
    assert!(Database::from_records(unsorted, Vec::new(), 10).is_err());

    // An id at or above the next free key.
    assert!(Database::from_records(sorted_rows.clone(), Vec::new(), 1).is_err());

    // A repeated id.
    let mut dup = sorted_rows.clone();
    dup[1].id = dup[0].id;
    assert!(Database::from_records(dup, Vec::new(), 10).is_err());

    // A next id below one.
    assert!(Database::from_records(Vec::new(), Vec::new(), 0).is_err());

    // The well-formed snapshot is accepted.
    assert!(Database::from_records(sorted_rows, Vec::new(), 10).is_ok());
}
