use permctl::{
    CommandConfig, Config, Database, LookupAnswer, PermissionError, PermissionManager,
};

const NOW: i64 = 1_000_000;

fn test_config() -> Config {
    Config {
        allowed_commands: vec![(
            "/test/command".to_string(),
            CommandConfig {
                description: "Test command".to_string(),
                max_duration: 60,
                required_groups: vec!["users".to_string()],
                audit_usage: true,
                max_concurrent_users: 5,
            },
        )],
        sudoers_path: "/tmp/sudoers".to_string(),
        db_path: "/tmp/test.db".to_string(),
        log_path: "/tmp/test.log".to_string(),
        debug: false,
        log_retention_days: 30,
    }
}

fn yes() -> Vec<LookupAnswer> {
    vec![LookupAnswer::Yes]
}

#[test]
fn test_grant_and_revoke_permission() {
    let mut manager = PermissionManager::new(test_config()).unwrap();

    let id = manager
        .grant_permission_at(
            "testuser",
            "/test/command",
            30,
            "admin",
            NOW,
            LookupAnswer::Yes,
            &yes(),
        )
        .unwrap();

    assert!(id > 0);

    let revoked = manager.revoke_permission_at("testuser", "/test/command", "admin", NOW);

    assert!(revoked);
}

#[test]
fn test_manager_rejects_invalid_config() {
    let mut config = test_config();
    config.allowed_commands[0].1.max_duration = 0;
    assert!(matches!(
        PermissionManager::new(config),
        Err(PermissionError::Config(_))
    ));
}

#[test]
fn test_grant_over_max_duration_has_no_side_effects() {
    let mut manager = PermissionManager::new(test_config()).unwrap();

    let r = manager.grant_permission_at(
        "testuser",
        "/test/command",
        61,
        "admin",
        NOW,
        LookupAnswer::Yes,
        &yes(),
    );
    match r {
        Err(PermissionError::InvalidDuration { max_minutes }) => {
            assert_eq!(max_minutes, 60);
        }
        other => panic!("expected InvalidDuration, got {:?}", other),
    }
    assert_eq!(manager.database().grant_rows().len(), 0);
    assert_eq!(manager.database().audit_rows().len(), 0);
}

#[test]
fn test_grant_validation_errors() {
    let mut manager = PermissionManager::new(test_config()).unwrap();

    let r = manager.grant_permission_at(
        "testuser",
        "/not/configured",
        30,
        "admin",
        NOW,
        LookupAnswer::Yes,
        &Vec::new(),
    );
    match r {
        Err(PermissionError::CommandNotAllowed(c)) => assert_eq!(c, "/not/configured"),
        other => panic!("expected CommandNotAllowed, got {:?}", other),
    }

    let r = manager.grant_permission_at(
        "testuser",
        "/test/command",
        0,
        "admin",
        NOW,
        LookupAnswer::Yes,
        &yes(),
    );
    assert!(matches!(
        r,
        Err(PermissionError::InvalidDuration { max_minutes: 60 })
    ));

    let r = manager.grant_permission_at(
        "ghost",
        "/test/command",
        30,
        "admin",
        NOW,
        LookupAnswer::No,
        &yes(),
    );
    match r {
        Err(PermissionError::UserNotFound(u)) => assert_eq!(u, "ghost"),
        other => panic!("expected UserNotFound, got {:?}", other),
    }

    let r = manager.grant_permission_at(
        "testuser",
        "/test/command",
        30,
        "admin",
        NOW,
        LookupAnswer::Failed,
        &yes(),
    );
    match r {
        Err(PermissionError::SystemCommand { cmd }) => assert_eq!(cmd, "id"),
        other => panic!("expected SystemCommand, got {:?}", other),
    }

    let r = manager.grant_permission_at(
        "testuser",
        "/test/command",
        30,
        "admin",
        NOW,
        LookupAnswer::Yes,
        &vec![LookupAnswer::No],
    );
    match r {
        Err(PermissionError::GroupRequirementNotMet { user, group }) => {
            assert_eq!(user, "testuser");
            assert_eq!(group, "users");
        }
        other => panic!("expected GroupRequirementNotMet, got {:?}", other),
    }

    let r = manager.grant_permission_at(
        "testuser",
        "/test/command",
        30,
        "admin",
        NOW,
        LookupAnswer::Yes,
        &vec![LookupAnswer::Failed],
    );
    match r {
        Err(PermissionError::SystemCommand { cmd }) => assert_eq!(cmd, "groups"),
        other => panic!("expected SystemCommand, got {:?}", other),
    }

    // No failed validation left anything behind.
    assert_eq!(manager.database().grant_rows().len(), 0);
    assert_eq!(manager.database().audit_rows().len(), 0);
}

#[test]
fn test_grant_at_exact_maximum_duration_succeeds() {
    let mut manager = PermissionManager::new(test_config()).unwrap();
    let r = manager.grant_permission_at(
        "testuser",
        "/test/command",
        60,
        "admin",
        NOW,
        LookupAnswer::Yes,
        &yes(),
    );
    assert!(r.is_ok());
    let rows = manager.database().grant_rows();
    assert_eq!(rows[0].expires_at, NOW + 60 * 60);
    assert_eq!(rows[0].granted_at, NOW);
}

#[test]
fn test_record_usage_sets_last_used() {
    let mut manager = PermissionManager::new(test_config()).unwrap();
    manager
        .grant_permission_at(
            "testuser",
            "/test/command",
            30,
            "admin",
            NOW,
            LookupAnswer::Yes,
            &yes(),
        )
        .unwrap();

    manager.record_usage_at("testuser", "/test/command", NOW + 5);
    let rows = manager.database().grant_rows();
    assert_eq!(rows[0].last_used, Some(NOW + 5));
    let audit = manager.database().audit_rows();
    assert_eq!(audit.last().unwrap().action, permctl::AuditAction::Use);
}

#[test]
fn test_cleanup_expired_via_manager() {
    let mut manager = PermissionManager::new(test_config()).unwrap();
    manager
        .grant_permission_at(
            "testuser",
            "/test/command",
            30,
            "admin",
            NOW,
            LookupAnswer::Yes,
            &yes(),
        )
        .unwrap();

    // Not yet expired.
    assert_eq!(manager.cleanup_expired_at(NOW + 100), 0);
    // Past the thirty-minute expiry.
    assert_eq!(manager.cleanup_expired_at(NOW + 1800), 1);
    assert!(!manager
        .database()
        .check_permission("testuser", "/test/command", NOW + 1800));
}

#[test]
fn test_manager_with_restored_store() {
    let mut manager = PermissionManager::new(test_config()).unwrap();
    manager
        .grant_permission_at(
            "testuser",
            "/test/command",
            30,
            "admin",
            NOW,
            LookupAnswer::Yes,
            &yes(),
        )
        .unwrap();

    let rows = manager.database().grant_rows().clone();
    let next_id = manager.database().next_grant_id();
    let db = Database::from_records(rows, Vec::new(), next_id).unwrap();
    let restored = PermissionManager::with_store(test_config(), db).unwrap();
    assert!(restored
        .database()
        .check_permission("testuser", "/test/command", NOW));
}

#[test]
fn test_clock_driven_grant_and_revoke() {
    let mut manager = PermissionManager::new(test_config()).unwrap();
    let id = manager
        .grant_permission(
            "testuser",
            "/test/command",
            30,
            "admin",
            LookupAnswer::Yes,
            &yes(),
        )
        .unwrap();
    assert!(id > 0);
    assert_eq!(manager.database().grant_rows().len(), 1);
    assert_eq!(manager.list_user_permissions("testuser").len(), 1);

    assert!(manager.revoke_permission("testuser", "/test/command", "admin"));
    assert_eq!(manager.list_user_permissions("testuser").len(), 0);
    assert_eq!(manager.cleanup_expired(), 0);
}
