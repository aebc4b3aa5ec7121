use permctl::{Config, LookupAnswer, PermissionManager};
use permctl::sync::render_sudoers;

const HEADER: &str = "# This file is managed by permctl. Do not edit manually.\n\n";

fn docker_manager() -> PermissionManager {
    PermissionManager::new(Config::default()).unwrap()
}

fn docker_grant(manager: &mut PermissionManager, user: &str, now: i64) {
    manager
        .grant_permission_at(
            user,
            "/usr/bin/docker",
            60,
            "admin",
            now,
            LookupAnswer::Yes,
            &vec![LookupAnswer::Yes],
        )
        .unwrap();
}

#[test]
fn test_empty_ledger_renders_header_only() {
    let manager = docker_manager();
    assert_eq!(manager.sudoers_content(0), HEADER);
    assert_eq!(render_sudoers(&Vec::new()), HEADER);
}

#[test]
fn test_grant_then_check_and_render() {
    let mut manager = docker_manager();
    docker_grant(&mut manager, "alice", 0);

    assert!(manager
        .database()
        .check_permission("alice", "/usr/bin/docker", 0));
    let content = manager.sudoers_content(0);
    assert!(content.contains("alice ALL=(ALL) NOPASSWD: /usr/bin/docker"));
    assert_eq!(
        content,
        format!("{}alice ALL=(ALL) NOPASSWD: /usr/bin/docker\n", HEADER)
    );
}

#[test]
fn test_revoke_then_check_and_render() {
    let mut manager = docker_manager();
    docker_grant(&mut manager, "alice", 0);

    let revoked = manager.revoke_permission_at("alice", "/usr/bin/docker", "admin", 0);
    assert!(revoked);
    assert!(!manager
        .database()
        .check_permission("alice", "/usr/bin/docker", 0));
    let content = manager.sudoers_content(0);
    assert!(!content.contains("alice"));
    assert_eq!(content, HEADER);
}

#[test]
fn test_revoke_without_grant_writes_nothing() {
    let mut manager = docker_manager();
    let before = manager.sudoers_content(0);

    let revoked = manager.revoke_permission_at("alice", "/usr/bin/docker", "admin", 0);
    assert!(!revoked);
    assert_eq!(manager.database().audit_rows().len(), 0);
    assert_eq!(manager.sudoers_content(0), before);
}

#[test]
fn test_rendering_is_sorted_and_deterministic() {
    let mut one = docker_manager();
    docker_grant(&mut one, "carol", 0);
    docker_grant(&mut one, "alice", 0);
    docker_grant(&mut one, "bob", 0);

    let mut two = docker_manager();
    docker_grant(&mut two, "bob", 0);
    docker_grant(&mut two, "carol", 0);
    docker_grant(&mut two, "alice", 0);

    let expected = format!(
        "{}alice ALL=(ALL) NOPASSWD: /usr/bin/docker\n\
         bob ALL=(ALL) NOPASSWD: /usr/bin/docker\n\
         carol ALL=(ALL) NOPASSWD: /usr/bin/docker\n",
        HEADER
    );
    assert_eq!(one.sudoers_content(0), expected);
    assert_eq!(two.sudoers_content(0), expected);
}

#[test]
fn test_superseding_grant_renders_one_line() {
    let mut manager = docker_manager();
    docker_grant(&mut manager, "alice", 0);
    docker_grant(&mut manager, "alice", 10);

    let content = manager.sudoers_content(10);
    assert_eq!(
        content,
        format!("{}alice ALL=(ALL) NOPASSWD: /usr/bin/docker\n", HEADER)
    );
    assert_eq!(manager.database().grant_rows().len(), 1);
}

#[test]
fn test_expired_grant_leaves_rendering() {
    let mut manager = docker_manager();
    docker_grant(&mut manager, "alice", 0);

    // Active until second 3600; the sweep afterwards marks it revoked.
    assert_eq!(manager.sudoers_content(3600), HEADER.to_string());
    let count = manager.cleanup_expired_at(3600);
    assert_eq!(count, 1);
    assert_eq!(manager.sudoers_content(3600), HEADER.to_string());
    let rows = manager.database().grant_rows();
    assert!(rows[0].revoked);
    assert_eq!(rows[0].revoked_by.as_deref(), Some("system_cleanup"));
}
