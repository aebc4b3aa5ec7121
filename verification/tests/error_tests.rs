use permctl::PermissionError;

#[test]
fn test_io_error_creation() {
    let err = PermissionError::io_error("/test/path".to_string());

    match err {
        PermissionError::Io { path } => {
            assert_eq!(path, "/test/path");
        }
        _ => panic!("Expected IO error variant"),
    }
}

#[test]
fn test_system_command_error() {
    let err = PermissionError::system_command("test_command".to_string());

    match err {
        PermissionError::SystemCommand { cmd } => {
            assert_eq!(cmd, "test_command");
        }
        _ => panic!("Expected SystemCommand error variant"),
    }
}

#[test]
fn test_error_categorization() {
    let user_err = PermissionError::UserNotFound("testuser".to_string());
    assert!(user_err.is_user_error());
    assert!(!user_err.is_transient());

    let db_err = PermissionError::Storage("pool timed out".to_string());
    assert!(db_err.is_transient());
    assert!(!db_err.is_user_error());
}

#[test]
fn test_permission_denied_categorization() {
    let denied = PermissionError::PermissionDenied("root required".to_string());
    assert!(denied.is_permission_denied());
    assert!(!denied.is_user_error());
    assert!(!denied.is_transient());

    let group_err = PermissionError::GroupRequirementNotMet {
        user: "alice".to_string(),
        group: "docker".to_string(),
    };
    assert!(group_err.is_user_error());
    assert!(!group_err.is_permission_denied());

    let user_err = PermissionError::User("bad request".to_string());
    assert!(user_err.is_user_error());

    let expired = PermissionError::AccessExpired;
    assert!(!expired.is_transient());
    assert!(!expired.is_user_error());
}
