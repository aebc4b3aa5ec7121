use permctl::{CommandConfig, Config, PermissionError};

fn test_command(max_duration: i64, max_concurrent_users: usize) -> CommandConfig {
    CommandConfig {
        description: "test".to_string(),
        max_duration,
        required_groups: vec!["test".to_string()],
        audit_usage: true,
        max_concurrent_users,
    }
}

#[test]
fn test_command_config_validation() {
    let valid_config = test_command(60, 5);
    assert!(valid_config.validate().is_ok());

    let invalid_duration = test_command(0, 5);
    assert!(invalid_duration.validate().is_err());
}

#[test]
fn test_config_validation() {
    let mut config = Config::default();

    config.allowed_commands.push((
        "invalid-path".to_string(),
        CommandConfig {
            description: "test".to_string(),
            max_duration: 60,
            required_groups: vec![],
            audit_usage: false,
            max_concurrent_users: 1,
        },
    ));
    assert!(config.validate().is_err());
}

#[test]
fn test_command_config_zero_users_rejected() {
    let zero_users = test_command(60, 0);
    match zero_users.validate() {
        Err(PermissionError::Config(m)) => {
            assert_eq!(m, "max_concurrent_users must be at least 1");
        }
        other => panic!("expected a Config error, got {:?}", other),
    }
}

#[test]
fn test_default_config_values() {
    let config = Config::default();
    assert_eq!(config.allowed_commands.len(), 1);
    assert_eq!(config.allowed_commands[0].0, "/usr/bin/docker");
    let docker = &config.allowed_commands[0].1;
    assert_eq!(docker.description, "Docker command access");
    assert_eq!(docker.max_duration, 480);
    assert_eq!(docker.required_groups, vec!["docker".to_string()]);
    assert!(docker.audit_usage);
    assert_eq!(docker.max_concurrent_users, 5);
    assert_eq!(config.sudoers_path, "/etc/sudoers.d/permctl");
    assert_eq!(config.db_path, "/var/lib/permctl/permissions.db");
    assert_eq!(config.log_path, "/var/log/permctl/access.log");
    assert!(!config.debug);
    assert_eq!(config.log_retention_days, 30);
    assert!(config.validate().is_ok());
}

#[test]
fn test_get_command_lookup() {
    let config = Config::default();
    let found = config.get_command("/usr/bin/docker");
    assert!(found.is_some());
    assert_eq!(found.unwrap().max_duration, 480);
    assert!(config.get_command("/usr/bin/other").is_none());
}

#[test]
fn test_relative_configured_path_rejected() {
    let mut config = Config::default();
    config.db_path = "relative/path.db".to_string();
    match config.validate() {
        Err(PermissionError::Config(m)) => {
            assert_eq!(m, "configured path must be absolute");
        }
        other => panic!("expected a Config error, got {:?}", other),
    }
}
