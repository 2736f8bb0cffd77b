use command_queue::{get_connection_config, get_queue_configs, ArgsError, ConfigError};

fn strings(v: &[&str]) -> Vec<String> {
    v.iter().map(|s| s.to_string()).collect()
}

#[test]
fn queue_names_in_order() {
    let q = get_queue_configs(&strings(&["emails", "reports"])).unwrap();
    assert_eq!(q.len(), 2);
    assert_eq!(q[0].name, "emails");
    assert_eq!(q[1].name, "reports");
}

#[test]
fn no_queue_names() {
    assert_eq!(get_queue_configs(&vec![]).err(), Some(ArgsError::NoQueues));
}

#[test]
fn help_flag() {
    assert_eq!(
        get_queue_configs(&strings(&["a", "--help"])).err(),
        Some(ArgsError::HelpRequested)
    );
    assert_eq!(
        get_queue_configs(&strings(&["", "--help"])).err(),
        Some(ArgsError::HelpRequested)
    );
}

#[test]
fn scenario_empty_or_duplicate_names_rejected() {
    assert_eq!(
        get_queue_configs(&strings(&["x", "x"])).err(),
        Some(ArgsError::DuplicateName)
    );
    assert_eq!(
        get_queue_configs(&strings(&["x", "y", "x"])).err(),
        Some(ArgsError::DuplicateName)
    );
    assert_eq!(
        get_queue_configs(&strings(&["x", ""])).err(),
        Some(ArgsError::EmptyName)
    );
    assert!(get_queue_configs(&strings(&["x"])).is_ok());
}

#[test]
fn priority_suffix_in_a_name_rejected() {
    assert_eq!(
        get_queue_configs(&strings(&["a", "a:priority"])).err(),
        Some(ArgsError::ReservedSuffix)
    );
    assert_eq!(
        get_queue_configs(&strings(&[":priority"])).err(),
        Some(ArgsError::ReservedSuffix)
    );
    // a suffix check comes before the duplicate check
    assert_eq!(
        get_queue_configs(&strings(&["b", "b", "x:priority"])).err(),
        Some(ArgsError::ReservedSuffix)
    );
    assert!(get_queue_configs(&strings(&["priority", "a:priority:x", "a:prio"])).is_ok());
}

#[test]
fn connection_defaults() {
    let c = get_connection_config(None, None, None).unwrap();
    assert_eq!(c.hostname, "127.0.0.1");
    assert_eq!(c.port, 6379);
    assert_eq!(c.timeout, 3);
}

#[test]
fn connection_given_values() {
    let c = get_connection_config(
        Some("redis.local".to_string()),
        Some("6380".to_string()),
        Some("+10".to_string()),
    )
    .unwrap();
    assert_eq!(c.hostname, "redis.local");
    assert_eq!(c.port, 6380);
    assert_eq!(c.timeout, 10);
    let c = get_connection_config(None, Some("65535".to_string()), Some("1".to_string())).unwrap();
    assert_eq!(c.port, 65535);
    assert_eq!(c.timeout, 1);
}

#[test]
fn invalid_port() {
    for p in ["0", "65536", "abc", "", "-1", " 80", "+"] {
        assert_eq!(
            get_connection_config(None, Some(p.to_string()), None).err(),
            Some(ConfigError::InvalidPort)
        );
    }
    // the port is checked before the timeout
    assert_eq!(
        get_connection_config(None, Some("x".to_string()), Some("y".to_string())).err(),
        Some(ConfigError::InvalidPort)
    );
}

#[test]
fn invalid_timeout() {
    for t in ["0", "three", "", "99999999999999999999999"] {
        assert_eq!(
            get_connection_config(None, None, Some(t.to_string())).err(),
            Some(ConfigError::InvalidTimeout)
        );
    }
}
