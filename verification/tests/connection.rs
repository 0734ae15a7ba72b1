use remstats::cli::check_target;
use remstats::cli::validate_parameters;
use remstats::cli::Cli;
use remstats::cli::ConnectionType;
use remstats::cli::TargetError;

fn cli(hostname: &str) -> Cli {
    Cli {
        private_key_file: None,
        hostname: hostname.to_string(),
        password: None,
        interval: 5,
    }
}

#[test]
fn target_without_at_sign_rejected() {
    assert_eq!(check_target("nohost"), Some(TargetError::HostShape));
    assert_eq!(check_target("a@b@c"), Some(TargetError::HostShape));
}

#[test]
fn target_without_port_separator_rejected() {
    assert_eq!(check_target("user@host"), Some(TargetError::IpPortShape));
}

#[test]
fn target_with_bad_port_rejected() {
    assert_eq!(check_target("user@1.2.3.4:abc"), Some(TargetError::Port));
}

#[test]
fn target_with_bad_address_shape_rejected() {
    assert_eq!(check_target("user@1.2.3:22"), Some(TargetError::IpShape));
    assert_eq!(check_target("user@1.2.3.4.5:22"), Some(TargetError::IpShape));
}

#[test]
fn target_with_non_numeric_address_field_rejected() {
    assert_eq!(check_target("user@1.2.3.x:22"), Some(TargetError::IpDigits));
}

#[test]
fn valid_target_accepted() {
    assert_eq!(check_target("user@10.0.0.1:22"), None);
}

#[test]
fn agent_connection_when_no_credentials() {
    let c = cli("user@10.0.0.1:22");
    let conn = validate_parameters(&c);
    assert_eq!(conn.user, "user");
    assert_eq!(conn.hostname, "10.0.0.1:22");
    assert_eq!(conn.interval, 5);
    assert_eq!(conn.connection_type, ConnectionType::Agent);
    assert!(conn.password.is_none());
    assert!(conn.private_key_path.is_none());
}

#[test]
fn private_key_takes_precedence() {
    let mut c = cli("root@192.168.1.9:2222");
    c.private_key_file = Some("/home/me/.ssh/id_rsa".to_string());
    c.password = Some("SECRET-REDACTED".to_string());
    let conn = validate_parameters(&c);
    assert_eq!(conn.connection_type, ConnectionType::PrivateKey);
    assert_eq!(conn.private_key_path, Some("/home/me/.ssh/id_rsa"));
    assert!(conn.password.is_none());
}

#[test]
fn password_connection_when_only_password() {
    let mut c = cli("root@192.168.1.9:2222");
    c.password = Some("SECRET-REDACTED".to_string());
    let conn = validate_parameters(&c);
    assert_eq!(conn.connection_type, ConnectionType::Password);
    assert_eq!(conn.password, Some("SECRET-REDACTED"));
    assert!(conn.private_key_path.is_none());
}
