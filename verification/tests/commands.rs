use ergoproxy::commands::{CliError, IpAction, StartArgs};

fn start_args(port: u16) -> StartArgs {
    StartArgs {
        host: "127.0.0.1".to_string(),
        port,
        pool_size: 50,
        http2: false,
        websocket: false,
        ip_rotation: None,
        verbose: false,
    }
}

#[test]
fn test_start_args_validation() {
    let args = start_args(8080);
    assert!(args.validate(true).is_ok());
    assert!(args.validate(false).is_ok());
}

#[test]
fn test_ip_action_validation() {
    let action = IpAction::Add {
        ip: "192.168.1.1".to_string(),
    };
    assert!(action.validate(false).is_ok());

    let action = IpAction::Add {
        ip: "invalid.ip".to_string(),
    };
    assert!(action.validate(false).is_err());
}

#[test]
fn privileged_port_needs_a_debug_build() {
    let args = start_args(80);
    assert_eq!(args.validate(false), Err(CliError::InvalidConfig));
    assert_eq!(args.validate(true), Ok(()));
    assert_eq!(start_args(1023).validate(false), Err(CliError::InvalidConfig));
    assert_eq!(start_args(1024).validate(false), Ok(()));
}

#[test]
fn ip_needs_exactly_four_parts() {
    let check = |ip: &str| IpAction::Add { ip: ip.to_string() }.validate(false);
    assert_eq!(check("invalid.ip"), Err(CliError::InvalidIp));
    assert_eq!(check("1.2.3"), Err(CliError::InvalidIp));
    assert_eq!(check("1.2.3.4.5"), Err(CliError::InvalidIp));
    assert_eq!(check(""), Err(CliError::InvalidIp));
    // Only the number of parts is checked.
    assert_eq!(check("a.b.c.d"), Ok(()));
    assert_eq!(check("..."), Ok(()));
    assert_eq!(check("10.0.0.1"), Ok(()));
}

#[test]
fn import_needs_an_existing_file() {
    let action = IpAction::Import {
        path: "/no/such/list.txt".to_string(),
    };
    assert_eq!(
        action.validate(false),
        Err(CliError::FileNotFound("/no/such/list.txt".to_string()))
    );
    assert_eq!(action.validate(true), Ok(()));
    assert_eq!(IpAction::Status.validate(false), Ok(()));
}
