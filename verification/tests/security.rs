use ergoproxy::addr::SocketAddress;
use ergoproxy::proxy::{ConnectionContext, Protocol};
use ergoproxy::security::SecurityManager;

#[test]
fn first_user_agent_is_handed_out() {
    let mut security = SecurityManager::new(Some(30_000_000_000));
    assert_eq!(security.get_next_user_agent(), None);
    security.add_user_agent("agent-a".to_string());
    assert_eq!(security.get_next_user_agent(), Some("agent-a"));
    security.add_user_agent("agent-b".to_string());
    assert_eq!(security.get_next_user_agent(), Some("agent-a"));
    assert_eq!(security.user_agents.len(), 2);
    assert_eq!(security.ip_rotation_interval, Some(30_000_000_000));
}

#[test]
fn security_measures_let_connections_pass() {
    let security = SecurityManager::new(None);
    let client = SocketAddress::V4 { ip: 0x7f00_0001, port: 5000 };
    let ctx = ConnectionContext::new(Protocol::Http1, client);
    assert_eq!(security.apply_security_measures(&ctx), Ok(()));
}
