use ergoproxy::addr::SocketAddress;
use ergoproxy::pool::{
    ConnectionMetrics, ConnectionPlan, ConnectionPool, ConnectionState, PoolConfig, PoolError,
    PooledConnection,
};

fn local(port: u16) -> SocketAddress {
    SocketAddress::V4 { ip: 0x7f00_0001, port }
}

fn is_uuid_v4_text(s: &str) -> bool {
    let b = s.as_bytes();
    b.len() == 36
        && b.iter().enumerate().all(|(i, c)| {
            if i == 8 || i == 13 || i == 18 || i == 23 {
                *c == b'-'
            } else {
                c.is_ascii_digit() || (b'a'..=b'f').contains(c)
            }
        })
        && b[14] == b'4'
        && matches!(b[19], b'8' | b'9' | b'a' | b'b')
}

#[test]
fn test_connection_creation() {
    let addr = local(40000);
    let mut pool = ConnectionPool::new(PoolConfig::default());
    assert_eq!(pool.get_connection(addr, 0), Ok(ConnectionPlan::Connect));
    let _conn_id = pool.register_connection(addr, 0);

    let metrics = pool.get_metrics();
    assert_eq!(metrics.total_connections, 1);
    assert_eq!(metrics.active_connections, 1);
}

#[test]
fn test_connection_reuse() {
    let addr = local(40001);
    let mut pool = ConnectionPool::new(PoolConfig::default());

    // Create first connection
    assert_eq!(pool.get_connection(addr, 0), Ok(ConnectionPlan::Connect));
    let conn_id1 = pool.register_connection(addr, 0);

    // Should reuse the same connection
    let conn_id2 = match pool.get_connection(addr, 1) {
        Ok(ConnectionPlan::Reuse(id)) => id,
        other => panic!("expected the pooled connection, got {:?}", other),
    };

    assert_eq!(conn_id1, conn_id2);
    assert_eq!(pool.len(), 1);
}

#[test]
fn default_pool_config() {
    let config = PoolConfig::default();
    assert_eq!(config.max_size, 50);
    assert_eq!(config.max_idle_time, 60_000_000_000);
    assert_eq!(config.health_check_interval, 30_000_000_000);
    assert_eq!(config.connection_timeout, 5_000_000_000);
}

#[test]
fn connection_ids_are_random_v4_uuids() {
    let mut pool = ConnectionPool::new(PoolConfig::default());
    let a = pool.register_connection(local(1), 0);
    let b = pool.register_connection(local(2), 0);
    assert!(is_uuid_v4_text(&a), "{}", a);
    assert!(is_uuid_v4_text(&b), "{}", b);
    assert_ne!(a, b);
    assert_eq!(pool.len(), 2);
    assert_eq!(pool.find(&a).unwrap().target, local(1));
    assert_eq!(pool.connection_target(&b), Ok(local(2)));
    assert_eq!(pool.connection_target("missing"), Err(PoolError::InvalidState));
    assert!(pool.find("missing").is_none());
}

#[test]
fn idle_connections_are_preferred() {
    let mut pool = ConnectionPool::new(PoolConfig::default());
    let first = pool.register_connection(local(80), 0);
    let second = pool.register_connection(local(80), 0);
    assert_eq!(pool.find_idle_connection(&local(80)), None);
    // A successful probe leaves the second connection idle.
    assert_eq!(pool.record_health_check(&second, Ok(1)), Some(true));
    assert_eq!(pool.find_idle_connection(&local(80)), Some(second.clone()));
    assert_eq!(pool.get_connection(local(80), 5), Ok(ConnectionPlan::Reuse(second)));
    assert_ne!(first, String::new());
    // Another target gets a new connection.
    assert_eq!(pool.get_connection(local(81), 5), Ok(ConnectionPlan::Connect));
}

#[test]
fn full_pool_drops_expired_connections_first() {
    let config = PoolConfig { max_size: 2, max_idle_time: 100, ..PoolConfig::default() };
    let mut pool = ConnectionPool::new(config);
    let old = pool.register_connection(local(1), 0);
    let recent = pool.register_connection(local(2), 950);
    // The pool is full and neither connection goes to port 3.
    assert_eq!(pool.get_connection(local(3), 1000), Ok(ConnectionPlan::Connect));
    assert_eq!(pool.len(), 1);
    assert!(pool.find(&old).is_none());
    assert!(pool.find(&recent).is_some());
}

#[test]
fn full_pool_without_expired_connections_is_full() {
    let config = PoolConfig { max_size: 2, max_idle_time: 100, ..PoolConfig::default() };
    let mut pool = ConnectionPool::new(config);
    let a = pool.register_connection(local(1), 950);
    let b = pool.register_connection(local(2), 960);
    assert!(!pool.has_room());
    assert_eq!(pool.get_connection(local(3), 1000), Err(PoolError::PoolFull));
    assert_eq!(pool.len(), 2);
    assert!(pool.find(&a).is_some() && pool.find(&b).is_some());
    // A full pool still serves its own targets.
    assert_eq!(pool.get_connection(local(1), 1000), Ok(ConnectionPlan::Reuse(a)));
}

#[test]
fn zero_sized_pool_is_always_full() {
    let config = PoolConfig { max_size: 0, ..PoolConfig::default() };
    let mut pool = ConnectionPool::new(config);
    assert!(!pool.has_room());
    assert_eq!(pool.get_connection(local(1), 0), Err(PoolError::PoolFull));
}

#[test]
fn pool_with_room_keeps_expired_connections() {
    let config = PoolConfig { max_size: 5, max_idle_time: 100, ..PoolConfig::default() };
    let mut pool = ConnectionPool::new(config);
    pool.register_connection(local(1), 0);
    assert_eq!(pool.get_connection(local(3), 10_000), Ok(ConnectionPlan::Connect));
    assert_eq!(pool.len(), 1);
}

#[test]
fn cleanup_removes_failed_and_stale_connections() {
    let config = PoolConfig { max_size: 10, max_idle_time: 100, ..PoolConfig::default() };
    let mut pool = ConnectionPool::new(config);
    let failed = pool.register_connection(local(1), 500);
    let stale = pool.register_connection(local(2), 0);
    let edge = pool.register_connection(local(3), 400);
    let fresh = pool.register_connection(local(4), 490);
    assert_eq!(pool.record_health_check(&failed, Err("broken pipe".to_string())), Some(false));
    assert_eq!(pool.cleanup_expired(500), Ok(()));
    assert!(pool.find(&failed).is_none());
    assert!(pool.find(&stale).is_none());
    // Exactly the idle time is not yet too long.
    assert!(pool.find(&edge).is_some());
    assert!(pool.find(&fresh).is_some());
    assert_eq!(pool.len(), 2);
    // A clock reading before the last use counts as no time passed.
    assert_eq!(pool.cleanup_expired(0), Ok(()));
    assert_eq!(pool.len(), 2);
}

#[test]
fn health_checks_probe_inactive_connections() {
    let mut pool = ConnectionPool::new(PoolConfig::default());
    let a = pool.register_connection(local(1), 0);
    let b = pool.register_connection(local(2), 0);
    assert!(pool.connections_to_check().is_empty());
    assert_eq!(pool.record_health_check(&a, Ok(1)), Some(true));
    assert_eq!(pool.record_health_check(&b, Err("reset".to_string())), Some(false));
    assert_eq!(pool.connections_to_check(), vec![a.clone(), b.clone()]);
    let failed = pool.find(&b).unwrap();
    assert_eq!(failed.state, ConnectionState::Failed);
    assert_eq!(failed.metrics.error_count, 1);
    assert_eq!(failed.metrics.last_error, Some("reset".to_string()));
    assert_eq!(pool.find(&a).unwrap().state, ConnectionState::Idle);
    assert_eq!(pool.record_health_check("missing", Ok(1)), None);

    let metrics = pool.get_metrics();
    assert_eq!(metrics.total_connections, 2);
    assert_eq!(metrics.idle_connections, 1);
    assert_eq!(metrics.failed_connections, 1);
    assert_eq!(metrics.active_connections, 0);
    assert_eq!(metrics.checking_connections, 0);
}

#[test]
fn health_round_settles_every_listed_connection() {
    let mut pool = ConnectionPool::new(PoolConfig::default());
    let a = pool.register_connection(local(1), 0);
    let b = pool.register_connection(local(2), 0);
    let c = pool.register_connection(local(3), 0);
    pool.record_health_check(&a, Ok(1));
    pool.record_health_check(&b, Err("reset".to_string()));
    let listed = pool.connections_to_check();
    assert_eq!(listed, vec![a.clone(), b.clone()]);
    let probes = vec![
        (a.clone(), Err("broken pipe".to_string())),
        (b.clone(), Ok(1)),
        ("gone".to_string(), Ok(1)),
    ];
    pool.check_all_connections(probes);
    assert_eq!(pool.find(&a).unwrap().state, ConnectionState::Failed);
    assert_eq!(pool.find(&a).unwrap().metrics.error_count, 1);
    assert_eq!(pool.find(&b).unwrap().state, ConnectionState::Idle);
    assert_eq!(pool.find(&b).unwrap().metrics.error_count, 1);
    // The active connection is not probed and stays as it was.
    assert_eq!(pool.find(&c).unwrap().state, ConnectionState::Active);
    assert_eq!(pool.get_metrics().checking_connections, 0);
    assert_eq!(pool.len(), 3);
}

#[test]
fn connection_lifecycle() {
    let mut conn = PooledConnection::new(local(9), 7);
    assert_eq!(conn.state, ConnectionState::Active);
    assert_eq!(conn.metrics.created_at, 7);
    assert_eq!(conn.metrics.last_used, 7);
    conn.mark_idle();
    assert_eq!(conn.state, ConnectionState::Idle);
    conn.mark_used(11);
    assert_eq!(conn.state, ConnectionState::Active);
    assert_eq!(conn.metrics.last_used, 11);
    assert_eq!(conn.metrics.created_at, 7);
    conn.mark_failed("timeout".to_string());
    assert_eq!(conn.state, ConnectionState::Failed);
    assert_eq!(conn.metrics.error_count, 1);
    assert!(conn.check_health(Ok(1)));
    assert_eq!(conn.state, ConnectionState::Idle);
    assert!(!conn.check_health(Err("closed".to_string())));
    assert_eq!(conn.state, ConnectionState::Failed);
    assert_eq!(conn.metrics.error_count, 2);
    assert_eq!(conn.metrics.last_error, Some("closed".to_string()));
}

#[test]
fn response_time_average() {
    let mut m = ConnectionMetrics::new(100);
    assert_eq!(m.total_requests, 0);
    assert_eq!(m.avg_response_time, 0);
    m.record_request(300, 150);
    assert_eq!(m.total_requests, 1);
    assert_eq!(m.avg_response_time, 300);
    assert_eq!(m.last_used, 150);
    m.record_request(100, 160);
    assert_eq!(m.avg_response_time, 200);
    // (200 * 2 + 101) / 3 = 167, rounded down
    m.record_request(101, 170);
    assert_eq!(m.avg_response_time, 167);
    assert_eq!(m.created_at, 100);
    // The same duration again and again keeps the average.
    let mut same = ConnectionMetrics::new(0);
    for t in 0..10u64 {
        same.record_request(42, t);
        assert_eq!(same.avg_response_time, 42);
    }
}

#[test]
fn run_average_stays_between_extremes_and_below_true_mean() {
    let ds: [u128; 6] = [10, 1, 7, 3, 9, 2];
    let mut m = ConnectionMetrics::new(0);
    let mut sum: u128 = 0;
    for (k, d) in ds.iter().enumerate() {
        m.record_request(*d, k as u64);
        sum += *d;
        let n = (k + 1) as u128;
        assert!(1 <= m.avg_response_time && m.avg_response_time <= 10);
        assert!((m.avg_response_time as u128) * n <= sum);
    }
    assert_eq!(m.total_requests, 6);
}

#[test]
fn average_keeps_low_64_bits() {
    let mut m = ConnectionMetrics::new(0);
    let long = (u64::MAX as u128) + 5;
    m.record_request(long, 1);
    assert_eq!(m.avg_response_time, 4);
}

#[test]
fn errors_are_counted() {
    let mut m = ConnectionMetrics::new(0);
    m.record_error("first".to_string());
    m.record_error("second".to_string());
    assert_eq!(m.error_count, 2);
    assert_eq!(m.last_error, Some("second".to_string()));
}
