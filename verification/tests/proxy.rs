use ergoproxy::addr::SocketAddress;
use ergoproxy::commands::StartArgs;
use ergoproxy::http::{extract_host_from_buffer, split_host_port};
use ergoproxy::pool::{PoolConfig, PoolError};
use ergoproxy::proxy::{
    ConnectionContext, ErgoProxy, Handler, Protocol, ProxyError, RelayDirection, RelayStep,
};

fn detect(bytes: &[u8]) -> Protocol {
    ErgoProxy::detect_protocol(bytes).unwrap()
}

#[test]
fn empty_read_means_closed_connection() {
    assert_eq!(
        ErgoProxy::detect_protocol(b""),
        Err(ProxyError::ProtocolError(
            "Connection closed before protocol detection".to_string()
        ))
    );
}

#[test]
fn protocols_are_detected() {
    assert_eq!(detect(b"PRI * HTTP/2.0\r\n\r\nSM\r\n\r\n"), Protocol::Http2);
    assert_eq!(detect(b"PRI * HTTP/2.0\r"), Protocol::Unknown);
    assert_eq!(detect(b"GET / HTTP/1.1\r\nHost: a\r\n\r\n"), Protocol::Http1);
    assert_eq!(
        detect(b"GET /chat HTTP/1.1\r\nHost: a\r\nUpgrade: websocket\r\n\r\n"),
        Protocol::WebSocket
    );
    // The upgrade header only matters on a GET.
    assert_eq!(
        detect(b"POST /chat HTTP/1.1\r\nUpgrade: websocket\r\n\r\n"),
        Protocol::Http1
    );
    assert_eq!(detect(b"PUT /x HTTP/1.1\r\n"), Protocol::Http1);
    assert_eq!(detect(b"DELETE /x HTTP/1.1\r\n"), Protocol::Http1);
    assert_eq!(detect(b"HEAD /x HTTP/1.1\r\n"), Protocol::Http1);
    assert_eq!(detect(b"OPTIONS * HTTP/1.1\r\n"), Protocol::Http1);
    assert_eq!(detect(b"POSTX"), Protocol::Http1);
    assert_eq!(detect(b"GET"), Protocol::Unknown);
    assert_eq!(detect(b"PATCH /x HTTP/1.1\r\n"), Protocol::Unknown);
    assert_eq!(detect(b"get / HTTP/1.1\r\n"), Protocol::Unknown);
    assert_eq!(detect(b"\x16\x03\x01\x02\x00"), Protocol::Unknown);
    // Bytes that are not UTF-8 do not hide the upgrade header.
    assert_eq!(
        detect(b"GET / HTTP/1.1\r\nX: \xff\xfe\r\nUpgrade: websocket\r\n"),
        Protocol::WebSocket
    );
}

#[test]
fn host_header_is_extracted() {
    let host = |b: &[u8]| extract_host_from_buffer(b);
    assert_eq!(
        host(b"GET / HTTP/1.1\r\nHost: example.com\r\nAccept: */*\r\n\r\n"),
        Some("example.com".to_string())
    );
    assert_eq!(
        host(b"GET / HTTP/1.1\nHost: example.com:8080\n"),
        Some("example.com:8080".to_string())
    );
    assert_eq!(host(b"Host:   spaced.org \t \r\n"), Some("spaced.org".to_string()));
    assert_eq!(host(b"GET / HTTP/1.1\r\nHost: \r\n"), Some(String::new()));
    // The first matching line wins.
    assert_eq!(host(b"Host: one\r\nHost: two\r\n"), Some("one".to_string()));
    // The header name is matched exactly, at the start of a line.
    assert_eq!(host(b"GET / HTTP/1.1\r\nhost: example.com\r\n"), None);
    assert_eq!(host(b"GET / HTTP/1.1\r\nX-Host: example.com\r\n"), None);
    assert_eq!(host(b"GET / HTTP/1.1\r\nHost:example.com\r\n"), None);
    assert_eq!(host(b""), None);
    // Unicode white space is trimmed, other text is kept.
    assert_eq!(
        host("Host: \u{3000}b\u{fc}cher.de\u{a0}\r\n".as_bytes()),
        Some("b\u{fc}cher.de".to_string())
    );
    // A buffer that is not UTF-8 has no host.
    assert_eq!(host(b"GET / HTTP/1.1\r\nHost: a.com\r\n\xff"), None);
}

#[test]
fn host_and_port_are_split() {
    let split = |s: &str| split_host_port(s);
    assert_eq!(split("example.com:8080"), ("example.com".to_string(), 8080));
    assert_eq!(split("example.com"), ("example.com".to_string(), 80));
    assert_eq!(split("example.com:http"), ("example.com".to_string(), 80));
    assert_eq!(split("example.com:"), ("example.com".to_string(), 80));
    assert_eq!(split("example.com:65535"), ("example.com".to_string(), 65535));
    // Ports outside 0..=65535 are kept, so that looking them up fails.
    assert_eq!(split("example.com:65536"), ("example.com".to_string(), 65536));
    assert_eq!(split("example.com:70000"), ("example.com".to_string(), 70000));
    assert_eq!(split("example.com:-1"), ("example.com".to_string(), -1));
    assert_eq!(split("example.com:-0"), ("example.com".to_string(), 0));
    assert_eq!(split("h:2147483647"), ("h".to_string(), i32::MAX));
    assert_eq!(split("h:2147483648"), ("h".to_string(), 80));
    assert_eq!(split("h:-2147483648"), ("h".to_string(), i32::MIN));
    assert_eq!(split("h:-2147483649"), ("h".to_string(), 80));
    assert_eq!(split("example.com:+443"), ("example.com".to_string(), 443));
    assert_eq!(split("example.com:+"), ("example.com".to_string(), 80));
    assert_eq!(split("example.com:-"), ("example.com".to_string(), 80));
    assert_eq!(split("example.com:+-1"), ("example.com".to_string(), 80));
    assert_eq!(split("example.com:0080"), ("example.com".to_string(), 80));
    assert_eq!(split("a:1:2"), ("a".to_string(), 80));
    assert_eq!(split("a:99999999999999999999"), ("a".to_string(), 80));
    assert_eq!(split(":8443"), (String::new(), 8443));
}

#[test]
fn handlers_are_selected() {
    let select = ErgoProxy::select_handler;
    for (h2, ws) in [(false, false), (false, true), (true, false), (true, true)] {
        assert_eq!(select(Protocol::Http2, 0, h2, ws), Ok(Handler::Http1));
        assert_eq!(select(Protocol::Http1, 10, h2, ws), Ok(Handler::Http1));
        assert_eq!(
            select(Protocol::Unknown, 10, h2, ws),
            Err(ProxyError::ProtocolError("Unknown protocol".to_string()))
        );
    }
    assert_eq!(select(Protocol::Http2, 24, true, false), Ok(Handler::Http2));
    assert_eq!(
        select(Protocol::Http2, 24, false, true),
        Err(ProxyError::ProtocolError("HTTP/2 support is disabled".to_string()))
    );
    assert_eq!(select(Protocol::WebSocket, 10, false, true), Ok(Handler::WebSocket));
    assert_eq!(select(Protocol::WebSocket, 10, true, false), Ok(Handler::Http1));
    assert!(ErgoProxy::needs_target_lookup(Protocol::Http1));
    assert!(ErgoProxy::needs_target_lookup(Protocol::Http2));
    assert!(!ErgoProxy::needs_target_lookup(Protocol::WebSocket));
    assert!(!ErgoProxy::needs_target_lookup(Protocol::Unknown));
}

#[test]
fn read_failure_message() {
    assert_eq!(
        ErgoProxy::stream_read_failure("reset by peer".to_string()),
        ProxyError::ProtocolError("Failed to read from stream: reset by peer".to_string())
    );
}

#[test]
fn relay_steps() {
    assert_eq!(ErgoProxy::relay_after_read(RelayDirection::ClientToTarget, Ok(0)), RelayStep::Finished);
    assert_eq!(ErgoProxy::relay_after_read(RelayDirection::TargetToClient, Ok(12)), RelayStep::Forward);
    assert_eq!(
        ErgoProxy::relay_after_read(RelayDirection::ClientToTarget, Err("reset".to_string())),
        RelayStep::Failed(ProxyError::ProtocolError("Read from client failed: reset".to_string()))
    );
    assert_eq!(
        ErgoProxy::relay_after_read(RelayDirection::TargetToClient, Err("eof".to_string())),
        RelayStep::Failed(ProxyError::ProtocolError("Read from target failed: eof".to_string()))
    );
    assert_eq!(
        ErgoProxy::relay_write_failure(RelayDirection::ClientToTarget, "pipe".to_string()),
        ProxyError::ProtocolError("Write to target failed: pipe".to_string())
    );
    assert_eq!(
        ErgoProxy::relay_write_failure(RelayDirection::TargetToClient, "pipe".to_string()),
        ProxyError::ProtocolError("Write to client failed: pipe".to_string())
    );
}

#[test]
fn proxy_is_built_from_start_arguments() {
    let args = StartArgs {
        host: "0.0.0.0".to_string(),
        port: 9000,
        pool_size: 7,
        http2: true,
        websocket: false,
        ip_rotation: Some(90),
        verbose: false,
    };
    let proxy = ErgoProxy::from_start_args(&args);
    assert_eq!(
        proxy.pool.config(),
        PoolConfig { max_size: 7, ..PoolConfig::default() }
    );
    assert_eq!(proxy.pool.len(), 0);
    assert_eq!(proxy.security.ip_rotation_interval, Some(90_000_000_000));
    assert!(proxy.http2_enabled);
    assert!(!proxy.websocket_enabled);
    let proxy = proxy.with_websocket(true).with_http2(false);
    assert!(proxy.websocket_enabled);
    assert!(!proxy.http2_enabled);
}

#[test]
fn context_starts_at_the_client() {
    let client = SocketAddress::V6 { ip: 1, port: 443, flowinfo: 0, scope_id: 0 };
    let ctx = ConnectionContext::new(Protocol::WebSocket, client);
    assert_eq!(ctx.target_addr, client);
    assert_eq!(ctx.client_addr, client);
    assert!(!ctx.secure);
    assert_eq!(ctx.protocol, Protocol::WebSocket);
}

#[test]
fn pool_errors_convert() {
    let e: ProxyError = PoolError::ConnectionTimeout.into();
    assert_eq!(e, ProxyError::PoolError(PoolError::ConnectionTimeout));
}
