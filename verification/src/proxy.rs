use vstd::prelude::*;

use crate::addr::SocketAddress;
use crate::commands::StartArgs;
use crate::pool::{default_pool_config, ConnectionPool, PoolConfig, PoolError};
use crate::security::SecurityManager;
use crate::http::{
    contains, contains_seq, has_prefix, http2_preface, occurs_at, method_delete, method_get, method_head,
    method_options, method_post, method_put, starts_with, websocket_upgrade,
};

verus! {

/// Errors raised while accepting, classifying or relaying a client connection.
#[derive(Debug, Clone, PartialEq, Eq)]
pub enum ProxyError {
    /// The listening socket could not be bound; holds the I/O error's text.
    BindError(String),
    /// The connection pool refused or failed a request.
    PoolError(PoolError),
    ProtocolError(String),
    SecurityError(String),
    HttpError(String),
}

/// Protocol types supported by the proxy
#[derive(Debug, Clone, Copy, PartialEq, Eq, Structural)]
pub enum Protocol {
    Http1,
    Http2,
    WebSocket,
    Unknown,
}

/// The protocol that the first bytes of a client connection announce: the
/// HTTP/2 preface, an HTTP/1 request line (a `GET` that carries
/// `Upgrade: websocket` anywhere in the buffer opens a WebSocket), or
/// nothing known. The header is searched for in the raw bytes: since it is
/// ASCII, it occurs there exactly where it occurs in the text that the
/// bytes decode to with invalid sequences replaced.
pub open spec fn protocol_of(buf: Seq<u8>) -> Protocol {
    if has_prefix(buf, http2_preface()) {
        Protocol::Http2
    } else if has_prefix(buf, method_get()) {
        if contains_seq(buf, websocket_upgrade()) {
            Protocol::WebSocket
        } else {
            Protocol::Http1
        }
    } else if has_prefix(buf, method_post()) || has_prefix(buf, method_put())
        || has_prefix(buf, method_delete()) || has_prefix(buf, method_head())
        || has_prefix(buf, method_options()) {
        Protocol::Http1
    } else {
        Protocol::Unknown
    }
}

impl From<PoolError> for ProxyError {
    fn from(e: PoolError) -> (r: Self)
        ensures
            r == ProxyError::PoolError(e),
    {
        ProxyError::PoolError(e)
    }
}

impl vstd::std_specs::convert::FromSpecImpl<PoolError> for ProxyError {
    open spec fn obeys_from_spec() -> bool {
        true
    }

    open spec fn from_spec(e: PoolError) -> Self {
        ProxyError::PoolError(e)
    }
}

/// Connection context containing metadata about the connection
#[derive(Debug, Clone, Copy, PartialEq, Eq, Structural)]
pub struct ConnectionContext {
    pub protocol: Protocol,
    pub client_addr: SocketAddress,
    pub target_addr: SocketAddress,
    pub secure: bool,
}

impl ConnectionContext {
    /// The context of a new connection: its target is the client until the
    /// request names another, and it is not secure.
    pub fn new(protocol: Protocol, client_addr: SocketAddress) -> (r: Self)
        ensures
            r == (ConnectionContext {
                protocol,
                client_addr,
                target_addr: client_addr,
                secure: false,
            }),
    {
        ConnectionContext { protocol, client_addr, target_addr: client_addr, secure: false }
    }
}

/// The handler that serves a classified connection.
#[derive(Debug, Clone, Copy, PartialEq, Eq, Structural)]
pub enum Handler {
    Http1,
    Http2,
    WebSocket,
}

/// The direction in which bytes are relayed.
#[derive(Debug, Clone, Copy, PartialEq, Eq, Structural)]
pub enum RelayDirection {
    ClientToTarget,
    TargetToClient,
}

/// What a relay loop does after a read.
#[derive(Debug, Clone, PartialEq, Eq)]
pub enum RelayStep {
    /// The source reached its end: the relay is done.
    Finished,
    /// Write the bytes read to the other side and read again.
    Forward,
    /// The relay stops with this error.
    Failed(ProxyError),
}

/// Main proxy structure
pub struct ErgoProxy {
    pub pool: ConnectionPool,
    pub security: SecurityManager,
    pub http2_enabled: bool,
    pub websocket_enabled: bool,
}

impl ErgoProxy {
    pub fn new(pool: ConnectionPool, security: SecurityManager) -> (r: Self)
        ensures
            r.pool == pool,
            r.security == security,
            !r.http2_enabled,
            !r.websocket_enabled,
    {
        ErgoProxy { pool, security, http2_enabled: false, websocket_enabled: false }
    }

    pub fn with_http2(self, enabled: bool) -> (r: Self)
        ensures
            r == (ErgoProxy { http2_enabled: enabled, ..self }),
    {
        let mut p = self;
        p.http2_enabled = enabled;
        p
    }

    pub fn with_websocket(self, enabled: bool) -> (r: Self)
        ensures
            r == (ErgoProxy { websocket_enabled: enabled, ..self }),
    {
        let mut p = self;
        p.websocket_enabled = enabled;
        p
    }

    /// The proxy that the `start` command describes: a pool of
    /// `pool_size` connections with the default timings, IP rotation every
    /// `ip_rotation` seconds if given, and the requested protocol support.
    pub fn from_start_args(args: &StartArgs) -> (r: Self)
        ensures
            r.pool.conns() == Seq::<crate::pool::PooledConnection>::empty(),
            r.pool.cfg() == (PoolConfig { max_size: args.pool_size, ..default_pool_config() }),
            r.security.ip_rotation_interval == match args.ip_rotation {
                Some(secs) => Some((secs * 1_000_000_000) as u128),
                None => None::<u128>,
            },
            r.security.agents() == Seq::<Seq<char>>::empty(),
            r.http2_enabled == args.http2,
            r.websocket_enabled == args.websocket,
    {
        let defaults = PoolConfig::default();
        let config = PoolConfig { max_size: args.pool_size, ..defaults };
        let interval = match args.ip_rotation {
            Some(secs) => Some((secs as u128) * 1_000_000_000),
            None => None,
        };
        ErgoProxy::new(ConnectionPool::new(config), SecurityManager::new(interval)).with_http2(
            args.http2,
        ).with_websocket(args.websocket)
    }

    /// Only HTTP requests name the host they are for.
    pub fn needs_target_lookup(protocol: Protocol) -> (r: bool)
        ensures
            r == (protocol == Protocol::Http1 || protocol == Protocol::Http2),
    {
        match protocol {
            Protocol::Http1 | Protocol::Http2 => true,
            _ => false,
        }
    }

    /// The handler for a connection of `protocol` with `buffered` bytes
    /// already read, under the proxy's protocol settings. HTTP/2 with data
    /// goes to HTTP/2 handling when it is enabled and is refused otherwise;
    /// a WebSocket handshake goes to WebSocket handling when it is enabled
    /// and is otherwise served as the HTTP/1.1 request it is; the other HTTP
    /// connections go to HTTP/1; an unknown protocol is refused.
    pub fn select_handler(
        protocol: Protocol,
        buffered: usize,
        http2_enabled: bool,
        websocket_enabled: bool,
    ) -> (r: Result<Handler, ProxyError>)
        ensures
            r matches Ok(Handler::Http2) ==> http2_enabled,
            r matches Ok(Handler::WebSocket) ==> websocket_enabled,
            protocol == Protocol::Http2 && buffered > 0 && http2_enabled ==> r == Ok::<Handler, ProxyError>(Handler::Http2),
            protocol == Protocol::Http2 && buffered > 0 && !http2_enabled ==> (r matches Err(ProxyError::ProtocolError(m))
                && m@ == "HTTP/2 support is disabled"@),
            protocol == Protocol::Http2 && buffered == 0 ==> r == Ok::<Handler, ProxyError>(Handler::Http1),
            protocol == Protocol::WebSocket && websocket_enabled ==> r == Ok::<Handler, ProxyError>(Handler::WebSocket),
            protocol == Protocol::WebSocket && !websocket_enabled ==> r == Ok::<Handler, ProxyError>(Handler::Http1),
            protocol == Protocol::Http1 ==> r == Ok::<Handler, ProxyError>(Handler::Http1),
            protocol == Protocol::Unknown ==> (r matches Err(ProxyError::ProtocolError(m))
                && m@ == "Unknown protocol"@),
    {
        match protocol {
            Protocol::Http2 => if buffered == 0 {
                Ok(Handler::Http1)
            } else if http2_enabled {
                Ok(Handler::Http2)
            } else {
                Err(ProxyError::ProtocolError(String::from_str("HTTP/2 support is disabled")))
            },
            Protocol::WebSocket => if websocket_enabled {
                Ok(Handler::WebSocket)
            } else {
                Ok(Handler::Http1)
            },
            Protocol::Http1 => Ok(Handler::Http1),
            Protocol::Unknown => Err(ProxyError::ProtocolError(String::from_str("Unknown protocol"))),
        }
    }

    /// The error for a failed first read from a client connection.
    pub fn stream_read_failure(error: String) -> (r: ProxyError)
        ensures
            r matches ProxyError::ProtocolError(m) && m@ == "Failed to read from stream: "@ + error@,
    {
        ProxyError::ProtocolError(String::from_str("Failed to read from stream: ").concat(error.as_str()))
    }

    /// The relay's next step after reading `read` (a byte count or the read
    /// error's text) from the source of `direction`.
    pub fn relay_after_read(direction: RelayDirection, read: Result<usize, String>) -> (r: RelayStep)
        ensures
            read == Ok::<usize, String>(0) ==> r == RelayStep::Finished,
            read matches Ok(n) && n > 0 ==> r == RelayStep::Forward,
            read matches Err(e) ==> (r matches RelayStep::Failed(ProxyError::ProtocolError(m))
                && m@ == match direction {
                RelayDirection::ClientToTarget => "Read from client failed: "@,
                RelayDirection::TargetToClient => "Read from target failed: "@,
            } + e@),
    {
        match read {
            Ok(0) => RelayStep::Finished,
            Ok(_) => RelayStep::Forward,
            Err(e) => {
                let prefix = match direction {
                    RelayDirection::ClientToTarget => String::from_str("Read from client failed: "),
                    RelayDirection::TargetToClient => String::from_str("Read from target failed: "),
                };
                RelayStep::Failed(ProxyError::ProtocolError(prefix.concat(e.as_str())))
            },
        }
    }

    /// The error that ends a relay whose write toward the sink of
    /// `direction` failed with `error`.
    pub fn relay_write_failure(direction: RelayDirection, error: String) -> (r: ProxyError)
        ensures
            r matches ProxyError::ProtocolError(m) && m@ == match direction {
                RelayDirection::ClientToTarget => "Write to target failed: "@,
                RelayDirection::TargetToClient => "Write to client failed: "@,
            } + error@,
    {
        let prefix = match direction {
            RelayDirection::ClientToTarget => String::from_str("Write to target failed: "),
            RelayDirection::TargetToClient => String::from_str("Write to client failed: "),
        };
        ProxyError::ProtocolError(prefix.concat(error.as_str()))
    }

    /// Classifies a connection by the bytes first read from it. An empty read
    /// means that the peer closed the connection before sending anything.
    pub fn detect_protocol(buf: &[u8]) -> (r: Result<Protocol, ProxyError>)
        ensures
            buf@.len() == 0 ==> (r matches Err(ProxyError::ProtocolError(m))
                && m@ == "Connection closed before protocol detection"@),
            buf@.len() > 0 ==> r == Ok::<Protocol, ProxyError>(protocol_of(buf@)),
    {
        if buf.len() == 0 {
            return Err(ProxyError::ProtocolError(
                String::from_str("Connection closed before protocol detection"),
            ));
        }
        let preface: [u8; 16] = [
            0x50u8, 0x52, 0x49, 0x20, 0x2a, 0x20, 0x48, 0x54, 0x54, 0x50, 0x2f, 0x32, 0x2e, 0x30,
            0x0d, 0x0a,
        ];
        assert(preface@ =~= http2_preface());
        if starts_with(buf, preface.as_slice()) {
            return Ok(Protocol::Http2);
        }
        let get: [u8; 4] = [0x47u8, 0x45, 0x54, 0x20];
        assert(get@ =~= method_get());
        if starts_with(buf, get.as_slice()) {
            let upgrade: [u8; 18] = [
                0x55u8, 0x70, 0x67, 0x72, 0x61, 0x64, 0x65, 0x3a, 0x20, 0x77, 0x65, 0x62, 0x73,
                0x6f, 0x63, 0x6b, 0x65, 0x74,
            ];
            assert(upgrade@ =~= websocket_upgrade());
            if contains(buf, upgrade.as_slice()) {
                return Ok(Protocol::WebSocket);
            }
            return Ok(Protocol::Http1);
        }
        let post: [u8; 4] = [0x50u8, 0x4f, 0x53, 0x54];
        assert(post@ =~= method_post());
        let put: [u8; 4] = [0x50u8, 0x55, 0x54, 0x20];
        assert(put@ =~= method_put());
        let delete: [u8; 6] = [0x44u8, 0x45, 0x4c, 0x45, 0x54, 0x45];
        assert(delete@ =~= method_delete());
        let head: [u8; 4] = [0x48u8, 0x45, 0x41, 0x44];
        assert(head@ =~= method_head());
        let options: [u8; 7] = [0x4fu8, 0x50, 0x54, 0x49, 0x4f, 0x4e, 0x53];
        assert(options@ =~= method_options());
        if starts_with(buf, post.as_slice()) || starts_with(buf, put.as_slice())
            || starts_with(buf, delete.as_slice()) || starts_with(buf, head.as_slice())
            || starts_with(buf, options.as_slice()) {
            return Ok(Protocol::Http1);
        }
        Ok(Protocol::Unknown)
    }
}

/// A `GET ` request opens a WebSocket when the bytes of
/// `Upgrade: websocket` occur at
/// any position of the buffer, however far into it; without that header
/// anywhere it is plain HTTP/1.
pub proof fn lemma_get_request_classes(buf: Seq<u8>)
    requires
        buf.len() >= 4,
        buf[0] == 0x47u8 && buf[1] == 0x45u8 && buf[2] == 0x54u8 && buf[3] == 0x20u8,
    ensures
        (exists|i: int| 0 <= i && i + 18 <= buf.len() && #[trigger] buf.subrange(i, i + 18) == seq![0x55u8, 0x70, 0x67, 0x72, 0x61, 0x64, 0x65, 0x3a, 0x20, 0x77, 0x65, 0x62, 0x73, 0x6f, 0x63, 0x6b, 0x65, 0x74])
            ==> protocol_of(buf) == Protocol::WebSocket,
        (forall|i: int| 0 <= i && i + 18 <= buf.len() ==> #[trigger] buf.subrange(i, i + 18) != seq![0x55u8, 0x70, 0x67, 0x72, 0x61, 0x64, 0x65, 0x3a, 0x20, 0x77, 0x65, 0x62, 0x73, 0x6f, 0x63, 0x6b, 0x65, 0x74])
            ==> protocol_of(buf) == Protocol::Http1,
{
    assert(!has_prefix(buf, http2_preface())) by {
        if has_prefix(buf, http2_preface()) {
            assert(buf.subrange(0, 16)[0] == buf[0]);
        }
    }
    assert(buf.subrange(0, 4) =~= method_get());
    assert(websocket_upgrade() =~= seq![0x55u8, 0x70, 0x67, 0x72, 0x61, 0x64, 0x65, 0x3a, 0x20, 0x77, 0x65, 0x62, 0x73, 0x6f, 0x63, 0x6b, 0x65, 0x74]);
    if exists|i: int| 0 <= i && i + 18 <= buf.len() && #[trigger] buf.subrange(i, i + 18) == seq![0x55u8, 0x70, 0x67, 0x72, 0x61, 0x64, 0x65, 0x3a, 0x20, 0x77, 0x65, 0x62, 0x73, 0x6f, 0x63, 0x6b, 0x65, 0x74] {
        let i = choose|i: int| 0 <= i && i + 18 <= buf.len() && #[trigger] buf.subrange(i, i + 18) == seq![0x55u8, 0x70, 0x67, 0x72, 0x61, 0x64, 0x65, 0x3a, 0x20, 0x77, 0x65, 0x62, 0x73, 0x6f, 0x63, 0x6b, 0x65, 0x74];
        assert(occurs_at(buf, websocket_upgrade(), i));
    }
}

/// A buffer that begins with the HTTP/2 preface is HTTP/2, whatever follows.
pub proof fn lemma_preface_is_http2(buf: Seq<u8>)
    requires
        buf.len() >= 16,
        buf.subrange(0, 16) == seq![0x50u8, 0x52, 0x49, 0x20, 0x2a, 0x20, 0x48, 0x54, 0x54, 0x50, 0x2f, 0x32, 0x2e, 0x30, 0x0d, 0x0a],
    ensures
        protocol_of(buf) == Protocol::Http2,
{
    assert(buf.subrange(0, 16) =~= http2_preface());
}

/// The other request methods are plain HTTP/1, and a buffer that begins
/// with none of the known request starts is of no known protocol.
pub proof fn lemma_other_methods(buf: Seq<u8>)
    ensures
        buf.len() >= 4 && buf.subrange(0, 4) == seq![0x50u8, 0x4f, 0x53, 0x54] ==> protocol_of(buf)
            == Protocol::Http1,
        buf.len() >= 4 && buf.subrange(0, 4) == seq![0x50u8, 0x55, 0x54, 0x20] ==> protocol_of(buf)
            == Protocol::Http1,
        buf.len() >= 6 && buf.subrange(0, 6) == seq![0x44u8, 0x45, 0x4c, 0x45, 0x54, 0x45]
            ==> protocol_of(buf) == Protocol::Http1,
        buf.len() >= 4 && buf.subrange(0, 4) == seq![0x48u8, 0x45, 0x41, 0x44] ==> protocol_of(buf)
            == Protocol::Http1,
        buf.len() >= 7 && buf.subrange(0, 7) == seq![0x4fu8, 0x50, 0x54, 0x49, 0x4f, 0x4e, 0x53]
            ==> protocol_of(buf) == Protocol::Http1,
        buf.len() > 0 && buf[0] != 0x47u8 && buf[0] != 0x50u8 && buf[0] != 0x44u8 && buf[0] != 0x48u8
            && buf[0] != 0x4fu8 ==> protocol_of(buf) == Protocol::Unknown,
{
    if buf.len() > 0 {
        assert(has_prefix(buf, http2_preface()) ==> buf.subrange(0, 16)[0] == buf[0]);
        assert(has_prefix(buf, method_get()) ==> buf.subrange(0, 4)[0] == buf[0]);
        assert(has_prefix(buf, method_post()) ==> buf.subrange(0, 4)[0] == buf[0]);
        assert(has_prefix(buf, method_put()) ==> buf.subrange(0, 4)[0] == buf[0]);
        assert(has_prefix(buf, method_delete()) ==> buf.subrange(0, 6)[0] == buf[0]);
        assert(has_prefix(buf, method_head()) ==> buf.subrange(0, 4)[0] == buf[0]);
        assert(has_prefix(buf, method_options()) ==> buf.subrange(0, 7)[0] == buf[0]);
    }
    if buf.len() >= 4 {
        assert(has_prefix(buf, http2_preface()) ==> buf.subrange(0, 16)[1] == buf[1]);
        assert(has_prefix(buf, method_get()) ==> buf.subrange(0, 4)[1] == buf[1]);
        assert(has_prefix(buf, method_get()) ==> buf.subrange(0, 4)[0] == buf[0]);
        if buf.subrange(0, 4) == seq![0x50u8, 0x4f, 0x53, 0x54] {
            assert(buf.subrange(0, 4) =~= method_post());
            assert(buf[1] == buf.subrange(0, 4)[1]);
            assert(buf[0] == buf.subrange(0, 4)[0]);
        }
        if buf.subrange(0, 4) == seq![0x50u8, 0x55, 0x54, 0x20] {
            assert(buf.subrange(0, 4) =~= method_put());
            assert(buf[1] == buf.subrange(0, 4)[1]);
            assert(buf[0] == buf.subrange(0, 4)[0]);
        }
        if buf.subrange(0, 4) == seq![0x48u8, 0x45, 0x41, 0x44] {
            assert(buf.subrange(0, 4) =~= method_head());
            assert(buf[0] == buf.subrange(0, 4)[0]);
        }
    }
    if buf.len() >= 6 && buf.subrange(0, 6) == seq![0x44u8, 0x45, 0x4c, 0x45, 0x54, 0x45] {
        assert(buf.subrange(0, 6) =~= method_delete());
        assert(buf[0] == buf.subrange(0, 6)[0]);
        assert(has_prefix(buf, method_get()) ==> buf.subrange(0, 4)[0] == buf[0]);
        assert(has_prefix(buf, http2_preface()) ==> buf.subrange(0, 16)[0] == buf[0]);
    }
    if buf.len() >= 7 && buf.subrange(0, 7) == seq![0x4fu8, 0x50, 0x54, 0x49, 0x4f, 0x4e, 0x53] {
        assert(buf.subrange(0, 7) =~= method_options());
        assert(buf[0] == buf.subrange(0, 7)[0]);
        assert(has_prefix(buf, method_get()) ==> buf.subrange(0, 4)[0] == buf[0]);
        assert(has_prefix(buf, http2_preface()) ==> buf.subrange(0, 16)[0] == buf[0]);
    }
}

} // verus!
