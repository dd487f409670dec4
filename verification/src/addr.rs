use vstd::prelude::*;

verus! {

/// A socket address, by the values that tell two addresses apart: an IPv4
/// address and port, or an IPv6 address, port, flow label and scope.
#[derive(Debug, Clone, Copy, PartialEq, Eq, Structural)]
pub enum SocketAddress {
    V4 { ip: u32, port: u16 },
    V6 { ip: u128, port: u16, flowinfo: u32, scope_id: u32 },
}

} // verus!
