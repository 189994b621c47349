//! The plain values that the bookkeeping works on.
use vstd::prelude::*;

verus! {

/// A 160-bit account address: its first sixteen and its last four bytes, each
/// read as a big-endian number. Addresses compare as their bytes do.
pub type Address = (u128, u32);

/// A network-layer session.
pub type SessionId = usize;

/// An IP address: whether it is an IPv6 address, and its bits as a number.
pub type IpAddr = (bool, u128);

/// A socket address: whether it is an IPv6 address, the bits of the IP
/// address, the port, and the flow information and scope of an IPv6 address.
pub type SocketAddr = (bool, u128, u16, u32, u32);

/// The most sessions that are kept open when the configuration does not say.
pub const DEFAULT_MAX_CONNECTS: usize = 666;

/// No address is learned once more than this many are known.
pub const DEFAULT_MAX_KNOWN_ADDRS: usize = 1000;

pub const DEFAULT_PORT: usize = 4000;

/// Seconds between two dialing rounds.
pub const CHECK_CONNECTED_NODES: u64 = 3;

/// Seconds between two checks of the certificates of the connected nodes.
pub const CHECK_CERT_PERIOD: u64 = 43200;

/// The certificate revocation list is asked for again after more than this
/// many blocks.
pub const UPDATE_CRL_PERIOD: u64 = 100;

/// The score of a node that has just become known.
pub const FULL_SCORE: i32 = 100;

/// A node with a lower score is not dialed.
pub const MIN_DIALING_SCORE: i32 = 60;

/// What a node pays for every dial.
pub const DIALING_SCORE: i32 = 10;

/// What a node gets for a dial that led to a connection.
pub const SUCCESS_DIALING_SCORE: i32 = 10;

/// What a node pays for a session that was closed.
pub const REFUSED_SCORE: i32 = 20;

/// What a node pays for a dial that failed.
pub const DIALED_ERROR_SCORE: i32 = 25;

/// What a node gets in every dialing round in which it is connected.
pub const KEEP_ON_LINE_SCORE: i32 = 5;

/// How an address became known.
#[derive(Clone, Copy, Debug, PartialEq, Eq, Structural)]
pub enum NodeSource {
    FromConfig,
    FromDiscovery,
}

/// Which side opened a session.
#[derive(Clone, Copy, Debug, PartialEq, Eq, Structural)]
pub enum SessionType {
    /// The peer dialed this node.
    Inbound,
    /// This node dialed the peer.
    Outbound,
}

/// What is remembered of a known address.
#[derive(Clone, Copy, Debug, PartialEq, Eq, Structural)]
pub struct NodeStatus {
    /// Decides whether the address is dialed.
    pub score: i32,
    /// The session that connects to this address, if there is one.
    pub session_id: Option<SessionId>,
    pub node_src: NodeSource,
}

impl NodeStatus {
    pub fn new(score: i32, session_id: Option<SessionId>, node_src: NodeSource) -> (r: Self)
        ensures
            r == (NodeStatus { score, session_id, node_src }),
    {
        NodeStatus { score, session_id, node_src }
    }
}

/// The status of an address that has just become known.
pub open spec fn fresh_status(source: NodeSource) -> NodeStatus {
    NodeStatus { score: FULL_SCORE, session_id: None, node_src: source }
}

/// A session that is open but has not yet introduced itself.
#[derive(Clone, Copy, Debug)]
pub struct SessionInfo {
    pub ty: SessionType,
    pub addr: SocketAddr,
}

impl SessionInfo {
    pub fn new(ty: SessionType, addr: SocketAddr) -> (r: Self)
        ensures
            r == (SessionInfo { ty, addr }),
    {
        SessionInfo { ty, addr }
    }
}

/// The socket address `ip:port` of IPv4.
pub fn socket_v4(ip: u32, port: u16) -> (r: SocketAddr)
    ensures
        r == (false, ip as u128, port, 0u32, 0u32),
{
    (false, ip as u128, port, 0, 0)
}

/// The IP address of a socket address.
pub open spec fn ip_of(addr: SocketAddr) -> IpAddr {
    (addr.0, addr.1)
}

/// The socket address `0.0.0.0:0`.
pub open spec fn unspecified() -> SocketAddr {
    (false, 0u128, 0u16, 0u32, 0u32)
}

/// Whether two account addresses are equal.
pub fn same_address(a: Address, b: Address) -> (r: bool)
    ensures
        r == (a == b),
{
    a.0 == b.0 && a.1 == b.1
}

/// Whether two socket addresses are equal.
pub fn same_socket(a: SocketAddr, b: SocketAddr) -> (r: bool)
    ensures
        r == (a == b),
{
    a.0 == b.0 && a.1 == b.1 && a.2 == b.2 && a.3 == b.3 && a.4 == b.4
}

} // verus!
