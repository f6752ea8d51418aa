//! The values that the watchers read and produce.
use vstd::prelude::*;

use num256::Int256;

verus! {

/// A WireGuard public key: 32 bytes, held as four big-endian 64-bit words so
/// that keys compare by their raw bytes.
#[derive(Clone, Copy, Debug, PartialEq, Eq, Hash, Structural)]
pub struct WgKey {
    pub w0: u64,
    pub w1: u64,
    pub w2: u64,
    pub w3: u64,
}

/// A tunnel's key pair.
#[derive(Clone, Copy, Debug, PartialEq, Eq, Structural)]
pub struct WgKeypair {
    pub public: WgKey,
    pub private: WgKey,
}

/// A 20-byte Ethereum address: the first four bytes and the last sixteen.
#[derive(Clone, Copy, Debug, PartialEq, Eq, Hash, Structural)]
pub struct EthAddress {
    pub high: u32,
    pub low: u128,
}

/// A node of the mesh: its IPv6 mesh address, payment address and tunnel key.
/// Two identities are the same account only when all three agree.
#[derive(Clone, Copy, Debug, PartialEq, Eq, Hash, Structural)]
pub struct Identity {
    pub mesh_ip: u128,
    pub eth_address: EthAddress,
    pub wg_public_key: WgKey,
}

/// Cumulative bytes of one tunnel peer since the interface was created.
#[derive(Clone, Copy, Debug, PartialEq, Eq, Hash, Structural)]
pub struct WgUsage {
    pub download: u64,
    pub upload: u64,
}

/// The destination prefix of a route.
#[derive(Clone, Copy, Debug, PartialEq, Eq, Structural)]
pub enum RoutePrefix {
    V4 { addr4: u32, len: u8 },
    V6 { addr: u128, len: u8 },
}

/// A route as the routing daemon reports it, with the fields billing reads.
#[derive(Clone, Copy, Debug, PartialEq, Eq, Structural)]
pub struct Route {
    pub prefix: RoutePrefix,
    pub installed: bool,
    pub price: u32,
}

/// A signed change of the debt that `from` holds with us.
#[derive(Clone, Copy, Debug)]
pub struct TrafficUpdate {
    pub from: Identity,
    pub amount: Int256,
}

/// An installed IPv6 host route: the only kind that prices a destination.
pub open spec fn is_host_route(r: Route) -> bool {
    r.installed && (r.prefix matches RoutePrefix::V6 { len, .. } && len == 128)
}

/// The host a billing route leads to.
pub open spec fn host_of(r: Route) -> u128 {
    match r.prefix {
        RoutePrefix::V6 { addr, .. } => addr,
        RoutePrefix::V4 { addr4, .. } => addr4 as u128,
    }
}

/// The IPv6 host that `r` is an installed /128 route to, if it is one.
pub fn host_route_target(r: &Route) -> (res: Option<u128>)
    ensures
        res == (if is_host_route(*r) { Some(host_of(*r)) } else { None::<u128> }),
{
    match r.prefix {
        RoutePrefix::V6 { addr, len } => {
            if r.installed && len == 128 {
                Some(addr)
            } else {
                None
            }
        },
        RoutePrefix::V4 { .. } => None,
    }
}

/// Bytes of one axis to bill this round: the growth since `history`, or the
/// whole counter when it went backwards (the tunnel was recreated).
pub open spec fn axis_delta(history: u64, cur: u64) -> u64 {
    if history > cur {
        cur
    } else {
        (cur - history) as u64
    }
}

} // verus!
