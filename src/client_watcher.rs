//! Billing of the single upstream exit, as seen from a client node.
//!
//! The client pays the exit's own price for what it uploads, and the exit's
//! price plus the route cost back to the client for what it downloads.
use vstd::prelude::*;

use crate::amount::{int256_add, int256_from_u64, int256_mul, int256_value};
use crate::types::{axis_delta, host_of, host_route_target, is_host_route, Identity, Route, TrafficUpdate, WgKey, WgUsage};

verus! {

/// What was last read from the exit tunnel's counters.
#[derive(Clone, Copy, Debug, PartialEq, Eq, Structural)]
pub struct TrafficWatcher {
    pub last_read_input: u64,
    pub last_read_output: u64,
}

impl TrafficWatcher {
    /// A watcher that has read nothing yet.
    pub fn new() -> (r: TrafficWatcher)
        ensures
            r.last_read_input == 0,
            r.last_read_output == 0,
    {
        TrafficWatcher { last_read_input: 0, last_read_output: 0 }
    }

    /// Forgets what was read, as on a restart of the watcher.
    pub fn service_started(&mut self)
        ensures
            final(self).last_read_input == 0,
            final(self).last_read_output == 0,
    {
        self.last_read_input = 0;
        self.last_read_output = 0;
    }
}

/// The message that starts a round: the exit, and the exit's own price.
pub struct Watch(pub Identity, pub u64);

/// Why a round failed.
#[derive(Clone, Copy, Debug, PartialEq, Eq, Structural)]
pub enum WatchError {
    /// The exit tunnel has no peer.
    NoPeer,
}

/// The price of the route to `ip`: the last installed /128 route to it wins,
/// as when routes are collected into a table by destination.
pub open spec fn route_price_to(routes: Seq<Route>, ip: u128) -> Option<u32>
    decreases routes.len(),
{
    if routes.len() == 0 {
        None
    } else {
        let r = routes.last();
        if is_host_route(r) && host_of(r) == ip {
            Some(r.price)
        } else {
            route_price_to(routes.drop_last(), ip)
        }
    }
}

/// The exit tunnel was recreated: a counter is below what was last read.
pub open spec fn counters_reset(history: TrafficWatcher, cur: WgUsage) -> bool {
    history.last_read_input > cur.download || history.last_read_output > cur.upload
}

/// Bytes downloaded this round; after a reset both axes count from zero.
pub open spec fn input_delta(history: TrafficWatcher, cur: WgUsage) -> u64 {
    if counters_reset(history, cur) {
        cur.download
    } else {
        (cur.download - history.last_read_input) as u64
    }
}

/// Bytes uploaded this round; after a reset both axes count from zero.
pub open spec fn output_delta(history: TrafficWatcher, cur: WgUsage) -> u64 {
    if counters_reset(history, cur) {
        cur.upload
    } else {
        (cur.upload - history.last_read_output) as u64
    }
}

/// What the client owes the exit for `input` bytes down and `output` bytes up.
pub open spec fn client_owes(route_price: u32, exit_price: u64, input: u64, output: u64) -> int {
    exit_price * output + (route_price + exit_price) * input
}

/// The price of the installed /128 route to `ip`, if there is one.
pub fn exit_route_price(routes: &Vec<Route>, ip: u128) -> (res: Option<u32>)
    ensures
        res == route_price_to(routes@, ip),
{
    let mut i: usize = routes.len();
    assert(routes@.subrange(0, i as int) == routes@);
    while i > 0
        invariant
            i <= routes.len(),
            route_price_to(routes@, ip) == route_price_to(routes@.subrange(0, i as int), ip),
        decreases i,
    {
        let r = &routes[i - 1];
        assert(routes@.subrange(0, i - 1) == routes@.subrange(0, i as int).drop_last());
        match host_route_target(r) {
            Some(addr) => {
                if addr == ip {
                    return Some(r.price);
                }
            },
            None => {},
        }
        i = i - 1;
    }
    None
}

/// Computes what the client owes the exit, as a 256-bit amount.
pub fn owed_amount(route_price: u32, exit_price: u64, input: u64, output: u64) -> (r: num256::Int256)
    ensures
        int256_value(r) == client_owes(route_price, exit_price, input, output),
{
    proof {
        let p = exit_price as int;
        let o = output as int;
        let d = route_price + exit_price;
        let n = input as int;
        assert(0 <= p * o <= 0x1_0000_0000_0000_0000 * 0x1_0000_0000_0000_0000) by (nonlinear_arith)
            requires 0 <= p < 0x1_0000_0000_0000_0000, 0 <= o < 0x1_0000_0000_0000_0000;
        assert(0 <= d * n <= 0x2_0000_0000_0000_0000 * 0x1_0000_0000_0000_0000) by (nonlinear_arith)
            requires 0 <= d < 0x2_0000_0000_0000_0000, 0 <= n < 0x1_0000_0000_0000_0000;
    }
    let up = int256_mul(int256_from_u64(exit_price), int256_from_u64(output));
    let dest = int256_add(int256_from_u64(route_price as u64), int256_from_u64(exit_price));
    let down = int256_mul(dest, int256_from_u64(input));
    int256_add(up, down)
}

/// One round of the client watcher, from the routes and the exit tunnel's
/// counters that were read for it.
///
/// With no peer on the tunnel the round fails and `history` is kept. Else the
/// last peer's counters are used: the byte deltas since `history` (taken from
/// zero on both axes if either counter went backwards) are billed when a route
/// to the exit is installed, and `history` becomes the counters.
pub fn watch(
    history: &mut TrafficWatcher,
    routes: &Vec<Route>,
    exit: Identity,
    exit_price: u64,
    counters: &Vec<(WgKey, WgUsage)>,
) -> (res: Result<Option<TrafficUpdate>, WatchError>)
    ensures
        counters@.len() == 0 <==> res == Err::<Option<TrafficUpdate>, WatchError>(WatchError::NoPeer),
        counters@.len() == 0 ==> *final(history) == *old(history),
        counters@.len() > 0 ==> {
            let cur = counters@.last().1;
            &&& final(history).last_read_input == cur.download
            &&& final(history).last_read_output == cur.upload
            &&& match route_price_to(routes@, exit.mesh_ip) {
                None => res == Ok::<Option<TrafficUpdate>, WatchError>(None),
                Some(price) => res matches Ok(Some(u)) && u.from == exit && int256_value(u.amount)
                    == client_owes(price, exit_price, input_delta(*old(history), cur), output_delta(*old(history), cur)),
            }
        },
{
    if counters.len() == 0 {
        return Err(WatchError::NoPeer);
    }
    let counter = counters[counters.len() - 1].1;
    if history.last_read_input > counter.download || history.last_read_output > counter.upload {
        history.last_read_input = 0;
        history.last_read_output = 0;
    }
    let input = counter.download - history.last_read_input;
    let output = counter.upload - history.last_read_output;
    history.last_read_input = counter.download;
    history.last_read_output = counter.upload;
    match exit_route_price(routes, exit.mesh_ip) {
        Some(price) => {
            let amount = owed_amount(price, exit_price, input, output);
            Ok(Some(TrafficUpdate { from: exit, amount }))
        },
        None => Ok(None),
    }
}

/// A counter that went backwards bills both axes from zero, and what the
/// client owes is never negative.
pub proof fn lemma_reset_non_punitive(history: TrafficWatcher, cur: WgUsage, route_price: u32, exit_price: u64)
    ensures
        counters_reset(history, cur) ==> input_delta(history, cur) == cur.download
            && output_delta(history, cur) == cur.upload,
        client_owes(route_price, exit_price, input_delta(history, cur), output_delta(history, cur)) >= 0,
{
    let i = input_delta(history, cur);
    let o = output_delta(history, cur);
    assert(exit_price * o >= 0) by (nonlinear_arith)
        requires exit_price >= 0, o >= 0;
    assert((route_price + exit_price) * i >= 0) by (nonlinear_arith)
        requires route_price + exit_price >= 0, i >= 0;
}

/// Without a reset the counters are at least what was last read, so the
/// history, which becomes the counters, never decreases.
pub proof fn lemma_history_monotone(history: TrafficWatcher, cur: WgUsage)
    requires
        !counters_reset(history, cur),
    ensures
        history.last_read_input <= cur.download,
        history.last_read_output <= cur.upload,
        input_delta(history, cur) + history.last_read_input == cur.download,
        output_delta(history, cur) + history.last_read_output == cur.upload,
{
}

} // verus!
