//! Billing of every client, as seen from an exit node.
//!
//! Bytes a client sends are billed at the exit's price; bytes sent back to it
//! at the exit's price plus the route price to that client. Debts are
//! negative: they are what the clients owe the exit.
use vstd::prelude::*;

use crate::amount::{int256_add, int256_from_u64, int256_mul, int256_sub, int256_value};
use crate::types::{axis_delta, host_of, host_route_target, is_host_route, Identity, Route, TrafficUpdate, WgKey, WgUsage};
use crate::usage_history::UsageHistory;

verus! {

/// The exit watcher's state: the counters last seen for each peer.
pub struct TrafficWatcher {
    pub last_seen_bytes: UsageHistory,
}

impl TrafficWatcher {
    /// A watcher that has seen no peer.
    pub fn new() -> (r: TrafficWatcher)
        ensures
            r.last_seen_bytes.wf(),
            r.last_seen_bytes@ == Map::<WgKey, WgUsage>::empty(),
    {
        TrafficWatcher { last_seen_bytes: UsageHistory::new() }
    }
}

/// The message that starts a round: the clients to bill.
pub struct Watch(pub Vec<Identity>);

/// The client that holds key `k`; a later client replaces an earlier one.
pub open spec fn client_with_key(clients: Seq<Identity>, k: WgKey) -> Option<Identity>
    decreases clients.len(),
{
    if clients.len() == 0 {
        None
    } else if clients.last().wg_public_key == k {
        Some(clients.last())
    } else {
        client_with_key(clients.drop_last(), k)
    }
}

/// The identity at mesh address `ip`: a client there, the later one first,
/// else the exit itself.
pub open spec fn identity_at_ip(own: Identity, clients: Seq<Identity>, ip: u128) -> Option<Identity>
    decreases clients.len(),
{
    if clients.len() == 0 {
        if own.mesh_ip == ip {
            Some(own)
        } else {
            None
        }
    } else if clients.last().mesh_ip == ip {
        Some(clients.last())
    } else {
        identity_at_ip(own, clients.drop_last(), ip)
    }
}

/// The destination price of key `k`: that of the last installed /128 route
/// whose address belongs to the identity holding `k`, else the exit's own fee
/// for its own key.
pub open spec fn dest_price(
    own: Identity,
    local_fee: u32,
    clients: Seq<Identity>,
    routes: Seq<Route>,
    k: WgKey,
) -> Option<u32>
    decreases routes.len(),
{
    if routes.len() == 0 {
        if own.wg_public_key == k {
            Some(local_fee)
        } else {
            None
        }
    } else {
        let r = routes.last();
        if is_host_route(r) && (identity_at_ip(own, clients, host_of(r)) matches Some(id)
            && id.wg_public_key == k) {
            Some(r.price)
        } else {
            dest_price(own, local_fee, clients, routes.drop_last(), k)
        }
    }
}

/// The counters read for key `k`.
pub open spec fn counter_of(counters: Seq<(WgKey, WgUsage)>, k: WgKey) -> Option<WgUsage>
    decreases counters.len(),
{
    if counters.len() == 0 {
        None
    } else if counters.last().0 == k {
        Some(counters.last().1)
    } else {
        counter_of(counters.drop_last(), k)
    }
}

/// `updates` holds an update from the holder of key `k`.
pub open spec fn has_update_for(updates: Seq<TrafficUpdate>, k: WgKey) -> bool {
    exists|j: int| 0 <= j < updates.len() && updates[j].from.wg_public_key == k
}

/// Each peer appears once among the counters.
pub open spec fn unique_keys(counters: Seq<(WgKey, WgUsage)>) -> bool {
    forall|i: int, j: int| 0 <= i < j < counters.len() ==> counters[i].0 != counters[j].0
}

/// The history of `k` once its first sighting is recorded.
pub open spec fn seeded(history: Map<WgKey, WgUsage>, k: WgKey, cur: WgUsage) -> WgUsage {
    if history.contains_key(k) {
        history[k]
    } else {
        cur
    }
}

/// The debt change for `history` to `cur`: download billed at `price`,
/// upload at `dest + price`, each axis taken from zero if it went backwards.
pub open spec fn exit_charge(price: u64, dest: u32, history: WgUsage, cur: WgUsage) -> int {
    -(price * axis_delta(history.download, cur.download) + (dest + price) * axis_delta(
        history.upload,
        cur.upload,
    ))
}

/// What one round of the exit watcher reads: the exit's own identity, fee
/// and price, the clients, the routing daemon's routes, and the tunnel's
/// counters by peer key.
pub struct Round {
    pub own: Identity,
    pub local_fee: u32,
    pub exit_price: u64,
    pub clients: Vec<Identity>,
    pub routes: Vec<Route>,
    pub counters: Vec<(WgKey, WgUsage)>,
}

impl Round {
    /// `k` belongs to a client and has a destination price: it is billed.
    pub open spec fn billed(&self, k: WgKey) -> bool {
        client_with_key(self.clients@, k) is Some && self.dest_of(k) is Some
    }

    /// The destination price of key `k` in this round.
    pub open spec fn dest_of(&self, k: WgKey) -> Option<u32> {
        dest_price(self.own, self.local_fee, self.clients@, self.routes@, k)
    }

    /// What the round adds to the debt of key `k`, from `history`.
    pub open spec fn debt_of(&self, history: Map<WgKey, WgUsage>, k: WgKey) -> int {
        match counter_of(self.counters@, k) {
            Some(cur) => match self.dest_of(k) {
                Some(d) => exit_charge(self.exit_price, d, seeded(history, k, cur), cur),
                None => 0,
            },
            None => 0,
        }
    }

    /// The history of `k` after the round: the counters if billed, else the
    /// first sighting only.
    pub open spec fn usage_after(&self, history: Map<WgKey, WgUsage>, k: WgKey, cur: WgUsage) -> WgUsage {
        if self.billed(k) {
            cur
        } else {
            seeded(history, k, cur)
        }
    }

    /// The whole history after the round.
    pub open spec fn history_after(&self, history: Map<WgKey, WgUsage>) -> Map<WgKey, WgUsage> {
        Map::new(
            |k: WgKey| history.contains_key(k) || counter_of(self.counters@, k) is Some,
            |k: WgKey|
                match counter_of(self.counters@, k) {
                    Some(cur) => self.usage_after(history, k, cur),
                    None => history[k],
                },
        )
    }
}

/// The client that holds key `k`.
pub fn find_client(clients: &Vec<Identity>, k: &WgKey) -> (r: Option<Identity>)
    ensures
        r == client_with_key(clients@, *k),
{
    let mut i: usize = clients.len();
    assert(clients@.subrange(0, i as int) == clients@);
    while i > 0
        invariant
            i <= clients.len(),
            client_with_key(clients@, *k) == client_with_key(clients@.subrange(0, i as int), *k),
        decreases i,
    {
        assert(clients@.subrange(0, i - 1) == clients@.subrange(0, i as int).drop_last());
        if clients[i - 1].wg_public_key == *k {
            return Some(clients[i - 1]);
        }
        i = i - 1;
    }
    None
}

/// The identity at mesh address `ip`.
pub fn find_identity_at_ip(own: &Identity, clients: &Vec<Identity>, ip: u128) -> (r: Option<Identity>)
    ensures
        r == identity_at_ip(*own, clients@, ip),
{
    let mut i: usize = clients.len();
    assert(clients@.subrange(0, i as int) == clients@);
    while i > 0
        invariant
            i <= clients.len(),
            identity_at_ip(*own, clients@, ip) == identity_at_ip(*own, clients@.subrange(0, i as int), ip),
        decreases i,
    {
        assert(clients@.subrange(0, i - 1) == clients@.subrange(0, i as int).drop_last());
        if clients[i - 1].mesh_ip == ip {
            return Some(clients[i - 1]);
        }
        i = i - 1;
    }
    if own.mesh_ip == ip {
        Some(*own)
    } else {
        None
    }
}

/// The destination price of key `k`.
pub fn destination_price(
    own: &Identity,
    local_fee: u32,
    clients: &Vec<Identity>,
    routes: &Vec<Route>,
    k: &WgKey,
) -> (r: Option<u32>)
    ensures
        r == dest_price(*own, local_fee, clients@, routes@, *k),
{
    let mut i: usize = routes.len();
    assert(routes@.subrange(0, i as int) == routes@);
    while i > 0
        invariant
            i <= routes.len(),
            dest_price(*own, local_fee, clients@, routes@, *k) == dest_price(
                *own,
                local_fee,
                clients@,
                routes@.subrange(0, i as int),
                *k,
            ),
        decreases i,
    {
        assert(routes@.subrange(0, i - 1) == routes@.subrange(0, i as int).drop_last());
        let r = &routes[i - 1];
        match host_route_target(r) {
            Some(addr) => {
                match find_identity_at_ip(own, clients, addr) {
                    Some(id) => {
                        if id.wg_public_key == *k {
                            return Some(r.price);
                        }
                    },
                    None => {},
                }
            },
            None => {},
        }
        i = i - 1;
    }
    if own.wg_public_key == *k {
        Some(local_fee)
    } else {
        None
    }
}

/// The counters read for key `k`.
pub fn find_counter(counters: &Vec<(WgKey, WgUsage)>, k: &WgKey) -> (r: Option<WgUsage>)
    ensures
        r == counter_of(counters@, *k),
{
    let mut i: usize = counters.len();
    assert(counters@.subrange(0, i as int) == counters@);
    while i > 0
        invariant
            i <= counters.len(),
            counter_of(counters@, *k) == counter_of(counters@.subrange(0, i as int), *k),
        decreases i,
    {
        assert(counters@.subrange(0, i - 1) == counters@.subrange(0, i as int).drop_last());
        if counters[i - 1].0 == *k {
            return Some(counters[i - 1].1);
        }
        i = i - 1;
    }
    None
}

/// Bytes of one axis to bill, from the last-seen `history` to `cur`.
pub fn usage_delta(history: u64, cur: u64) -> (r: u64)
    ensures
        r == axis_delta(history, cur),
{
    if history > cur {
        cur
    } else {
        cur - history
    }
}

/// The debt change for one peer, as a 256-bit amount.
pub fn charge(exit_price: u64, dest: u32, history: WgUsage, cur: WgUsage) -> (r: num256::Int256)
    ensures
        int256_value(r) == exit_charge(exit_price, dest, history, cur),
{
    let din = usage_delta(history.download, cur.download);
    let dup = usage_delta(history.upload, cur.upload);
    proof {
        let p = exit_price as int;
        let d = dest + exit_price;
        let a = din as int;
        let b = dup as int;
        assert(0 <= p * a <= 0x1_0000_0000_0000_0000 * 0x1_0000_0000_0000_0000) by (nonlinear_arith)
            requires 0 <= p < 0x1_0000_0000_0000_0000, 0 <= a < 0x1_0000_0000_0000_0000;
        assert(0 <= d * b <= 0x2_0000_0000_0000_0000 * 0x1_0000_0000_0000_0000) by (nonlinear_arith)
            requires 0 <= d < 0x2_0000_0000_0000_0000, 0 <= b < 0x1_0000_0000_0000_0000;
    }
    let down = int256_mul(int256_from_u64(exit_price), int256_from_u64(din));
    let up_price = int256_add(int256_from_u64(dest as u64), int256_from_u64(exit_price));
    let up = int256_mul(up_price, int256_from_u64(dup));
    let total = int256_add(down, up);
    int256_sub(int256_from_u64(0), total)
}

proof fn lemma_counter_step(s: Seq<(WgKey, WgUsage)>, i: int, k: WgKey)
    requires
        0 <= i < s.len(),
    ensures
        counter_of(s.subrange(0, i + 1), k) == (if s[i].0 == k {
            Some(s[i].1)
        } else {
            counter_of(s.subrange(0, i), k)
        }),
{
    assert(s.subrange(0, i + 1).drop_last() == s.subrange(0, i));
}

proof fn lemma_counter_absent(s: Seq<(WgKey, WgUsage)>, k: WgKey)
    requires
        forall|j: int| 0 <= j < s.len() ==> s[j].0 != k,
    ensures
        counter_of(s, k) is None,
    decreases s.len(),
{
    if s.len() > 0 {
        lemma_counter_absent(s.drop_last(), k);
    }
}

proof fn lemma_last_client(s: Seq<Identity>, i: int)
    requires
        0 <= i < s.len(),
        forall|l: int| i < l < s.len() ==> s[l].wg_public_key != s[i].wg_public_key,
    ensures
        client_with_key(s, s[i].wg_public_key) == Some(s[i]),
    decreases s.len(),
{
    if i < s.len() - 1 {
        lemma_last_client(s.drop_last(), i);
    }
}

/// No client after position `i` holds the key of client `i`.
fn is_last_with_key(clients: &Vec<Identity>, i: usize) -> (r: bool)
    requires
        i < clients.len(),
    ensures
        r == (forall|l: int| i < l < clients@.len() ==> clients@[l].wg_public_key != clients@[i as int].wg_public_key),
{
    let mut l: usize = i + 1;
    while l < clients.len()
        invariant
            i < l <= clients.len(),
            forall|m: int| i < m < l ==> clients@[m].wg_public_key != clients@[i as int].wg_public_key,
        decreases clients.len() - l,
    {
        if clients[l].wg_public_key == clients[i].wg_public_key {
            return false;
        }
        l = l + 1;
    }
    true
}

impl Round {
    /// Whether key `k` is billed this round.
    pub fn is_billed(&self, k: &WgKey) -> (r: bool)
        ensures
            r == self.billed(*k),
    {
        match find_client(&self.clients, k) {
            Some(_) => match destination_price(&self.own, self.local_fee, &self.clients, &self.routes, k) {
                Some(_) => true,
                None => false,
            },
            None => false,
        }
    }

    /// What the round adds to the debt of key `k`.
    pub fn debt_for(&self, history: &UsageHistory, k: &WgKey) -> (r: num256::Int256)
        requires
            history.wf(),
        ensures
            int256_value(r) == self.debt_of(history@, *k),
    {
        match find_counter(&self.counters, k) {
            Some(cur) => match destination_price(&self.own, self.local_fee, &self.clients, &self.routes, k) {
                Some(d) => {
                    let h = match history.get(k) {
                        Some(h) => h,
                        None => cur,
                    };
                    charge(self.exit_price, d, h, cur)
                },
                None => int256_from_u64(0),
            },
            None => int256_from_u64(0),
        }
    }

    /// Brings `history` forward over the round's counters: a peer seen for
    /// the first time is recorded as it is, a billed peer takes its counters.
    pub fn record_usage(&self, history: &mut UsageHistory)
        requires
            old(history).wf(),
            unique_keys(self.counters@),
        ensures
            final(history).wf(),
            final(history)@ == self.history_after(old(history)@),
    {
        let ghost h0 = history@;
        let ghost cs = self.counters@;
        let mut i: usize = 0;
        while i < self.counters.len()
            invariant
                history.wf(),
                i <= cs.len(),
                cs == self.counters@,
                unique_keys(cs),
                forall|k: WgKey| #[trigger] history@.contains_key(k) <==> (h0.contains_key(k)
                    || counter_of(cs.subrange(0, i as int), k) is Some),
                forall|k: WgKey| #[trigger] counter_of(cs.subrange(0, i as int), k) is Some
                    ==> history@[k] == self.usage_after(h0, k, counter_of(cs.subrange(0, i as int), k)->0),
                forall|k: WgKey| counter_of(cs.subrange(0, i as int), k) is None && h0.contains_key(k)
                    ==> #[trigger] history@[k] == h0[k],
            decreases cs.len() - i,
        {
            let k = self.counters[i].0;
            let cur = self.counters[i].1;
            proof {
                assert forall|j: int| 0 <= j < cs.subrange(0, i as int).len() implies cs.subrange(0, i as int)[j].0 != k by {
                    assert(cs[j].0 != cs[i as int].0);
                }
                lemma_counter_absent(cs.subrange(0, i as int), k);
            }
            let ghost before = history@;
            if self.is_billed(&k) {
                history.insert(k, cur);
            } else {
                match history.get(&k) {
                    Some(_) => {},
                    None => history.insert(k, cur),
                }
            }
            proof {
                assert(history@ == before.insert(k, self.usage_after(h0, k, cur)));
                assert forall|kk: WgKey| #[trigger] counter_of(cs.subrange(0, i + 1), kk) == (if cs[i as int].0 == kk {
                    Some(cs[i as int].1)
                } else {
                    counter_of(cs.subrange(0, i as int), kk)
                }) by {
                    lemma_counter_step(cs, i as int, kk);
                }
            }
            i = i + 1;
        }
        proof {
            assert(cs.subrange(0, cs.len() as int) == cs);
            assert(history@ =~= self.history_after(h0));
        }
    }

    /// One update for each client key: the last client that holds it, and
    /// what the round adds to its debt.
    pub fn exit_debts(&self, history: &UsageHistory) -> (r: Vec<TrafficUpdate>)
        requires
            history.wf(),
        ensures
            forall|j: int| 0 <= j < r@.len() ==> client_with_key(self.clients@, #[trigger] r@[j].from.wg_public_key)
                == Some(r@[j].from) && int256_value(r@[j].amount) == self.debt_of(history@, r@[j].from.wg_public_key),
            forall|m: int| 0 <= m < self.clients@.len() ==> has_update_for(r@, #[trigger] self.clients@[m].wg_public_key),
            forall|j1: int, j2: int| 0 <= j1 < j2 < r@.len() ==> r@[j1].from.wg_public_key != r@[j2].from.wg_public_key,
    {
        let ghost cl = self.clients@;
        let mut r: Vec<TrafficUpdate> = Vec::new();
        let mut i: usize = 0;
        while i < self.clients.len()
            invariant
                history.wf(),
                cl == self.clients@,
                i <= cl.len(),
                forall|j: int| 0 <= j < r@.len() ==> client_with_key(cl, #[trigger] r@[j].from.wg_public_key)
                    == Some(r@[j].from) && int256_value(r@[j].amount) == self.debt_of(history@, r@[j].from.wg_public_key),
                forall|j1: int, j2: int| 0 <= j1 < j2 < r@.len() ==> r@[j1].from.wg_public_key != r@[j2].from.wg_public_key,
                forall|j: int, l: int| 0 <= j < r@.len() && i <= l < cl.len() ==> #[trigger] r@[j].from.wg_public_key != #[trigger] cl[l].wg_public_key,
                forall|m: int| 0 <= m < i ==> has_update_for(r@, #[trigger] cl[m].wg_public_key)
                    || (exists|l: int| i <= l < cl.len() && cl[l].wg_public_key == cl[m].wg_public_key),
            decreases cl.len() - i,
        {
            let c = self.clients[i];
            let ghost r0 = r@;
            if is_last_with_key(&self.clients, i) {
                proof {
                    lemma_last_client(cl, i as int);
                }
                let amount = self.debt_for(history, &c.wg_public_key);
                r.push(TrafficUpdate { from: c, amount });
                proof {
                    assert(r@[r0.len() as int] == TrafficUpdate { from: c, amount });
                    assert forall|m: int| 0 <= m < i + 1 implies has_update_for(r@, #[trigger] cl[m].wg_public_key)
                        || (exists|l: int| i + 1 <= l < cl.len() && cl[l].wg_public_key == cl[m].wg_public_key) by {
                        if m == i {
                            assert(r@[r0.len() as int].from.wg_public_key == cl[m].wg_public_key);
                        } else if has_update_for(r0, cl[m].wg_public_key) {
                            let j = choose|j: int| 0 <= j < r0.len() && r0[j].from.wg_public_key == cl[m].wg_public_key;
                            assert(r@[j] == r0[j]);
                        } else {
                            let l = choose|l: int| i <= l < cl.len() && cl[l].wg_public_key == cl[m].wg_public_key;
                            if l == i {
                                assert(r@[r0.len() as int].from.wg_public_key == cl[m].wg_public_key);
                            }
                        }
                    }
                }
            } else {
                proof {
                    assert forall|m: int| 0 <= m < i + 1 implies has_update_for(r@, #[trigger] cl[m].wg_public_key)
                        || (exists|l: int| i + 1 <= l < cl.len() && cl[l].wg_public_key == cl[m].wg_public_key) by {
                        let l2 = choose|l: int| i < l < cl.len() && cl[l].wg_public_key == cl[i as int].wg_public_key;
                        if m == i {
                            assert(cl[l2].wg_public_key == cl[m].wg_public_key);
                        } else if has_update_for(r@, cl[m].wg_public_key) {
                        } else {
                            let l = choose|l: int| i <= l < cl.len() && cl[l].wg_public_key == cl[m].wg_public_key;
                            if l == i {
                                assert(cl[l2].wg_public_key == cl[m].wg_public_key);
                            }
                        }
                    }
                }
            }
            i = i + 1;
        }
        proof {
            assert forall|m: int| 0 <= m < self.clients@.len() implies has_update_for(r@, #[trigger] self.clients@[m].wg_public_key) by {
                assert(cl[m] == self.clients@[m]);
                if !has_update_for(r@, cl[m].wg_public_key) {
                    let l = choose|l: int| i <= l < cl.len() && cl[l].wg_public_key == cl[m].wg_public_key;
                }
            }
        }
        r
    }
}

/// One round of the exit watcher: the debt updates of every client key, from
/// the history as it was, and then the history brought forward.
pub fn watch(usage_history: &mut UsageHistory, round: &Round) -> (updates: Vec<TrafficUpdate>)
    requires
        old(usage_history).wf(),
        unique_keys(round.counters@),
    ensures
        final(usage_history).wf(),
        final(usage_history)@ == round.history_after(old(usage_history)@),
        forall|j: int| 0 <= j < updates@.len() ==> client_with_key(round.clients@, #[trigger] updates@[j].from.wg_public_key)
            == Some(updates@[j].from) && int256_value(updates@[j].amount) == round.debt_of(
            old(usage_history)@,
            updates@[j].from.wg_public_key,
        ),
        forall|m: int| 0 <= m < round.clients@.len() ==> has_update_for(updates@, #[trigger] round.clients@[m].wg_public_key),
        forall|j1: int, j2: int| 0 <= j1 < j2 < updates@.len() ==> updates@[j1].from.wg_public_key
            != updates@[j2].from.wg_public_key,
{
    let updates = round.exit_debts(usage_history);
    round.record_usage(usage_history);
    updates
}

/// Whether each peer appears once among `counters`, as `watch` requires.
pub fn has_unique_keys(counters: &Vec<(WgKey, WgUsage)>) -> (r: bool)
    ensures
        r == unique_keys(counters@),
{
    let mut j: usize = 1;
    while j < counters.len()
        invariant
            1 <= j,
            j <= counters@.len() || counters@.len() == 0,
            forall|a: int, b: int| 0 <= a < b < j && b < counters@.len() ==> counters@[a].0 != counters@[b].0,
        decreases counters.len() - j,
    {
        let mut i: usize = 0;
        while i < j
            invariant
                i <= j < counters@.len(),
                forall|a: int| 0 <= a < i ==> counters@[a].0 != counters@[j as int].0,
            decreases j - i,
        {
            if counters[i].0 == counters[j].0 {
                return false;
            }
            i = i + 1;
        }
        j = j + 1;
    }
    true
}

/// A counter that went backwards is billed from zero, and an exit never bills
/// a peer a positive amount: what a round adds to a debt is at most zero.
pub proof fn lemma_reset_non_punitive(exit_price: u64, dest: u32, history: WgUsage, cur: WgUsage)
    ensures
        exit_charge(exit_price, dest, history, cur) <= 0,
        history.download > cur.download ==> axis_delta(history.download, cur.download) == cur.download,
        history.upload > cur.upload ==> axis_delta(history.upload, cur.upload) == cur.upload,
{
    let a = exit_price * axis_delta(history.download, cur.download);
    let b = (dest + exit_price) * axis_delta(history.upload, cur.upload);
    assert(a >= 0) by (nonlinear_arith)
        requires a == exit_price * axis_delta(history.download, cur.download);
    assert(b >= 0) by (nonlinear_arith)
        requires b == (dest + exit_price) * axis_delta(history.upload, cur.upload);
}

/// After a round, a peer that was billed or seen for the first time has a
/// history equal to, hence no greater than, its counters.
pub proof fn lemma_history_follows_counters(round: Round, history: Map<WgKey, WgUsage>, k: WgKey)
    requires
        counter_of(round.counters@, k) is Some,
        round.billed(k) || !history.contains_key(k),
    ensures
        round.history_after(history).contains_key(k),
        round.history_after(history)[k] == counter_of(round.counters@, k)->0,
        round.history_after(history)[k].download <= counter_of(round.counters@, k)->0.download,
        round.history_after(history)[k].upload <= counter_of(round.counters@, k)->0.upload,
{
}

/// The first round in which a peer's key is counted adds nothing to its debt.
pub proof fn lemma_first_sighting_is_free(round: Round, history: Map<WgKey, WgUsage>, k: WgKey)
    requires
        !history.contains_key(k),
    ensures
        round.debt_of(history, k) == 0,
{
    if let Some(cur) = counter_of(round.counters@, k) {
        if let Some(d) = round.dest_of(k) {
            assert(axis_delta(cur.download, cur.download) == 0);
            assert(axis_delta(cur.upload, cur.upload) == 0);
            assert(round.exit_price * 0int == 0) by (nonlinear_arith);
            assert((d + round.exit_price) * 0int == 0) by (nonlinear_arith);
        }
    }
}

/// A peer with no installed /128 route adds nothing to its debt.
pub proof fn lemma_no_route_no_debt(round: Round, history: Map<WgKey, WgUsage>, k: WgKey)
    requires
        round.dest_of(k) is None,
    ensures
        round.debt_of(history, k) == 0,
{
}

/// A peer whose key is not counted this round keeps its history.
pub proof fn lemma_uncounted_peer_kept(round: Round, history: Map<WgKey, WgUsage>, k: WgKey)
    requires
        counter_of(round.counters@, k) is None,
        history.contains_key(k),
    ensures
        round.history_after(history).contains_key(k),
        round.history_after(history)[k] == history[k],
{
}

} // verus!
