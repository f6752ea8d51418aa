use num256::Int256;
use rita_billing::exit_watcher::{charge, watch, Round, TrafficWatcher};
use rita_billing::types::{EthAddress, Identity, Route, RoutePrefix, TrafficUpdate, WgKey, WgUsage};
use rita_billing::usage_history::UsageHistory;

fn key(n: u64) -> WgKey {
    WgKey { w0: n, w1: 0, w2: 0, w3: n }
}

fn ident(n: u64) -> Identity {
    Identity {
        mesh_ip: 0xfd00_0000_0000_0000_0000_0000_0000_0000 + n as u128,
        eth_address: EthAddress { high: 0, low: n as u128 },
        wg_public_key: key(n),
    }
}

fn host_route(addr: u128, price: u32) -> Route {
    Route { prefix: RoutePrefix::V6 { addr, len: 128 }, installed: true, price }
}

fn round(clients: Vec<Identity>, routes: Vec<Route>, counters: Vec<(WgKey, WgUsage)>) -> Round {
    Round {
        own: ident(100),
        local_fee: 5,
        exit_price: 1,
        clients,
        routes,
        counters,
    }
}

fn amount_for(updates: &[TrafficUpdate], k: WgKey) -> Option<Int256> {
    updates.iter().find(|u| u.from.wg_public_key == k).map(|u| u.amount)
}

#[test]
fn exit_first_sighting() {
    let mut w = TrafficWatcher::new();
    let r = round(vec![ident(1)], vec![host_route(ident(1).mesh_ip, 7)], vec![(key(1), WgUsage { download: 200, upload: 100 })]);
    let updates = watch(&mut w.last_seen_bytes, &r);
    assert_eq!(updates.len(), 1);
    assert_eq!(updates[0].from, ident(1));
    assert_eq!(updates[0].amount, Int256::from(0u64));
    assert_eq!(w.last_seen_bytes.get(&key(1)), Some(WgUsage { download: 200, upload: 100 }));
}

#[test]
fn exit_second_round() {
    let mut w = TrafficWatcher::new();
    let routes = vec![host_route(ident(1).mesh_ip, 7)];
    watch(&mut w.last_seen_bytes, &round(vec![ident(1)], routes.clone(), vec![(key(1), WgUsage { download: 200, upload: 100 })]));
    let updates = watch(
        &mut w.last_seen_bytes,
        &round(vec![ident(1)], routes, vec![(key(1), WgUsage { download: 500, upload: 300 })]),
    );
    assert_eq!(updates.len(), 1);
    assert_eq!(updates[0].from, ident(1));
    assert_eq!(updates[0].amount, Int256::from(-1900i64));
    assert_eq!(w.last_seen_bytes.get(&key(1)), Some(WgUsage { download: 500, upload: 300 }));
}

#[test]
fn exit_orphan_counter() {
    let mut h = UsageHistory::new();
    h.insert(key(1), WgUsage { download: 0, upload: 0 });
    let r = round(
        vec![ident(1)],
        vec![host_route(ident(1).mesh_ip, 7)],
        vec![(key(1), WgUsage { download: 10, upload: 10 }), (key(9), WgUsage { download: 50, upload: 50 })],
    );
    let updates = watch(&mut h, &r);
    assert_eq!(updates.len(), 1);
    assert_eq!(amount_for(&updates, key(1)), Some(Int256::from(-(10 + 8 * 10i64))));
    assert_eq!(amount_for(&updates, key(9)), None);
    assert_eq!(h.get(&key(9)), Some(WgUsage { download: 50, upload: 50 }));
}

#[test]
fn exit_no_route_is_silent() {
    let mut h = UsageHistory::new();
    h.insert(key(2), WgUsage { download: 10, upload: 10 });
    let r = round(vec![ident(2)], Vec::new(), vec![(key(2), WgUsage { download: 90, upload: 90 })]);
    let updates = watch(&mut h, &r);
    assert_eq!(amount_for(&updates, key(2)), Some(Int256::from(0u64)));
    assert_eq!(h.get(&key(2)), Some(WgUsage { download: 10, upload: 10 }));
}

#[test]
fn exit_counter_reset_bills_from_zero() {
    let mut h = UsageHistory::new();
    h.insert(key(1), WgUsage { download: 1000, upload: 50 });
    let r = round(vec![ident(1)], vec![host_route(ident(1).mesh_ip, 2)], vec![(key(1), WgUsage { download: 30, upload: 60 })]);
    let updates = watch(&mut h, &r);
    assert_eq!(amount_for(&updates, key(1)), Some(Int256::from(-(30 + 3 * 10i64))));
    assert_eq!(h.get(&key(1)), Some(WgUsage { download: 30, upload: 60 }));
}

#[test]
fn exit_client_without_counter_owes_nothing() {
    let mut h = UsageHistory::new();
    h.insert(key(3), WgUsage { download: 4, upload: 4 });
    let r = round(vec![ident(3)], vec![host_route(ident(3).mesh_ip, 2)], Vec::new());
    let updates = watch(&mut h, &r);
    assert_eq!(amount_for(&updates, key(3)), Some(Int256::from(0u64)));
    assert_eq!(h.get(&key(3)), Some(WgUsage { download: 4, upload: 4 }));
    assert_eq!(h.len(), 1);
}

#[test]
fn exit_one_update_per_key() {
    let mut h = UsageHistory::new();
    let mut later = ident(1);
    later.mesh_ip = 77;
    let r = round(vec![ident(1), ident(2), later], Vec::new(), Vec::new());
    let updates = watch(&mut h, &r);
    assert_eq!(updates.len(), 2);
    assert!(updates.iter().any(|u| u.from == later));
    assert!(updates.iter().any(|u| u.from == ident(2)));
}

#[test]
fn exit_route_to_own_address_is_not_billed() {
    let mut h = UsageHistory::new();
    let r = round(vec![ident(1)], vec![host_route(ident(100).mesh_ip, 3)], vec![(key(100), WgUsage { download: 5, upload: 5 })]);
    let updates = watch(&mut h, &r);
    assert_eq!(amount_for(&updates, key(1)), Some(Int256::from(0u64)));
    assert_eq!(h.get(&key(100)), Some(WgUsage { download: 5, upload: 5 }));
}

#[test]
fn exit_charge_formula() {
    let h = WgUsage { download: 100, upload: 100 };
    let cur = WgUsage { download: 150, upload: 120 };
    assert_eq!(charge(2, 3, h, cur), Int256::from(-(2 * 50 + 5 * 20i64)));
}

#[test]
fn usage_history_insert_replaces() {
    let mut h = UsageHistory::new();
    assert_eq!(h.len(), 0);
    h.insert(key(1), WgUsage { download: 1, upload: 1 });
    h.insert(key(1), WgUsage { download: 2, upload: 3 });
    assert_eq!(h.len(), 1);
    assert_eq!(h.get(&key(1)), Some(WgUsage { download: 2, upload: 3 }));
    assert_eq!(h.get(&key(2)), None);
}
