use num256::Int256;
use rita_billing::client_watcher::{exit_route_price, owed_amount, watch, TrafficWatcher, WatchError};
use rita_billing::types::{EthAddress, Identity, Route, RoutePrefix, WgKey, WgUsage};

const EXIT_IP: u128 = 0xfd00_0000_0000_0000_0000_0000_0000_0001;

fn exit() -> Identity {
    Identity {
        mesh_ip: EXIT_IP,
        eth_address: EthAddress { high: 1, low: 2 },
        wg_public_key: WgKey { w0: 1, w1: 2, w2: 3, w3: 4 },
    }
}

fn host_route(addr: u128, price: u32) -> Route {
    Route {
        prefix: RoutePrefix::V6 { addr, len: 128 },
        installed: true,
        price,
    }
}

fn counters(download: u64, upload: u64) -> Vec<(WgKey, WgUsage)> {
    vec![(exit().wg_public_key, WgUsage { download, upload })]
}

#[test]
fn client_happy_path() {
    let mut h = TrafficWatcher { last_read_input: 0, last_read_output: 0 };
    let r = watch(&mut h, &vec![host_route(EXIT_IP, 2)], exit(), 3, &counters(1000, 500));
    let u = r.unwrap().unwrap();
    assert_eq!(u.from, exit());
    assert_eq!(u.amount, Int256::from(6500u64));
    assert_eq!(h, TrafficWatcher { last_read_input: 1000, last_read_output: 500 });
}

#[test]
fn client_counter_reset() {
    let mut h = TrafficWatcher { last_read_input: 2000, last_read_output: 1000 };
    let r = watch(&mut h, &vec![host_route(EXIT_IP, 2)], exit(), 3, &counters(100, 50));
    assert_eq!(r.unwrap().unwrap().amount, Int256::from(650u64));
    assert_eq!(h, TrafficWatcher { last_read_input: 100, last_read_output: 50 });
}

#[test]
fn client_reset_on_one_axis_resets_both() {
    let mut h = TrafficWatcher { last_read_input: 10, last_read_output: 1000 };
    let r = watch(&mut h, &vec![host_route(EXIT_IP, 2)], exit(), 3, &counters(100, 50));
    assert_eq!(r.unwrap().unwrap().amount, Int256::from(650u64));
    assert_eq!(h, TrafficWatcher { last_read_input: 100, last_read_output: 50 });
}

#[test]
fn client_missing_route() {
    let mut h = TrafficWatcher { last_read_input: 0, last_read_output: 0 };
    let r = watch(&mut h, &Vec::new(), exit(), 3, &counters(900, 100));
    assert!(matches!(r, Ok(None)));
    assert_eq!(h, TrafficWatcher { last_read_input: 900, last_read_output: 100 });
}

#[test]
fn client_no_peer_keeps_history() {
    let mut h = TrafficWatcher { last_read_input: 7, last_read_output: 8 };
    let r = watch(&mut h, &vec![host_route(EXIT_IP, 2)], exit(), 3, &Vec::new());
    assert!(matches!(r, Err(WatchError::NoPeer)));
    assert_eq!(h, TrafficWatcher { last_read_input: 7, last_read_output: 8 });
}

#[test]
fn client_second_round_bills_growth() {
    let mut h = TrafficWatcher::new();
    let routes = vec![host_route(EXIT_IP, 2)];
    watch(&mut h, &routes, exit(), 3, &counters(1000, 500)).unwrap();
    let u = watch(&mut h, &routes, exit(), 3, &counters(1100, 600)).unwrap().unwrap();
    assert_eq!(u.amount, Int256::from(3 * 100 + 5 * 100u64));
}

#[test]
fn client_uses_last_peer() {
    let mut h = TrafficWatcher::new();
    let mut c = counters(5, 5);
    c.push((WgKey { w0: 9, w1: 9, w2: 9, w3: 9 }, WgUsage { download: 10, upload: 20 }));
    let u = watch(&mut h, &vec![host_route(EXIT_IP, 0)], exit(), 1, &c).unwrap().unwrap();
    assert_eq!(u.amount, Int256::from(30u64));
    assert_eq!(h, TrafficWatcher { last_read_input: 10, last_read_output: 20 });
}

#[test]
fn route_selection_needs_installed_host_route() {
    let not_installed = Route { prefix: RoutePrefix::V6 { addr: EXIT_IP, len: 128 }, installed: false, price: 9 };
    let subnet = Route { prefix: RoutePrefix::V6 { addr: EXIT_IP, len: 64 }, installed: true, price: 9 };
    let v4 = Route { prefix: RoutePrefix::V4 { addr4: 1, len: 32 }, installed: true, price: 9 };
    assert_eq!(exit_route_price(&vec![not_installed, subnet, v4], EXIT_IP), None);
    assert_eq!(exit_route_price(&vec![host_route(EXIT_IP, 4), host_route(EXIT_IP, 6)], EXIT_IP), Some(6));
}

#[test]
fn owed_amount_at_largest_inputs() {
    let m = u64::MAX;
    let expected = Int256::from(m as u128 * m as u128)
        + Int256::from(u32::MAX as u128 + m as u128) * Int256::from(m);
    assert_eq!(owed_amount(u32::MAX, m, m, m), expected);
}

#[test]
fn service_started_forgets_history() {
    let mut h = TrafficWatcher { last_read_input: 3, last_read_output: 4 };
    h.service_started();
    assert_eq!(h, TrafficWatcher { last_read_input: 0, last_read_output: 0 });
}
