use rita_billing::babel::{parse_route_line, parse_routes, parse_u32};
use rita_billing::types::{Route, RoutePrefix};

const LINE: &str = "add route 14f05f0 prefix fd00::1/128 from ::/0 installed yes id ba:27:eb:ff:fe:5b:fe:c7 metric 1596 price 3072 refmetric 638 full-path-rtt 22.805 via fe80::e9d0:498f:6c61:be29 if wlan0";

#[test]
fn route_line_is_read() {
    assert_eq!(
        parse_route_line(LINE),
        Some(Route {
            prefix: RoutePrefix::V6 { addr: 0xfd00_0000_0000_0000_0000_0000_0000_0001, len: 128 },
            installed: true,
            price: 3072,
        })
    );
}

#[test]
fn route_line_not_installed_and_v4() {
    let r = parse_route_line("add route 1 prefix 10.0.0.0/8 installed no price 7");
    assert_eq!(
        r,
        Some(Route { prefix: RoutePrefix::V4 { addr4: 0x0a00_0000, len: 8 }, installed: false, price: 7 })
    );
}

#[test]
fn malformed_route_lines_are_skipped() {
    assert_eq!(parse_route_line("add interface wlan0 up true"), None);
    assert_eq!(parse_route_line("add route 1 prefix nonsense installed yes price 7"), None);
    assert_eq!(parse_route_line("add route 1 prefix fd00::1/128 installed yes price 4294967296"), None);
    assert_eq!(parse_route_line("add route 1 prefix fd00::1/128 installed yes"), None);
    assert_eq!(parse_route_line("change route 1 prefix fd00::1/128 installed yes price 1"), None);
}

#[test]
fn dump_reply_routes_in_order() {
    let dump = format!(
        "BABEL 1.0\nversion babeld-1.8.0\nok\nadd interface wlan0 up true\n{}\nadd route 2 prefix fd00::2/128 installed no price 5\nok\n",
        LINE
    );
    let routes = parse_routes(&dump);
    assert_eq!(routes.len(), 2);
    assert_eq!(routes[0].price, 3072);
    assert_eq!(routes[1].price, 5);
    assert!(!routes[1].installed);
}

#[test]
fn decimal_numbers() {
    assert_eq!(parse_u32("0"), Some(0));
    assert_eq!(parse_u32("4294967295"), Some(u32::MAX));
    assert_eq!(parse_u32("4294967296"), None);
    assert_eq!(parse_u32(""), None);
    assert_eq!(parse_u32("12a"), None);
}
