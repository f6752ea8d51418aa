//! Reading the routing daemon's route table from the text of its `dump`
//! reply. Each route is a line `add route <id> <key> <value> ...`; billing
//! reads its `prefix`, `installed` and `price`, and other keys are ignored.
//! A line that is not a well-formed route is skipped.
use vstd::prelude::*;

use crate::kernel_route::{split_words, tokens_of, words};
use crate::types::{Route, RoutePrefix};

verus! {

/// The network that `ipnetwork` reads from `text`, if it reads one.
pub uninterp spec fn network_of(text: Seq<char>) -> Option<RoutePrefix>;

/// Relies on `FromStr for ipnetwork::IpNetwork` (IPv4 tried first, then
/// IPv6): the network read from the text, which depends on the text alone.
#[verifier::external_body]
fn parse_network(text: &str) -> (r: Option<RoutePrefix>)
    ensures
        r == network_of(text@),
{
    match text.parse::<ipnetwork::IpNetwork>() {
        Ok(ipnetwork::IpNetwork::V4(n)) => Some(RoutePrefix::V4 { addr4: u32::from(n.ip()), len: n.prefix() }),
        Ok(ipnetwork::IpNetwork::V6(n)) => Some(RoutePrefix::V6 { addr: u128::from(n.ip()), len: n.prefix() }),
        Err(_) => None,
    }
}

pub open spec fn is_digit(c: char) -> bool {
    '0' <= c && c <= '9'
}

/// The number that the decimal digits `s` write.
pub open spec fn decimal_value(s: Seq<char>) -> int
    decreases s.len(),
{
    if s.len() == 0 {
        0
    } else {
        decimal_value(s.drop_last()) * 10 + (s.last() as int - '0' as int)
    }
}

/// `s` is a decimal number below `bound`.
pub open spec fn is_decimal_below(s: Seq<char>, bound: int) -> bool {
    s.len() > 0 && (forall|i: int| 0 <= i < s.len() ==> is_digit(#[trigger] s[i])) && decimal_value(s)
        < bound
}

/// `s` is a decimal number that fits in 32 bits.
pub open spec fn is_u32_decimal(s: Seq<char>) -> bool {
    is_decimal_below(s, 0x1_0000_0000)
}

/// The word after the first `key` at or after position `i`.
pub open spec fn value_after(w: Seq<Seq<char>>, key: Seq<char>, i: int) -> Option<Seq<char>>
    decreases w.len() - i,
{
    if i < 0 || i + 1 >= w.len() {
        None
    } else if w[i] == key {
        Some(w[i + 1])
    } else {
        value_after(w, key, i + 1)
    }
}

pub open spec fn key_prefix() -> Seq<char> {
    seq!['p', 'r', 'e', 'f', 'i', 'x']
}

pub open spec fn key_installed() -> Seq<char> {
    seq!['i', 'n', 's', 't', 'a', 'l', 'l', 'e', 'd']
}

pub open spec fn key_price() -> Seq<char> {
    seq!['p', 'r', 'i', 'c', 'e']
}

/// The route that the words of one line describe, if they describe one.
pub open spec fn route_of_words(w: Seq<Seq<char>>) -> Option<Route> {
    if w.len() >= 3 && w[0] == seq!['a', 'd', 'd'] && w[1] == seq!['r', 'o', 'u', 't', 'e'] {
        match (value_after(w, key_prefix(), 3), value_after(w, key_installed(), 3), value_after(w, key_price(), 3)) {
            (Some(p), Some(inst), Some(price)) => match network_of(p) {
                Some(net) => if is_u32_decimal(price) {
                    Some(
                        Route {
                            prefix: net,
                            installed: inst == seq!['y', 'e', 's'],
                            price: decimal_value(price) as u32,
                        },
                    )
                } else {
                    None
                },
                None => None,
            },
            _ => None,
        }
    } else {
        None
    }
}

/// The routes of one line: none or one.
pub open spec fn routes_of_line(line: Seq<char>) -> Seq<Route> {
    match route_of_words(words(line)) {
        Some(r) => seq![r],
        None => Seq::empty(),
    }
}

/// The routes of the lines of `text`, where the line in progress began at
/// `start` and `i` is the next character.
pub open spec fn routes_scan(text: Seq<char>, start: int, i: int) -> Seq<Route>
    decreases text.len() - i,
{
    if i >= text.len() {
        routes_of_line(text.subrange(start, text.len() as int))
    } else if text[i] == '\n' {
        routes_of_line(text.subrange(start, i)) + routes_scan(text, i + 1, i + 1)
    } else {
        routes_scan(text, start, i + 1)
    }
}

/// The routes in the text of a `dump` reply, in order.
pub open spec fn routes_in(text: Seq<char>) -> Seq<Route> {
    routes_scan(text, 0, 0)
}

/// `s` is the word `lit`.
fn word_is(s: &String, lit: &str) -> (r: bool)
    ensures
        r == (s@ == lit@),
{
    let a = s.as_str();
    let n = a.unicode_len();
    if n != lit.unicode_len() {
        return false;
    }
    let mut i: usize = 0;
    while i < n
        invariant
            n == a@.len(),
            n == lit@.len(),
            a@ == s@,
            i <= n,
            forall|j: int| 0 <= j < i ==> a@[j] == lit@[j],
        decreases n - i,
    {
        if a.get_char(i) != lit.get_char(i) {
            return false;
        }
        i = i + 1;
    }
    assert(s@ =~= lit@);
    true
}

fn find_value(w: &Vec<String>, key: &str) -> (r: Option<usize>)
    requires
        w@.len() >= 3,
    ensures
        match value_after(tokens_of(w@), key@, 3) {
            Some(v) => r matches Some(j) && j < w@.len() && w@[j as int]@ == v,
            None => r is None,
        },
{
    let ghost t = tokens_of(w@);
    let mut i: usize = 3;
    while i < w.len() - 1
        invariant
            3 <= i,
            w@.len() >= 3,
            t == tokens_of(w@),
            value_after(t, key@, 3) == value_after(t, key@, i as int),
        decreases w.len() - i,
    {
        assert(t[i as int] == w@[i as int]@);
        if word_is(&w[i], key) {
            assert(t[i + 1] == w@[i + 1]@);
            return Some(i + 1);
        }
        i = i + 1;
    }
    None
}

/// The value of the decimal digits `s`, if they write a number below `bound`.
pub fn parse_decimal(s: &str, bound: u128) -> (r: Option<u128>)
    requires
        0 < bound <= 0x1_0000_0000_0000_0000,
    ensures
        match r {
            Some(v) => is_decimal_below(s@, bound as int) && v as int == decimal_value(s@),
            None => !is_decimal_below(s@, bound as int),
        },
{
    let n = s.unicode_len();
    if n == 0 {
        return None;
    }
    let mut v: u128 = 0;
    let mut i: usize = 0;
    while i < n
        invariant
            n == s@.len(),
            i <= n,
            bound <= 0x1_0000_0000_0000_0000,
            v as int == decimal_value(s@.subrange(0, i as int)),
            v < bound,
            forall|j: int| 0 <= j < i ==> is_digit(#[trigger] s@[j]),
        decreases n - i,
    {
        let c = s.get_char(i);
        assert(s@.subrange(0, i + 1).drop_last() == s@.subrange(0, i as int));
        if !('0' <= c && c <= '9') {
            return None;
        }
        let next = v * 10 + (c as u128 - '0' as u128);
        assert(s@.subrange(0, i + 1).last() == c);
        if next >= bound {
            proof {
                if forall|j: int| 0 <= j < s@.len() ==> is_digit(#[trigger] s@[j]) {
                    lemma_decimal_grows(s@, i as int + 1);
                }
            }
            return None;
        }
        v = next;
        i = i + 1;
    }
    assert(s@.subrange(0, n as int) == s@);
    Some(v)
}

/// The value of the decimal digits `s`, if it is a 32-bit decimal number.
pub fn parse_u32(s: &str) -> (r: Option<u32>)
    ensures
        match r {
            Some(v) => is_u32_decimal(s@) && v as int == decimal_value(s@),
            None => !is_u32_decimal(s@),
        },
{
    match parse_decimal(s, 0x1_0000_0000) {
        Some(v) => Some(v as u32),
        None => None,
    }
}

/// A decimal number is at least the number its first digits write.
proof fn lemma_decimal_grows(s: Seq<char>, k: int)
    requires
        0 <= k <= s.len(),
        forall|i: int| 0 <= i < s.len() ==> is_digit(#[trigger] s[i]),
    ensures
        decimal_value(s) >= decimal_value(s.subrange(0, k)),
    decreases s.len(),
{
    if k < s.len() {
        assert(s.drop_last().subrange(0, k) == s.subrange(0, k));
        assert(forall|i: int| 0 <= i < s.drop_last().len() ==> is_digit(#[trigger] s.drop_last()[i]) ) by {
            assert forall|i: int| 0 <= i < s.drop_last().len() implies is_digit(#[trigger] s.drop_last()[i]) by {
                assert(s.drop_last()[i] == s[i]);
            }
        }
        lemma_decimal_grows(s.drop_last(), k);
        lemma_decimal_nonneg(s.drop_last());
    } else {
        assert(s.subrange(0, k) == s);
    }
}

proof fn lemma_decimal_nonneg(s: Seq<char>)
    requires
        forall|i: int| 0 <= i < s.len() ==> is_digit(#[trigger] s[i]),
    ensures
        decimal_value(s) >= 0,
    decreases s.len(),
{
    if s.len() > 0 {
        assert forall|i: int| 0 <= i < s.drop_last().len() implies is_digit(#[trigger] s.drop_last()[i]) by {
            assert(s.drop_last()[i] == s[i]);
        }
        lemma_decimal_nonneg(s.drop_last());
        assert(is_digit(s[s.len() - 1]));
    }
}

/// The route that `line` describes, if it is a well-formed route line.
pub fn parse_route_line(line: &str) -> (r: Option<Route>)
    ensures
        r == route_of_words(words(line@)),
{
    let w = split_words(line);
    let ghost t = tokens_of(w@);
    proof {
        reveal_strlit("add");
        reveal_strlit("route");
        reveal_strlit("prefix");
        reveal_strlit("installed");
        reveal_strlit("price");
        reveal_strlit("yes");
        assert("add"@ =~= seq!['a', 'd', 'd']);
        assert("route"@ =~= seq!['r', 'o', 'u', 't', 'e']);
        assert("prefix"@ =~= key_prefix());
        assert("installed"@ =~= key_installed());
        assert("price"@ =~= key_price());
        assert("yes"@ =~= seq!['y', 'e', 's']);
    }
    if w.len() < 3 {
        return None;
    }
    assert(t[0] == w@[0]@ && t[1] == w@[1]@);
    if !word_is(&w[0], "add") || !word_is(&w[1], "route") {
        return None;
    }
    let p = match find_value(&w, "prefix") {
        Some(p) => p,
        None => return None,
    };
    let inst = match find_value(&w, "installed") {
        Some(j) => j,
        None => return None,
    };
    let price = match find_value(&w, "price") {
        Some(j) => j,
        None => return None,
    };
    let net = match parse_network(w[p].as_str()) {
        Some(net) => net,
        None => return None,
    };
    let price = match parse_u32(w[price].as_str()) {
        Some(v) => v,
        None => return None,
    };
    let installed = word_is(&w[inst], "yes");
    Some(Route { prefix: net, installed, price })
}

/// The routes in the text of a `dump` reply, in the order of their lines.
pub fn parse_routes(dump: &str) -> (r: Vec<Route>)
    ensures
        r@ == routes_in(dump@),
{
    let ghost t = dump@;
    let n = dump.unicode_len();
    let mut r: Vec<Route> = Vec::new();
    let mut start: usize = 0;
    let mut i: usize = 0;
    while i < n
        invariant
            t == dump@,
            n == t.len(),
            start <= i <= n,
            routes_in(t) == r@ + routes_scan(t, start as int, i as int),
        decreases n - i,
    {
        if dump.get_char(i) == '\n' {
            let line = dump.substring_char(start, i);
            let ghost before = r@;
            match parse_route_line(line) {
                Some(route) => r.push(route),
                None => {},
            }
            assert(r@ == before + routes_of_line(t.subrange(start as int, i as int)));
            assert(routes_in(t) == r@ + routes_scan(t, i + 1, i + 1));
            start = i + 1;
        }
        i = i + 1;
    }
    let line = dump.substring_char(start, n);
    let ghost before = r@;
    match parse_route_line(line) {
        Some(route) => r.push(route),
        None => {},
    }
    assert(r@ =~= before + routes_of_line(t.subrange(start as int, n as int)));
    r
}

} // verus!
