//! Keeping the host's default route while the exit tunnel is up: the route
//! in force is saved unless it is one that we installed through the tunnel.
use vstd::prelude::*;

verus! {

/// The token by which a route through the exit tunnel is recognised.
pub open spec fn exit_marker() -> Seq<char> {
    seq!['w', 'g', '_', 'e', 'x', 'i', 't']
}

/// The text of each token of a route.
pub open spec fn tokens_of(route: Seq<String>) -> Seq<Seq<char>> {
    route.map_values(|t: String| t@)
}

/// The route runs through the exit tunnel.
pub open spec fn through_exit(route: Seq<Seq<char>>) -> bool {
    exists|i: int| 0 <= i < route.len() && route[i] == exit_marker()
}

/// The arguments of `ip` that install `route`, without its first token, as
/// a route to `to`.
pub open spec fn route_add_args(to: Seq<char>, route: Seq<Seq<char>>) -> Seq<Seq<char>> {
    seq![seq!['r', 'o', 'u', 't', 'e'], seq!['a', 'd', 'd'], to] + (if route.len() == 0 {
        route
    } else {
        route.drop_first()
    })
}

/// White space as `char::is_whitespace` has it (Unicode White_Space).
pub open spec fn is_space(c: char) -> bool {
    let u = c as u32;
    (0x9 <= u <= 0xD) || u == 0x20 || u == 0x85 || u == 0xA0 || u == 0x1680 || (0x2000 <= u
        <= 0x200A) || u == 0x2028 || u == 0x2029 || u == 0x202F || u == 0x205F || u == 0x3000
}

/// The words of `s`: its maximal runs of characters that are not white space.
pub open spec fn words(s: Seq<char>) -> Seq<Seq<char>>
    decreases s.len(),
{
    if s.len() == 0 {
        Seq::empty()
    } else {
        let w = words(s.drop_last());
        let c = s.last();
        if is_space(c) {
            w
        } else if s.len() >= 2 && !is_space(s[s.len() - 2]) {
            w.update(w.len() - 1, w.last().push(c))
        } else {
            w.push(seq![c])
        }
    }
}

/// The line begins with the word `default`.
pub open spec fn starts_default(line: Seq<char>) -> bool {
    line.len() >= 7 && line.subrange(0, 7) == seq!['d', 'e', 'f', 'a', 'u', 'l', 't']
}

/// The words of the first line of `text` that begins with `default`, where
/// the line in progress began at `start` and `i` is the next character.
pub open spec fn default_route_scan(text: Seq<char>, start: int, i: int) -> Option<Seq<Seq<char>>>
    decreases text.len() - i,
{
    if i >= text.len() {
        if starts_default(text.subrange(start, text.len() as int)) {
            Some(words(text.subrange(start, text.len() as int)))
        } else {
            None
        }
    } else if text[i] == '\n' {
        if starts_default(text.subrange(start, i)) {
            Some(words(text.subrange(start, i)))
        } else {
            default_route_scan(text, i + 1, i + 1)
        }
    } else {
        default_route_scan(text, start, i + 1)
    }
}

/// The default route in the output of `ip route list default`: the words of
/// its first line that begins with `default`.
pub open spec fn default_route_in(text: Seq<char>) -> Option<Seq<Seq<char>>> {
    default_route_scan(text, 0, 0)
}

/// The host's network tooling, as far as routes go.
#[derive(Clone, Copy, Debug, PartialEq, Eq, Structural)]
pub struct KernelInterface;

fn is_exit_marker(token: &String) -> (r: bool)
    ensures
        r == (token@ == exit_marker()),
{
    let s = token.as_str();
    let n = s.unicode_len();
    if n != 7 {
        return false;
    }
    let ok = s.get_char(0) == 'w' && s.get_char(1) == 'g' && s.get_char(2) == '_' && s.get_char(3) == 'e'
        && s.get_char(4) == 'x' && s.get_char(5) == 'i' && s.get_char(6) == 't';
    if ok {
        assert(token@ =~= exit_marker());
    }
    ok
}

/// Whether `route` runs through the exit tunnel.
pub fn is_exit_route(route: &Vec<String>) -> (r: bool)
    ensures
        r == through_exit(tokens_of(route@)),
{
    let mut i: usize = 0;
    while i < route.len()
        invariant
            i <= route.len(),
            forall|j: int| 0 <= j < i ==> route@[j]@ != exit_marker(),
        decreases route.len() - i,
    {
        if is_exit_marker(&route[i]) {
            assert(tokens_of(route@)[i as int] == exit_marker());
            return true;
        }
        i = i + 1;
    }
    assert(!through_exit(tokens_of(route@))) by {
        if through_exit(tokens_of(route@)) {
            let j = choose|j: int| 0 <= j < tokens_of(route@).len() && tokens_of(route@)[j] == exit_marker();
            assert(route@[j]@ == exit_marker());
        }
    }
    false
}

fn route_add(to: String, route: &Vec<String>) -> (args: Vec<String>)
    ensures
        tokens_of(args@) == route_add_args(to@, tokens_of(route@)),
{
    let r0 = String::from_str("route");
    let r1 = String::from_str("add");
    proof {
        reveal_strlit("route");
        reveal_strlit("add");
        assert(r0@ =~= seq!['r', 'o', 'u', 't', 'e']);
        assert(r1@ =~= seq!['a', 'd', 'd']);
    }
    let mut args: Vec<String> = Vec::new();
    args.push(r0);
    args.push(r1);
    args.push(to);
    let ghost head = tokens_of(args@);
    assert(head[0] == args@[0]@ && head[1] == args@[1]@ && head[2] == args@[2]@);
    assert(head =~= seq![seq!['r', 'o', 'u', 't', 'e'], seq!['a', 'd', 'd'], to@]);
    let mut i: usize = 1;
    while i < route.len()
        invariant
            1 <= i,
            i <= route.len() || i == 1,
            args@.len() == 3 + i - 1,
            tokens_of(args@).subrange(0, 3) == head,
            forall|j: int| 3 <= j < args@.len() ==> args@[j]@ == route@[j - 2]@,
        decreases route.len() - i,
    {
        args.push(route[i].clone());
        i = i + 1;
    }
    proof {
        let want = route_add_args(to@, tokens_of(route@));
        if route@.len() > 0 {
            assert(want.len() == route@.len() + 2);
        }
        assert(tokens_of(args@) =~= want) by {
            assert forall|j: int| 0 <= j < want.len() implies tokens_of(args@)[j] == want[j] by {
                if j < 3 {
                    assert(tokens_of(args@)[j] == tokens_of(args@).subrange(0, 3)[j]);
                } else {
                    assert(tokens_of(args@)[j] == args@[j]@);
                    assert(want[j] == tokens_of(route@)[j - 2]);
                }
            }
        }
    }
    args
}

fn char_is_space(c: char) -> (r: bool)
    ensures
        r == is_space(c),
{
    let u = c as u32;
    (0x9 <= u && u <= 0xD) || u == 0x20 || u == 0x85 || u == 0xA0 || u == 0x1680 || (0x2000 <= u && u
        <= 0x200A) || u == 0x2028 || u == 0x2029 || u == 0x202F || u == 0x205F || u == 0x3000
}

/// The words of `line`, each as a `String`.
pub fn split_words(line: &str) -> (r: Vec<String>)
    ensures
        tokens_of(r@) == words(line@),
{
    let ghost t = line@;
    let n = line.unicode_len();
    let mut r: Vec<String> = Vec::new();
    let mut in_word = false;
    let mut start: usize = 0;
    let mut i: usize = 0;
    while i < n
        invariant
            t == line@,
            n == t.len(),
            start <= i <= n,
            in_word ==> start < i && (start == 0 || is_space(t[start - 1])) && forall|j: int|
                start <= j < i ==> !is_space(#[trigger] t[j]),
            in_word ==> words(t.subrange(0, i as int)) == tokens_of(r@).push(t.subrange(start as int, i as int)),
            !in_word ==> words(t.subrange(0, i as int)) == tokens_of(r@) && (i == 0 || is_space(t[i - 1])),
        decreases n - i,
    {
        let c = line.get_char(i);
        let ghost pre = t.subrange(0, i as int);
        assert(t.subrange(0, i + 1).drop_last() == pre);
        assert(t.subrange(0, i + 1).last() == c);
        if char_is_space(c) {
            if in_word {
                let w = line.substring_char(start, i);
                r.push(String::from_str(w));
                assert(tokens_of(r@) =~= tokens_of(r@).drop_last().push(w@));
                assert(tokens_of(r@).drop_last() =~= tokens_of(r@.drop_last()));
                in_word = false;
            }
        } else {
            if in_word {
                assert(t.subrange(0, i + 1)[i - 1] == t[i - 1]);
                assert(t.subrange(start as int, i + 1) =~= t.subrange(start as int, i as int).push(c));
            } else {
                if i > 0 {
                    assert(t.subrange(0, i + 1)[i - 1] == t[i - 1]);
                }
                start = i;
                in_word = true;
                assert(t.subrange(start as int, i + 1) =~= seq![c]);
            }
        }
        i = i + 1;
    }
    assert(t.subrange(0, n as int) == t);
    if in_word {
        let w = line.substring_char(start, n);
        r.push(String::from_str(w));
        assert(tokens_of(r@) =~= tokens_of(r@).drop_last().push(w@));
        assert(tokens_of(r@).drop_last() =~= tokens_of(r@.drop_last()));
    }
    r
}

fn begins_with_default(line: &str) -> (r: bool)
    ensures
        r == starts_default(line@),
{
    let n = line.unicode_len();
    if n < 7 {
        return false;
    }
    let ok = line.get_char(0) == 'd' && line.get_char(1) == 'e' && line.get_char(2) == 'f' && line.get_char(3)
        == 'a' && line.get_char(4) == 'u' && line.get_char(5) == 'l' && line.get_char(6) == 't';
    assert(ok ==> line@.subrange(0, 7) =~= seq!['d', 'e', 'f', 'a', 'u', 'l', 't']);
    assert(!ok ==> line@.subrange(0, 7) != seq!['d', 'e', 'f', 'a', 'u', 'l', 't']) by {
        if !ok && line@.subrange(0, 7) == seq!['d', 'e', 'f', 'a', 'u', 'l', 't'] {
            assert(line@.subrange(0, 7)[0] == line@[0]);
            assert(line@.subrange(0, 7)[1] == line@[1]);
            assert(line@.subrange(0, 7)[2] == line@[2]);
            assert(line@.subrange(0, 7)[3] == line@[3]);
            assert(line@.subrange(0, 7)[4] == line@[4]);
            assert(line@.subrange(0, 7)[5] == line@[5]);
            assert(line@.subrange(0, 7)[6] == line@[6]);
        }
    }
    ok
}

impl KernelInterface {
    /// The default route in `route_list`, the output of `ip route list
    /// default`: the words of its first line that begins with `default`.
    pub fn get_default_route(&self, route_list: &str) -> (r: Option<Vec<String>>)
        ensures
            match default_route_in(route_list@) {
                Some(ws) => r matches Some(v) && tokens_of(v@) == ws,
                None => r is None,
            },
    {
        let ghost t = route_list@;
        let n = route_list.unicode_len();
        let mut start: usize = 0;
        let mut i: usize = 0;
        while i < n
            invariant
                t == route_list@,
                n == t.len(),
                start <= i <= n,
                default_route_in(t) == default_route_scan(t, start as int, i as int),
            decreases n - i,
        {
            if route_list.get_char(i) == '\n' {
                let line = route_list.substring_char(start, i);
                if begins_with_default(line) {
                    return Some(split_words(line));
                }
                start = i + 1;
            }
            i = i + 1;
        }
        let line = route_list.substring_char(start, n);
        if begins_with_default(line) {
            Some(split_words(line))
        } else {
            None
        }
    }

    /// The arguments of `ip` that install `route` as the default route: its
    /// tokens after the first, behind `route add default`.
    pub fn set_default_route(&self, route: &Vec<String>) -> (args: Vec<String>)
        ensures
            tokens_of(args@) == route_add_args(seq!['d', 'e', 'f', 'a', 'u', 'l', 't'], tokens_of(route@)),
    {
        let to = String::from_str("default");
        proof {
            reveal_strlit("default");
        }
        assert(to@ =~= seq!['d', 'e', 'f', 'a', 'u', 'l', 't']);
        route_add(to, route)
    }

    /// The arguments of `ip` that install `route`, less its first token, as
    /// the route to the host written `to`.
    pub fn set_route(&self, to: String, route: &Vec<String>) -> (args: Vec<String>)
        ensures
            tokens_of(args@) == route_add_args(to@, tokens_of(route@)),
    {
        route_add(to, route)
    }

    /// Saves the default route in force, `current`, unless there is none or
    /// it runs through the exit tunnel.
    pub fn update_settings_route(&self, current: Option<Vec<String>>, settings_default_route: &mut Vec<String>)
        ensures
            match current {
                Some(route) => if through_exit(tokens_of(route@)) {
                    *final(settings_default_route) == *old(settings_default_route)
                } else {
                    *final(settings_default_route) == route
                },
                None => *final(settings_default_route) == *old(settings_default_route),
            },
    {
        match current {
            Some(route) => {
                if !is_exit_route(&route) {
                    *settings_default_route = route;
                }
            },
            None => {},
        }
    }

    /// Puts the saved default route back when the route in force, `current`,
    /// is missing or runs through the exit tunnel: the result is then the
    /// arguments of `ip` that install it. Otherwise the route in force is
    /// saved and nothing is to be run.
    pub fn restore_default_route(&self, current: Option<Vec<String>>, settings_default_route: &mut Vec<String>)
        -> (args: Option<Vec<String>>)
        ensures
            match current {
                Some(route) => if through_exit(tokens_of(route@)) {
                    &&& *final(settings_default_route) == *old(settings_default_route)
                    &&& args matches Some(a) && tokens_of(a@) == route_add_args(
                        seq!['d', 'e', 'f', 'a', 'u', 'l', 't'],
                        tokens_of(old(settings_default_route)@),
                    )
                } else {
                    *final(settings_default_route) == route && args is None
                },
                None => {
                    &&& *final(settings_default_route) == *old(settings_default_route)
                    &&& args matches Some(a) && tokens_of(a@) == route_add_args(
                        seq!['d', 'e', 'f', 'a', 'u', 'l', 't'],
                        tokens_of(old(settings_default_route)@),
                    )
                },
            },
    {
        match current {
            Some(route) => {
                if is_exit_route(&route) {
                    Some(self.set_default_route(settings_default_route))
                } else {
                    *settings_default_route = route;
                    None
                }
            },
            None => Some(self.set_default_route(settings_default_route)),
        }
    }
}

} // verus!
