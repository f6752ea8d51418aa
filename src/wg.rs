//! Tunnel keys in their base64 text form, and the per-peer byte counters of a
//! tunnel interface as `wg show <iface> transfer` prints them: one line per
//! peer, `<public key> <received bytes> <sent bytes>`.
use vstd::prelude::*;

use base64::Engine;

use crate::babel::{decimal_value, is_decimal_below, parse_decimal};
use crate::kernel_route::{split_words, tokens_of, words};
use crate::types::{WgKey, WgKeypair, WgUsage};

verus! {

/// The bytes that base64 text `text` encodes, if it is valid.
pub uninterp spec fn base64_decoded(text: Seq<char>) -> Option<Seq<u8>>;

/// Relies on `base64::engine::general_purpose::STANDARD.decode` (standard
/// alphabet, padding required): the decoded bytes, which depend on the text
/// alone, or `None` where the text is not valid base64.
#[verifier::external_body]
fn decode_base64(text: &str) -> (r: Option<Vec<u8>>)
    ensures
        match r {
            Some(v) => base64_decoded(text@) == Some(v@),
            None => base64_decoded(text@) is None,
        },
{
    base64::engine::general_purpose::STANDARD.decode(text).ok()
}

/// The big-endian 64-bit word of `b` at `at`.
pub open spec fn word_at(b: Seq<u8>, at: int) -> u64 {
    ((b[at] as u64) << 56u64) | ((b[at + 1] as u64) << 48u64) | ((b[at + 2] as u64) << 40u64) | ((b[at + 3] as u64)
        << 32u64) | ((b[at + 4] as u64) << 24u64) | ((b[at + 5] as u64) << 16u64) | ((b[at + 6] as u64) << 8u64)
        | (b[at + 7] as u64)
}

/// The key that 32 bytes hold.
pub open spec fn key_of_bytes(b: Seq<u8>) -> WgKey {
    WgKey { w0: word_at(b, 0), w1: word_at(b, 8), w2: word_at(b, 16), w3: word_at(b, 24) }
}

/// The key that base64 text `text` writes, if it decodes to 32 bytes.
pub open spec fn key_of_text(text: Seq<char>) -> Option<WgKey> {
    match base64_decoded(text) {
        Some(b) => if b.len() == 32 {
            Some(key_of_bytes(b))
        } else {
            None
        },
        None => None,
    }
}

fn word_of(b: &Vec<u8>, at: usize) -> (r: u64)
    requires
        b@.len() == 32,
        at <= 24,
    ensures
        r == word_at(b@, at as int),
{
    ((b[at] as u64) << 56u64) | ((b[at + 1] as u64) << 48u64) | ((b[at + 2] as u64) << 40u64) | ((b[at + 3] as u64)
        << 32u64) | ((b[at + 4] as u64) << 24u64) | ((b[at + 5] as u64) << 16u64) | ((b[at + 6] as u64) << 8u64)
        | (b[at + 7] as u64)
}

impl WgKey {
    /// The key written in base64, as `wg` prints keys (44 characters).
    pub fn from_base64(text: &str) -> (r: Option<WgKey>)
        ensures
            r == key_of_text(text@),
    {
        match decode_base64(text) {
            Some(b) => {
                if b.len() == 32 {
                    Some(WgKey { w0: word_of(&b, 0), w1: word_of(&b, 8), w2: word_of(&b, 16), w3: word_of(&b, 24) })
                } else {
                    None
                }
            },
            None => None,
        }
    }
}

/// The first 44 characters of a line of `wg genkey` or `wg pubkey` output.
pub open spec fn key_field(out: Seq<char>) -> Seq<char> {
    if out.len() > 44 {
        out.subrange(0, 44)
    } else {
        out
    }
}

impl WgKeypair {
    /// The pair that `wg genkey` and `wg pubkey` printed, each read from its
    /// first 44 characters.
    pub fn from_tool_output(private_out: &str, public_out: &str) -> (r: Option<WgKeypair>)
        ensures
            match (key_of_text(key_field(private_out@)), key_of_text(key_field(public_out@))) {
                (Some(private), Some(public)) => r == Some(WgKeypair { public, private }),
                _ => r is None,
            },
    {
        let private = match WgKey::from_base64(first_44(private_out)) {
            Some(k) => k,
            None => return None,
        };
        let public = match WgKey::from_base64(first_44(public_out)) {
            Some(k) => k,
            None => return None,
        };
        Some(WgKeypair { public, private })
    }
}

fn first_44(s: &str) -> (r: &str)
    ensures
        r@ == key_field(s@),
{
    let n = s.unicode_len();
    if n > 44 {
        s.substring_char(0, 44)
    } else {
        s
    }
}

/// The peer and counters that the words of one line give, if they are a
/// key and two 64-bit byte counts.
pub open spec fn counter_of_words(w: Seq<Seq<char>>) -> Option<(WgKey, WgUsage)> {
    if w.len() == 3 && is_decimal_below(w[1], 0x1_0000_0000_0000_0000) && is_decimal_below(
        w[2],
        0x1_0000_0000_0000_0000,
    ) {
        match key_of_text(w[0]) {
            Some(k) => Some(
                (k, WgUsage { download: decimal_value(w[1]) as u64, upload: decimal_value(w[2]) as u64 }),
            ),
            None => None,
        }
    } else {
        None
    }
}

pub open spec fn counters_of_line(line: Seq<char>) -> Seq<(WgKey, WgUsage)> {
    match counter_of_words(words(line)) {
        Some(c) => seq![c],
        None => Seq::empty(),
    }
}

/// The counters of the lines of `text`, where the line in progress began at
/// `start` and `i` is the next character.
pub open spec fn counters_scan(text: Seq<char>, start: int, i: int) -> Seq<(WgKey, WgUsage)>
    decreases text.len() - i,
{
    if i >= text.len() {
        counters_of_line(text.subrange(start, text.len() as int))
    } else if text[i] == '\n' {
        counters_of_line(text.subrange(start, i)) + counters_scan(text, i + 1, i + 1)
    } else {
        counters_scan(text, start, i + 1)
    }
}

/// The counters in the output of `wg show <iface> transfer`, in order;
/// received bytes are the download, sent bytes the upload.
pub open spec fn counters_in(text: Seq<char>) -> Seq<(WgKey, WgUsage)> {
    counters_scan(text, 0, 0)
}

/// The peer and counters on one line of `wg show <iface> transfer`.
pub fn parse_counter_line(line: &str) -> (r: Option<(WgKey, WgUsage)>)
    ensures
        r == counter_of_words(words(line@)),
{
    let w = split_words(line);
    let ghost t = tokens_of(w@);
    if w.len() != 3 {
        return None;
    }
    assert(t[0] == w@[0]@ && t[1] == w@[1]@ && t[2] == w@[2]@);
    let down = match parse_decimal(w[1].as_str(), 0x1_0000_0000_0000_0000) {
        Some(v) => v as u64,
        None => return None,
    };
    let up = match parse_decimal(w[2].as_str(), 0x1_0000_0000_0000_0000) {
        Some(v) => v as u64,
        None => return None,
    };
    match WgKey::from_base64(w[0].as_str()) {
        Some(k) => Some((k, WgUsage { download: down, upload: up })),
        None => None,
    }
}

/// The counters of every peer in the output of `wg show <iface> transfer`.
pub fn parse_counters(text: &str) -> (r: Vec<(WgKey, WgUsage)>)
    ensures
        r@ == counters_in(text@),
{
    let ghost t = text@;
    let n = text.unicode_len();
    let mut r: Vec<(WgKey, WgUsage)> = Vec::new();
    let mut start: usize = 0;
    let mut i: usize = 0;
    while i < n
        invariant
            t == text@,
            n == t.len(),
            start <= i <= n,
            counters_in(t) == r@ + counters_scan(t, start as int, i as int),
        decreases n - i,
    {
        if text.get_char(i) == '\n' {
            let line = text.substring_char(start, i);
            let ghost before = r@;
            match parse_counter_line(line) {
                Some(c) => r.push(c),
                None => {},
            }
            assert(r@ == before + counters_of_line(t.subrange(start as int, i as int)));
            start = i + 1;
        }
        i = i + 1;
    }
    let line = text.substring_char(start, n);
    let ghost before = r@;
    match parse_counter_line(line) {
        Some(c) => r.push(c),
        None => {},
    }
    assert(r@ =~= before + counters_of_line(t.subrange(start as int, n as int)));
    r
}

} // verus!
