use rita_billing::exit_watcher::has_unique_keys;
use rita_billing::types::{WgKey, WgKeypair, WgUsage};
use rita_billing::wg::{parse_counter_line, parse_counters};

const SEQ_KEY: &str = "AAECAwQFBgcICQoLDA0ODxAREhMUFRYXGBkaGxwdHh8=";
const ZERO_KEY: &str = "AAAAAAAAAAAAAAAAAAAAAAAAAAAAAAAAAAAAAAAAAAA=";

fn seq_key() -> WgKey {
    WgKey {
        w0: 0x0001_0203_0405_0607,
        w1: 0x0809_0a0b_0c0d_0e0f,
        w2: 0x1011_1213_1415_1617,
        w3: 0x1819_1a1b_1c1d_1e1f,
    }
}

fn zero_key() -> WgKey {
    WgKey { w0: 0, w1: 0, w2: 0, w3: 0 }
}

#[test]
fn key_from_base64() {
    assert_eq!(WgKey::from_base64(SEQ_KEY), Some(seq_key()));
    assert_eq!(WgKey::from_base64(ZERO_KEY), Some(zero_key()));
}

#[test]
fn key_from_bad_base64() {
    assert_eq!(WgKey::from_base64("not base64!"), None);
    assert_eq!(WgKey::from_base64("AAAA"), None);
    assert_eq!(WgKey::from_base64(""), None);
}

#[test]
fn keypair_from_tool_output() {
    let private_out = format!("{}\n", SEQ_KEY);
    let public_out = format!("{}\n", ZERO_KEY);
    assert_eq!(
        WgKeypair::from_tool_output(&private_out, &public_out),
        Some(WgKeypair { public: zero_key(), private: seq_key() })
    );
    assert_eq!(WgKeypair::from_tool_output("garbage", &public_out), None);
}

#[test]
fn counter_line() {
    assert_eq!(
        parse_counter_line(&format!("{}\t1000\t500", SEQ_KEY)),
        Some((seq_key(), WgUsage { download: 1000, upload: 500 }))
    );
    assert_eq!(
        parse_counter_line(&format!("{} 18446744073709551615 0", ZERO_KEY)),
        Some((zero_key(), WgUsage { download: u64::MAX, upload: 0 }))
    );
    assert_eq!(parse_counter_line(&format!("{} 18446744073709551616 0", ZERO_KEY)), None);
    assert_eq!(parse_counter_line(&format!("{} 1", ZERO_KEY)), None);
}

#[test]
fn counters_of_interface() {
    let text = format!("{}\t1000\t500\n{}\t7\t9\n", SEQ_KEY, ZERO_KEY);
    let c = parse_counters(&text);
    assert_eq!(
        c,
        vec![
            (seq_key(), WgUsage { download: 1000, upload: 500 }),
            (zero_key(), WgUsage { download: 7, upload: 9 })
        ]
    );
    assert!(has_unique_keys(&c));
    assert!(parse_counters("").is_empty());
}

#[test]
fn repeated_peer_is_detected() {
    let u = WgUsage { download: 1, upload: 1 };
    assert!(!has_unique_keys(&vec![(zero_key(), u), (seq_key(), u), (zero_key(), u)]));
    assert!(has_unique_keys(&Vec::new()));
}
