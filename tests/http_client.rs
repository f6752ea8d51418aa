use rita_billing::http_client::{HTTPClient, Hello, HelloFailure, HelloOutcome, LocalIdentity, Peer, TunnelCallback};
use rita_billing::types::{EthAddress, Identity, WgKey};

fn local(port: u16) -> LocalIdentity {
    LocalIdentity {
        wg_port: port,
        global: Identity {
            mesh_ip: 1,
            eth_address: EthAddress { high: 0, low: 1 },
            wg_public_key: WgKey { w0: 1, w1: 1, w2: 1, w3: 1 },
        },
    }
}

fn hello() -> Hello {
    Hello { my_id: local(60000), to: Peer { ifidx: 3, contact_ip: 0xfe80, contact_port: 4876 } }
}

#[test]
fn hello_failures_release_port() {
    for f in [
        HelloFailure::Connect,
        HelloFailure::Serialize,
        HelloFailure::Send,
        HelloFailure::Response,
        HelloFailure::Parse,
    ] {
        assert_eq!(HTTPClient.handle(hello(), HelloOutcome::Failed(f)), TunnelCallback::Port(60000));
    }
}

#[test]
fn hello_reply_brings_identity() {
    let msg = hello();
    let r = HTTPClient.handle(msg, HelloOutcome::Replied(local(51000)));
    assert_eq!(
        r,
        TunnelCallback::Identity { their_id: local(51000), peer: msg.to, wg_port: Some(60000) }
    );
}
