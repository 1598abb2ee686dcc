use zkbft::circuit::Digest as CircuitDigest;
use zkbft::field::ORDER;
use zkbft::gateway::{block_hash_notice, peers_to_remove, ping_message, route_frame, route_request, DummyHandler, PeerStatus, Request};
use zkbft::mempool::Transaction as MempoolTransaction;
use zkbft::node_config::{ConfigError, Parameters as NodeParameters, Secret};
use zkbft::node_ws::{
    block_store_key, deserialize, handle_client_message, serialize, sync_blocks_reply, try_deserialize, ClientAction, ClientRegistry, Fields,
    Message, ServerMessage,
};

#[test]
fn fields_wire_text() {
    let text = serialize(&vec![1, 0x0102030405060708]);
    assert_eq!(text, "00000000000000010102030405060708");
    assert_eq!(deserialize(&text).unwrap(), vec![1, 0x0102030405060708]);
    assert_eq!(serialize(&vec![]), "");
    assert_eq!(deserialize("").unwrap(), Vec::<u64>::new());
    assert_eq!(deserialize("00000000000000FF").unwrap(), vec![255]);
}

#[test]
fn fields_round_trip() {
    let values = vec![0, u64::MAX, ORDER, 42, 1 << 63];
    assert_eq!(deserialize(&serialize(&values)).unwrap(), values);
}

#[test]
fn fields_rejections() {
    assert!(deserialize("0").is_err());
    assert!(deserialize("zz00000000000000").is_err());
}

fn ids(out: &[zkbft::node_ws::Delivery]) -> Vec<String> {
    out.iter().map(|d| d.client_id.clone()).collect()
}

#[test]
fn registry_subscriptions() {
    let mut r = ClientRegistry::new();
    assert!(r.apply(ServerMessage::NewClient { id: "a".into() }).is_empty());
    r.apply(ServerMessage::NewClient { id: "b".into() });
    r.apply(ServerMessage::NewClient { id: "c".into() });
    let out = r.apply(ServerMessage::BroadcastChainUpdate { hash: Fields(vec![1, 2]) });
    assert!(out.is_empty());
    r.apply(ServerMessage::Subscribe { client_id: "c".into() });
    r.apply(ServerMessage::Subscribe { client_id: "a".into() });
    r.apply(ServerMessage::Subscribe { client_id: "zzz".into() });
    let out = r.apply(ServerMessage::BroadcastChainUpdate { hash: Fields(vec![1, 2]) });
    assert_eq!(ids(&out), vec!["a".to_string(), "c".to_string()]);
    assert!(matches!(&out[0].message, Message::ChainUpdate(f) if f.0 == vec![1, 2]));
    r.apply(ServerMessage::Unsubscribe { client_id: "a".into() });
    let out = r.apply(ServerMessage::BroadcastChainUpdate { hash: Fields(vec![3]) });
    assert_eq!(ids(&out), vec!["c".to_string()]);
    r.apply(ServerMessage::ClientDisconnected { id: "c".into() });
    let out = r.apply(ServerMessage::BroadcastChainUpdate { hash: Fields(vec![3]) });
    assert!(out.is_empty());
}

#[test]
fn registry_reconnect_resets_subscription() {
    let mut r = ClientRegistry::new();
    r.apply(ServerMessage::NewClient { id: "a".into() });
    r.apply(ServerMessage::Subscribe { client_id: "a".into() });
    r.apply(ServerMessage::NewClient { id: "a".into() });
    assert!(r.apply(ServerMessage::BroadcastChainUpdate { hash: Fields(vec![]) }).is_empty());
}

#[test]
fn registry_sync_blocks() {
    let mut r = ClientRegistry::new();
    r.apply(ServerMessage::NewClient { id: "a".into() });
    let out = r.apply(ServerMessage::SendSyncBlocks { client_id: "a".into(), sync_blocks: vec![Fields(vec![9])] });
    assert_eq!(ids(&out), vec!["a".to_string()]);
    assert!(matches!(&out[0].message, Message::SyncBlocks(b) if b.len() == 1 && b[0].0 == vec![9]));
    let out = r.apply(ServerMessage::SendSyncBlocks { client_id: "x".into(), sync_blocks: vec![Fields(vec![9])] });
    assert!(out.is_empty());
}

#[test]
fn client_messages() {
    assert!(matches!(
        handle_client_message(Message::SubscribeChainUpdate, "a"),
        ClientAction::Notify(ServerMessage::Subscribe { client_id }) if client_id == "a"
    ));
    assert!(matches!(
        handle_client_message(Message::UnsubscribeChainUpdate, "b"),
        ClientAction::Notify(ServerMessage::Unsubscribe { client_id }) if client_id == "b"
    ));
    assert!(matches!(
        handle_client_message(Message::SendTransactions(vec![Fields(vec![1]), Fields(vec![2])]), "a"),
        ClientAction::SubmitTransactions(t) if t.len() == 2 && t[1].0 == vec![2]
    ));
    assert!(matches!(
        handle_client_message(Message::RequestBlocks(vec![Fields(vec![1, 2, 3, 4])]), "a"),
        ClientAction::LookUpBlocks(r) if r.len() == 1
    ));
    assert!(matches!(handle_client_message(Message::SyncBlocks(vec![]), "a"), ClientAction::Ignore));
    assert!(matches!(handle_client_message(Message::ChainUpdate(Fields(vec![])), "a"), ClientAction::Ignore));
    assert!(sync_blocks_reply("a", vec![]).is_none());
    assert!(matches!(
        sync_blocks_reply("a", vec![Fields(vec![5])]),
        Some(ServerMessage::SendSyncBlocks { client_id, sync_blocks }) if client_id == "a" && sync_blocks.len() == 1
    ));
}

#[test]
fn gateway_routes_requests() {
    let r = route_request(Some("transaction".into()), Some("tx1".into()), None);
    assert!(matches!(r, Request::ProcessTransaction(t) if t == "tx1"));
    let r = route_request(Some("transaction".into()), None, Some("h".into()));
    assert!(matches!(r, Request::Ignore));
    let r = route_request(Some("get_block".into()), None, Some("block_0".into()));
    assert!(matches!(r, Request::GetBlock(h) if h == "block_0"));
    let r = route_request(Some("get_block".into()), Some("t".into()), None);
    assert!(matches!(r, Request::Ignore));
    assert!(matches!(route_request(Some("other".into()), Some("t".into()), Some("h".into())), Request::Ignore));
    assert!(matches!(route_request(None, Some("t".into()), Some("h".into())), Request::Ignore));
}

#[test]
fn gateway_texts() {
    assert_eq!(block_hash_notice("12312"), r#"{"type": "block_hash", "hash": "12312"}"#);
    assert_eq!(ping_message(), r#"{"type": "ping"}"#);
    let h = DummyHandler;
    assert!(h.process_txn("x".into()).is_ok());
    assert_eq!(h.get_block("block_0".into()).unwrap(), "1213");
}

#[test]
fn heartbeat_drops_silent_and_unreachable_clients() {
    let peers = vec![
        PeerStatus { ping_queued: true, silent_nanos: 0 },
        PeerStatus { ping_queued: false, silent_nanos: 0 },
        PeerStatus { ping_queued: true, silent_nanos: 10_000_000_000 },
        PeerStatus { ping_queued: true, silent_nanos: 10_000_000_001 },
    ];
    assert_eq!(peers_to_remove(&peers), vec![1, 3]);
    assert!(peers_to_remove(&vec![]).is_empty());
}

#[test]
fn mempool_transaction() {
    let mut t = MempoolTransaction::new([1; 4], [2; 68], [3; 4], 10, 11, 12, vec![[0; 8], [1; 8]], vec![7]);
    assert_eq!(t.info(), [10, 11, 12, 2]);
    t.set_proof(vec![8, 9]);
    assert_eq!(t.proof, vec![8, 9]);
    assert_eq!(t.amount, 10);
}

#[test]
fn circuit_digest_bytes() {
    let d = CircuitDigest([1, ORDER + 2, 0, 3]);
    let v = d.to_vec();
    assert_eq!(v.len(), 32);
    assert_eq!(&v[0..8], &1u64.to_le_bytes());
    assert_eq!(&v[8..16], &2u64.to_le_bytes());
    assert_eq!(d.size(), 4);
    let back = CircuitDigest::from_bytes(&v);
    assert_eq!(back.0, [1, 2, 0, 3]);
    #[allow(deprecated)]
    let expected = base64::encode(&v);
    assert_eq!(d.to_base64(), expected);
}

#[test]
fn config_errors_and_parameters() {
    let e = ConfigError::ReadError { file: "a.json".into(), message: "missing".into() };
    assert_eq!(e.describe(), "Failed to read config file 'a.json': missing");
    let e = ConfigError::WriteError { file: "b".into(), message: "denied".into() };
    assert_eq!(e.describe(), "Failed to write config file 'b': denied");
    let p = NodeParameters::default();
    assert_eq!(p.consensus.timeout_delay, 5_000);
}

#[test]
fn secret_names_its_key() {
    let s = Secret::new(|_k: &zkbft::crypto::SecretKey| [4, 3, 2, 1]);
    assert_eq!(s.name.to_field(), [4, 3, 2, 1]);
}

#[test]
fn block_store_key_packs_first_four_values() {
    let key = block_store_key(&Fields(vec![1, 2, ORDER + 3, 0x0102030405060708, 99]));
    let mut expected = Vec::new();
    for v in [1u64, 2, 3, 0x0102030405060708] {
        expected.extend_from_slice(&v.to_le_bytes());
    }
    assert_eq!(key, expected);
    assert_eq!(key, zkbft::crypto::Digest::from_field([1, 2, 3, 0x0102030405060708]).to_vec());
}

#[test]
fn gateway_routes_frames() {
    let r = route_frame(r#"{"type": "transaction", "txn": "tx1", "amount": 100.0}"#);
    assert!(matches!(r, Request::ProcessTransaction(t) if t == "tx1"));
    let r = route_frame(r#"{"type": "get_block", "hash": "block_0"}"#);
    assert!(matches!(r, Request::GetBlock(h) if h == "block_0"));
    // A transaction request without a `txn` string is ignored.
    let r = route_frame(r#"{"type": "transaction", "id": "tx1", "amount": 100.0, "recipient": "user1"}"#);
    assert!(matches!(r, Request::Ignore));
    assert!(matches!(route_frame(r#"{"type": "transaction", "txn": 5}"#), Request::Ignore));
    assert!(matches!(route_frame(r#"{"type": 7, "hash": "h"}"#), Request::Ignore));
    assert!(matches!(route_frame("not json"), Request::Ignore));
    assert!(matches!(route_frame("[1, 2]"), Request::Ignore));
}

#[test]
fn broadcast_reaches_each_subscriber_once() {
    let mut r = ClientRegistry::new();
    r.apply(ServerMessage::NewClient { id: "a".into() });
    r.apply(ServerMessage::NewClient { id: "b".into() });
    r.apply(ServerMessage::Subscribe { client_id: "a".into() });
    r.apply(ServerMessage::Subscribe { client_id: "a".into() });
    r.apply(ServerMessage::NewClient { id: "a".into() });
    r.apply(ServerMessage::Subscribe { client_id: "a".into() });
    r.apply(ServerMessage::Subscribe { client_id: "b".into() });
    let out = r.apply(ServerMessage::BroadcastChainUpdate { hash: Fields(vec![5]) });
    assert_eq!(ids(&out), vec!["a".to_string(), "b".to_string()]);
}

#[test]
fn checked_wire_decoding() {
    assert!(try_deserialize("00").is_none());
    assert!(matches!(try_deserialize("zz"), Some(Err(_))));
    assert!(matches!(try_deserialize("0"), Some(Err(_))));
    assert!(matches!(try_deserialize("00000000000000FF"), Some(Ok(v)) if v == vec![255]));
}
