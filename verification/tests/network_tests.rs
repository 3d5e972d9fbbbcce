use nexus_chain::dag::graph::{Dag, DagConfig};
use nexus_chain::network::gossip::{GossipConfig, MessageCache};
use nexus_chain::network::peer::{PeerInfo, PeerManager, PeerState};
use nexus_chain::network::protocol::{SyncRequest, SyncResponse};
use nexus_chain::network::sync::{SyncConfig, SyncManager, SyncState};

fn peer(id: &str, state: PeerState, rep: i32) -> PeerInfo {
    PeerInfo {
        id: id.to_string(),
        addresses: vec!["/ip4/127.0.0.1/tcp/9000".to_string()],
        protocol_version: 1,
        agent: "nexus/1.0".to_string(),
        is_validator: false,
        validator_address: None,
        last_seen: 0,
        state,
        reputation: rep,
    }
}

fn h(b: u8) -> nexus_chain::primitives::types::Hash {
    nexus_chain::primitives::types::Hash::new([b; 32])
}

#[test]
fn test_peer_manager() {
    let mut manager = PeerManager::new(10);
    let p = peer("peer1", PeerState::Connected, 0);
    manager.add_peer(p);
    assert_eq!(manager.connected_count(), 1);
    assert_eq!(manager.total_count(), 1);
    manager.update_reputation(&"peer1".to_string(), 10);
    let info = manager.get_peer(&"peer1".to_string()).unwrap();
    assert_eq!(info.reputation, 10);
}

#[test]
fn reputation_is_clamped_and_bans() {
    let mut m = PeerManager::default();
    m.add_peer(peer("a", PeerState::Connected, 0));
    m.update_reputation(&"a".to_string(), 5000);
    assert_eq!(m.get_peer(&"a".to_string()).unwrap().reputation, 1000);
    m.update_reputation(&"a".to_string(), -1100);
    let a = m.get_peer(&"a".to_string()).unwrap();
    assert_eq!(a.reputation, -100);
    assert_eq!(a.state, PeerState::Banned);
    m.add_peer(peer("b", PeerState::Connected, 3));
    m.ban_peer(&"b".to_string(), "spam");
    assert_eq!(m.get_peer(&"b".to_string()).unwrap().reputation, -1000);
    assert_eq!(m.connected_count(), 0);
}

#[test]
fn full_table_drops_disconnected_peers() {
    let mut m = PeerManager::new(2);
    m.add_peer(peer("a", PeerState::Disconnected, 0));
    m.add_peer(peer("b", PeerState::Connected, 0));
    m.add_peer(peer("c", PeerState::Connected, 0));
    assert_eq!(m.total_count(), 2);
    assert!(m.get_peer(&"a".to_string()).is_none());
    m.set_state(&"b".to_string(), PeerState::Connecting);
    assert_eq!(m.connected_count(), 1);
}

#[test]
fn best_peers_by_reputation() {
    let mut m = PeerManager::new(10);
    m.add_peer(peer("a", PeerState::Connected, 5));
    m.add_peer(peer("b", PeerState::Connected, 50));
    m.add_peer(peer("c", PeerState::Disconnected, 500));
    m.add_peer(peer("d", PeerState::Connected, 20));
    let best = m.best_peers(2);
    assert_eq!(best.len(), 2);
    assert_eq!(best[0].id, "b");
    assert_eq!(best[1].id, "d");
    assert_eq!(m.validator_peers().len(), 0);
}

#[test]
fn traffic_statistics() {
    let mut m = PeerManager::new(10);
    let id = "x".to_string();
    assert!(m.get_stats(&id).is_none());
    m.record_sent(&id, 100);
    m.record_sent(&id, 20);
    m.record_received(&id, 7);
    let s = m.get_stats(&id).unwrap();
    assert_eq!(s.messages_sent, 2);
    assert_eq!(s.bytes_sent, 120);
    assert_eq!(s.messages_received, 1);
    assert_eq!(s.bytes_received, 7);
}

#[test]
fn cleanup_keeps_connected_and_recent() {
    let mut m = PeerManager::new(10);
    let mut old = peer("old", PeerState::Disconnected, 0);
    old.last_seen = 10;
    let mut recent = peer("recent", PeerState::Disconnected, 0);
    recent.last_seen = 95;
    m.add_peer(old);
    m.add_peer(recent);
    m.add_peer(peer("live", PeerState::Connected, 0));
    m.cleanup_at(100, 30);
    assert_eq!(m.total_count(), 2);
    assert!(m.get_peer(&"old".to_string()).is_none());
}

#[test]
fn test_message_cache() {
    let mut cache = MessageCache::new(100, 60);
    let hash = h(1);
    assert!(!cache.is_seen(&hash));
    cache.mark_seen(hash);
    assert!(cache.is_seen(&hash));
}

#[test]
fn cache_prunes_old_entries_when_full() {
    let mut cache = MessageCache::new(2, 60);
    cache.mark_seen_at(h(1), 10);
    cache.mark_seen_at(h(2), 50);
    cache.mark_seen_at(h(3), 100);
    assert!(!cache.is_seen(&h(1)));
    assert!(cache.is_seen(&h(2)));
    assert!(cache.is_seen(&h(3)));
    let cfg = GossipConfig::default();
    assert_eq!(cfg.mesh_d, 6);
}

#[test]
fn test_sync_state() {
    let dag = Dag::new(DagConfig::default());
    let mut sync = SyncManager::new(SyncConfig::default(), dag);
    assert_eq!(sync.state(), SyncState::Idle);
    sync.start_sync();
    assert_eq!(sync.state(), SyncState::Syncing);
    sync.mark_synced();
    assert!(sync.is_synced());
}

#[test]
fn sync_queues_missing_tips_and_batches() {
    let dag = Dag::new(DagConfig::default());
    let mut cfg = SyncConfig::default();
    cfg.batch_size = 2;
    cfg.max_concurrent = 1;
    let mut sync = SyncManager::new(cfg, dag);
    assert!(sync.next_request().is_none());
    sync.handle_response(SyncResponse::Tips(vec![h(1), h(2), h(3)])).unwrap();
    match sync.next_request() {
        Some(SyncRequest::GetVertices(b)) => assert_eq!(b, vec![h(1), h(2)]),
        _ => panic!("expected a batch"),
    }
    assert!(sync.next_request().is_none());
    sync.handle_response(SyncResponse::Error("timeout".to_string())).unwrap();
    match sync.next_request() {
        Some(SyncRequest::GetVertices(b)) => assert_eq!(b, vec![h(3)]),
        _ => panic!("expected a batch"),
    }
    match sync.handle_request(SyncRequest::GetVertices(vec![h(9)])) {
        SyncResponse::Vertices(v) => assert!(v.is_empty()),
        _ => panic!("expected vertices"),
    }
    sync.set_finalized_tip(Some(h(7)));
    match sync.handle_request(SyncRequest::GetFinalized) {
        SyncResponse::Finalized(Some(x)) => assert_eq!(x, h(7)),
        _ => panic!("expected the finalized tip"),
    }
}
