use peer_guard::peers::{PeerState, ShardConfig, SyncConfig, SyncPeers};
use std::collections::HashSet;

const ADDR: &str = "/ip4/127.0.0.1/tcp/10000";

fn addr() -> String {
    ADDR.to_string()
}

#[test]
fn test_add_new_peer() {
    let mut sync_peers: SyncPeers = Default::default();
    let peer_id = 1;
    assert!(sync_peers.add_new_peer(peer_id, addr(), 0));
    assert!(!sync_peers.add_new_peer(peer_id, addr(), 0));
}

#[test]
fn test_update_state() {
    let mut sync_peers: SyncPeers = Default::default();
    let peer_id = 1;
    assert_eq!(sync_peers.update_state(&peer_id, PeerState::Found, PeerState::Connecting, 0), None);
    assert_eq!(sync_peers.peer_state(&peer_id), None);

    sync_peers.add_new_peer(peer_id, addr(), 0);
    assert_eq!(sync_peers.peer_state(&peer_id), Some(PeerState::Found));

    assert_eq!(sync_peers.update_state(&peer_id, PeerState::Found, PeerState::Connecting, 0), Some(true));
    assert_eq!(sync_peers.peer_state(&peer_id), Some(PeerState::Connecting));

    assert_eq!(sync_peers.update_state(&peer_id, PeerState::Found, PeerState::Connected, 0), Some(false));
    assert_eq!(sync_peers.peer_state(&peer_id), Some(PeerState::Connecting));
}

#[test]
fn test_update_state_force() {
    let mut sync_peers: SyncPeers = Default::default();
    let peer_id = 1;
    assert_eq!(sync_peers.update_state_force(&peer_id, PeerState::Connecting, 0), None);
    assert_eq!(sync_peers.peer_state(&peer_id), None);

    sync_peers.add_new_peer(peer_id, addr(), 0);

    assert_eq!(sync_peers.update_state_force(&peer_id, PeerState::Connecting, 0), Some(PeerState::Found));
    assert_eq!(sync_peers.peer_state(&peer_id), Some(PeerState::Connecting));
}

#[test]
fn test_random_peer() {
    let count = 10;
    let mut sync_peers: SyncPeers = Default::default();

    let mut peers_found = HashSet::new();
    let mut peers_connecting = HashSet::new();

    for i in 0..count {
        let peer_id = 1000 + i as u64;
        sync_peers.add_new_peer(peer_id, addr(), 0);
        peers_found.insert(peer_id);

        assert_eq!(sync_peers.count(&[PeerState::Found]), i + 1);
        assert_eq!(sync_peers.count(&[PeerState::Connecting]), 0);
        assert_eq!(sync_peers.count(&[PeerState::Found, PeerState::Connecting]), i + 1);
    }

    for i in 0..count {
        let peer_id = 2000 + i as u64;
        sync_peers.add_new_peer(peer_id, addr(), 0);
        sync_peers.update_state_force(&peer_id, PeerState::Connecting, 0);
        peers_connecting.insert(peer_id);

        assert_eq!(sync_peers.count(&[PeerState::Found]), count);
        assert_eq!(sync_peers.count(&[PeerState::Connecting]), i + 1);
        assert_eq!(sync_peers.count(&[PeerState::Found, PeerState::Connecting]), count + i + 1);
    }

    for _ in 0..30 {
        let peer = sync_peers.random_peer(PeerState::Found).unwrap();
        assert!(peers_found.contains(&peer.0));
        assert_eq!(peer.1, ADDR);
        let peer = sync_peers.random_peer(PeerState::Connecting).unwrap();
        assert!(peers_connecting.contains(&peer.0));
        assert_eq!(peer.1, ADDR);
        assert!(sync_peers.random_peer(PeerState::Disconnected).is_none());
    }
}

#[test]
fn test_transition() {
    let config = SyncConfig::default();
    let mut sync_peers = SyncPeers::new(config);
    let now = config.peer_connect_timeout.max(config.peer_disconnect_timeout);

    let peer_id = 1;
    sync_peers.add_new_peer(peer_id, addr(), now);

    let peer_id_connected = 2;
    sync_peers.add_new_peer(peer_id_connected, addr(), now);
    sync_peers.update_state_force(&peer_id_connected, PeerState::Connected, now);

    let peer_id_connecting = 3;
    sync_peers.add_new_peer(peer_id_connecting, addr(), now);
    sync_peers.update_state_force(&peer_id_connecting, PeerState::Connecting, now - config.peer_connect_timeout);

    let peer_id_disconnecting = 4;
    sync_peers.add_new_peer(peer_id_disconnecting, addr(), now);
    sync_peers.update_state_force(&peer_id_disconnecting, PeerState::Disconnecting, now - config.peer_disconnect_timeout);

    let peer_id_disconnected = 5;
    sync_peers.add_new_peer(peer_id_disconnected, addr(), now);
    sync_peers.update_state_force(&peer_id_disconnected, PeerState::Disconnected, now);

    assert_eq!(sync_peers.peer_state(&peer_id), Some(PeerState::Found));
    assert_eq!(sync_peers.peer_state(&peer_id_connected), Some(PeerState::Connected));
    assert_eq!(sync_peers.peer_state(&peer_id_connecting), Some(PeerState::Connecting));
    assert_eq!(sync_peers.peer_state(&peer_id_disconnecting), Some(PeerState::Disconnecting));
    assert_eq!(sync_peers.peer_state(&peer_id_disconnected), Some(PeerState::Disconnected));

    sync_peers.transition(now);

    assert_eq!(sync_peers.peer_state(&peer_id), Some(PeerState::Found));
    assert_eq!(sync_peers.peer_state(&peer_id_connected), Some(PeerState::Connected));
    assert_eq!(sync_peers.peer_state(&peer_id_connecting), None);
    assert_eq!(sync_peers.peer_state(&peer_id_disconnecting), None);
    assert_eq!(sync_peers.peer_state(&peer_id_disconnected), None);
}

#[test]
fn add_same_peer_twice_keeps_found() {
    let mut peers = SyncPeers::default();
    let sc = ShardConfig { num_shard: 4, shard_id: 1 };
    assert!(peers.add_new_peer_with_config(9, addr(), sc, 5));
    assert!(!peers.add_new_peer_with_config(9, addr(), sc, 6));
    assert_eq!(peers.peer_state(&9), Some(PeerState::Found));
    assert_eq!(peers.shard_config(&9), Some(sc));
}

#[test]
fn readding_with_another_shard_config_resets_to_found() {
    let mut peers = SyncPeers::default();
    assert!(peers.add_new_peer(9, addr(), 0));
    assert_eq!(peers.update_state(&9, PeerState::Found, PeerState::Connected, 1), Some(true));
    let sc = ShardConfig { num_shard: 2, shard_id: 1 };
    assert!(peers.add_new_peer_with_config(9, addr(), sc, 2));
    assert_eq!(peers.peer_state(&9), Some(PeerState::Found));
    assert_eq!(peers.shard_config(&9), Some(sc));
    assert_eq!(peers.shard_config(&10), None);
}

#[test]
fn update_state_from_wrong_state_is_a_no_op() {
    let mut peers = SyncPeers::default();
    peers.add_new_peer(1, addr(), 0);
    assert_eq!(peers.update_state(&1, PeerState::Connected, PeerState::Disconnecting, 3), Some(false));
    assert_eq!(peers.peer_state(&1), Some(PeerState::Found));
}

#[test]
fn update_state_restarts_the_connect_deadline() {
    let config = SyncConfig { peer_connect_timeout: 100, peer_disconnect_timeout: 50 };
    let mut peers = SyncPeers::new(config);
    peers.add_new_peer(1, addr(), 0);
    assert_eq!(peers.update_state(&1, PeerState::Found, PeerState::Connecting, 80), Some(true));
    assert!(peers.transition(150).is_empty());
    assert_eq!(peers.peer_state(&1), Some(PeerState::Connecting));
    assert_eq!(peers.transition(180), vec![1]);
    assert_eq!(peers.peer_state(&1), None);
}

#[test]
fn scenario_dial_timeout_reported_once() {
    let config = SyncConfig { peer_connect_timeout: 1000, peer_disconnect_timeout: 1000 };
    let mut peers = SyncPeers::new(config);
    peers.add_new_peer(7, addr(), 0);
    peers.add_new_peer(8, addr(), 0);
    assert_eq!(peers.update_state(&7, PeerState::Found, PeerState::Connecting, 0), Some(true));
    assert!(peers.transition(999).is_empty());
    assert_eq!(peers.transition(1000), vec![7]);
    assert_eq!(peers.peer_state(&7), None);
    assert_eq!(peers.peer_state(&8), Some(PeerState::Found));
    assert!(peers.transition(5000).is_empty());
}

#[test]
fn disconnected_removed_whatever_since() {
    let mut peers = SyncPeers::default();
    peers.add_new_peer(1, addr(), 0);
    peers.update_state_force(&1, PeerState::Disconnected, 1_000);
    assert!(peers.transition(0).is_empty());
    assert_eq!(peers.peer_state(&1), None);
}

#[test]
fn disconnecting_timeout_is_not_a_dial_timeout() {
    let config = SyncConfig { peer_connect_timeout: 10, peer_disconnect_timeout: 20 };
    let mut peers = SyncPeers::new(config);
    peers.add_new_peer(1, addr(), 0);
    peers.update_state_force(&1, PeerState::Disconnecting, 0);
    assert!(peers.transition(19).is_empty());
    assert_eq!(peers.peer_state(&1), Some(PeerState::Disconnecting));
    assert!(peers.transition(20).is_empty());
    assert_eq!(peers.peer_state(&1), None);
}

#[test]
fn scenario_random_found_peer() {
    let mut peers = SyncPeers::default();
    let mut found = HashSet::new();
    for id in 0..50u64 {
        peers.add_new_peer(id, format!("/ip4/10.0.0.{}/tcp/1", id), 0);
        found.insert(id);
    }
    peers.add_new_peer(99, addr(), 0);
    peers.update_state_force(&99, PeerState::Connected, 0);
    for _ in 0..1000 {
        let (id, a) = peers.random_peer(PeerState::Found).unwrap();
        assert!(found.contains(&id));
        assert_eq!(a, format!("/ip4/10.0.0.{}/tcp/1", id));
    }
    assert_eq!(peers.random_peer(PeerState::Connected), Some((99, addr())));
    assert_eq!(peers.random_peer(PeerState::Connecting), None);
}

#[test]
fn filter_peers_returns_exactly_the_states_asked() {
    let mut peers = SyncPeers::default();
    for id in 0..6u64 {
        peers.add_new_peer(id, addr(), 0);
    }
    peers.update_state_force(&1, PeerState::Connecting, 0);
    peers.update_state_force(&2, PeerState::Connected, 0);
    peers.update_state_force(&3, PeerState::Connected, 0);
    peers.update_state_force(&4, PeerState::Disconnected, 0);
    let mut got = peers.filter_peers(vec![PeerState::Connecting, PeerState::Connected]);
    got.sort();
    assert_eq!(got, vec![1, 2, 3]);
    assert!(peers.filter_peers(vec![PeerState::Disconnecting]).is_empty());
    assert_eq!(peers.count(&[PeerState::Found, PeerState::Disconnected]), 3);
}

#[test]
fn states_histogram() {
    let mut peers = SyncPeers::default();
    assert!(peers.states().is_empty());
    for id in 0..5u64 {
        peers.add_new_peer(id, addr(), 0);
    }
    peers.update_state_force(&0, PeerState::Connected, 0);
    peers.update_state_force(&1, PeerState::Connected, 0);
    peers.update_state_force(&2, PeerState::Disconnecting, 0);
    assert_eq!(
        peers.states(),
        vec![(PeerState::Found, 2), (PeerState::Connected, 2), (PeerState::Disconnecting, 1)]
    );
}

#[test]
fn all_shards_available_sees_the_configs_of_the_states_asked() {
    let mut peers = SyncPeers::default();
    peers.add_new_peer_with_config(1, addr(), ShardConfig { num_shard: 2, shard_id: 0 }, 0);
    peers.add_new_peer_with_config(2, addr(), ShardConfig { num_shard: 2, shard_id: 1 }, 0);
    peers.add_new_peer_with_config(3, addr(), ShardConfig { num_shard: 4, shard_id: 3 }, 0);
    peers.update_state_force(&2, PeerState::Connected, 0);
    let covers = |cs: Vec<ShardConfig>| {
        let mut ids: Vec<usize> = cs.iter().filter(|c| c.num_shard == 2).map(|c| c.shard_id).collect();
        ids.sort();
        ids == vec![0, 1]
    };
    assert!(!peers.all_shards_available(vec![PeerState::Found], covers));
    assert!(peers.all_shards_available(vec![PeerState::Found, PeerState::Connected], covers));
    let seen = |cs: Vec<ShardConfig>| cs.len() == 2;
    assert!(peers.all_shards_available(vec![PeerState::Found], seen));
}

#[test]
fn forced_state_change_restarts_the_deadline() {
    let config = SyncConfig { peer_connect_timeout: 100, peer_disconnect_timeout: 100 };
    let mut peers = SyncPeers::new(config);
    peers.add_new_peer(1, addr(), 0);
    assert_eq!(peers.update_state_force(&1, PeerState::Connecting, 50), Some(PeerState::Found));
    assert!(peers.transition(120).is_empty());
    assert_eq!(peers.peer_state(&1), Some(PeerState::Connecting));
    assert_eq!(peers.transition(150), vec![1]);
    assert_eq!(peers.peer_state(&1), None);
}
