use relay_server::{PeerAddr, PeerData, RelayError, RelayMap, MAX_RELAY_COUNT, TIME_TO_LIVE};

fn key(s: &str) -> String {
    s.to_string()
}

fn addr(a: u8, b: u8, c: u8, d: u8, port: u16) -> PeerAddr {
    PeerAddr::new(a, b, c, d, port)
}

#[test]
fn new_registry_is_empty() {
    let map = RelayMap::new();
    assert_eq!(map.len(), 0);
    assert!(!map.has_peer(&key("a")));
    assert!(map.get(&key("a")).is_none());
}

#[test]
fn bind_creates_fresh_entry() {
    let mut map = RelayMap::new();
    assert_eq!(map.bind_peer_at(key("a"), addr(1, 2, 3, 4, 1000), 50), Ok(()));
    let p = map.get(&key("a")).unwrap();
    assert_eq!(p.public_key, "a");
    assert_eq!(p.peer_addr, addr(1, 2, 3, 4, 1000));
    assert_eq!(p.discovery_time, 50);
    assert!(!p.waiting_punch);
    assert_eq!(p.waiting_for, None);
    assert_eq!(map.len(), 1);
}

#[test]
fn rebind_replaces_address_and_clears_wait() {
    let mut map = RelayMap::new();
    map.bind_peer_at(key("a"), addr(1, 2, 3, 4, 1000), 10).unwrap();
    map.mark_waiting(&key("a"), &key("b")).unwrap();
    map.bind_peer_at(key("a"), addr(5, 6, 7, 8, 2000), 20).unwrap();
    let p = map.get(&key("a")).unwrap();
    assert_eq!(p.peer_addr, addr(5, 6, 7, 8, 2000));
    assert_eq!(p.discovery_time, 20);
    assert!(!p.waiting_punch);
    assert_eq!(map.len(), 1);
}

#[test]
fn placeholder_keeps_address_but_refreshes_time() {
    let mut map = RelayMap::new();
    map.bind_peer_at(key("a"), addr(1, 2, 3, 4, 1000), 10).unwrap();
    map.mark_waiting(&key("a"), &key("b")).unwrap();
    map.bind_peer_at(key("a"), addr(127, 0, 0, 9, 9), 30).unwrap();
    let p = map.get(&key("a")).unwrap();
    assert_eq!(p.peer_addr, addr(1, 2, 3, 4, 1000));
    assert_eq!(p.discovery_time, 30);
    assert!(p.waiting_punch);
}

#[test]
fn placeholder_refresh_survives_ttl_boundary() {
    let mut map = RelayMap::new();
    map.bind_peer_at(key("a"), addr(1, 2, 3, 4, 1000), 0).unwrap();
    map.bind_peer_at(key("a"), addr(127, 0, 0, 9, 9), 1_000).unwrap();
    // Without the refresh the entry would be expired here.
    assert_eq!(map.evict_expired(1_000 + TIME_TO_LIVE), 0);
    assert_eq!(map.get(&key("a")).unwrap().peer_addr, addr(1, 2, 3, 4, 1000));
    assert_eq!(map.evict_expired(1_001 + TIME_TO_LIVE), 1);
    assert!(!map.has_peer(&key("a")));
}

#[test]
fn placeholder_may_replace_placeholder() {
    let mut map = RelayMap::new();
    map.bind_peer_at(key("a"), addr(127, 0, 0, 9, 9), 0).unwrap();
    map.bind_peer_at(key("a"), addr(127, 0, 0, 9, 9), 5).unwrap();
    map.bind_peer_at(key("a"), addr(9, 9, 9, 9, 99), 6).unwrap();
    assert_eq!(map.get(&key("a")).unwrap().peer_addr, addr(9, 9, 9, 9, 99));
}

#[test]
fn capacity_refuses_new_key_but_accepts_known_key() {
    let mut map = RelayMap::new();
    for i in 0..MAX_RELAY_COUNT {
        assert_eq!(map.bind_peer_at(format!("peer{}", i), addr(10, 0, 0, 1, 1000), 0), Ok(()));
    }
    assert_eq!(map.len(), MAX_RELAY_COUNT);
    assert_eq!(
        map.bind_peer_at(key("newcomer"), addr(10, 0, 0, 2, 1000), 0),
        Err(RelayError::CapacityExceeded)
    );
    assert!(!map.has_peer(&key("newcomer")));
    assert_eq!(map.bind_peer_at(key("peer7"), addr(10, 0, 0, 3, 3000), 1), Ok(()));
    assert_eq!(map.len(), MAX_RELAY_COUNT);
    assert_eq!(map.get(&key("peer7")).unwrap().peer_addr, addr(10, 0, 0, 3, 3000));
}

#[test]
fn evict_removes_only_expired_entries() {
    let mut map = RelayMap::new();
    map.bind_peer_at(key("old"), addr(1, 1, 1, 1, 1), 0).unwrap();
    map.bind_peer_at(key("edge"), addr(2, 2, 2, 2, 2), 400_000).unwrap();
    map.bind_peer_at(key("young"), addr(3, 3, 3, 3, 3), 900_000).unwrap();
    map.bind_peer_at(key("future"), addr(4, 4, 4, 4, 4), 2_000_000).unwrap();
    assert_eq!(map.evict_expired(1_000_000), 1);
    assert!(!map.has_peer(&key("old")));
    assert!(map.has_peer(&key("edge")));
    assert!(map.has_peer(&key("young")));
    assert!(map.has_peer(&key("future")));
    assert_eq!(map.len(), 3);
    assert_eq!(map.evict_expired(1_000_001), 1);
    assert!(!map.has_peer(&key("edge")));
}

#[test]
fn reset_peer_time_at_refreshes_known_key_only() {
    let mut map = RelayMap::new();
    map.bind_peer_at(key("a"), addr(1, 2, 3, 4, 5), 0).unwrap();
    assert!(map.reset_peer_time_at(&key("a"), 700_000));
    assert!(!map.reset_peer_time_at(&key("b"), 700_000));
    assert_eq!(map.get(&key("a")).unwrap().discovery_time, 700_000);
    assert_eq!(map.evict_expired(1_000_000), 0);
    assert_eq!(map.len(), 1);
}

#[test]
fn wall_clock_operations() {
    let mut map = RelayMap::new();
    assert_eq!(map.bind_peer(key("a"), addr(1, 2, 3, 4, 5)), Ok(()));
    assert!(map.get(&key("a")).unwrap().discovery_time > 1_600_000_000_000);
    map.reset_peer_time(&key("a"));
    map.garbage_collect();
    assert!(map.has_peer(&key("a")));
    let p = PeerData::new(key("z"), addr(9, 9, 9, 9, 9));
    assert!(p.discovery_time > 1_600_000_000_000);
}

#[test]
fn mark_waiting_needs_registration() {
    let mut map = RelayMap::new();
    assert_eq!(map.mark_waiting(&key("a"), &key("b")), Err(RelayError::NotRegistered));
    map.bind_peer_at(key("a"), addr(1, 2, 3, 4, 5), 0).unwrap();
    assert_eq!(map.mark_waiting(&key("a"), &key("b")), Ok(()));
    let p = map.get(&key("a")).unwrap();
    assert!(p.waiting_punch);
    assert_eq!(p.waiting_for, Some(key("b")));
}

#[test]
fn find_waiting_for_scans_entries() {
    let mut map = RelayMap::new();
    map.bind_peer_at(key("a"), addr(1, 1, 1, 1, 1), 0).unwrap();
    map.bind_peer_at(key("b"), addr(2, 2, 2, 2, 2), 0).unwrap();
    assert!(map.find_waiting_for(&key("a")).is_none());
    map.mark_waiting(&key("b"), &key("a")).unwrap();
    assert_eq!(map.find_waiting_for(&key("a")).unwrap().public_key, "b");
    assert!(map.find_waiting_for(&key("b")).is_none());
}

#[test]
fn get_mut_updates_entry() {
    let mut map = RelayMap::new();
    map.bind_peer_at(key("a"), addr(1, 1, 1, 1, 1), 0).unwrap();
    assert!(map.get_mut(&key("missing")).is_none());
    map.get_mut(&key("a")).unwrap().discovery_time = 77;
    map.get_peerData_mut(&key("a")).waiting_punch = true;
    let p = map.get(&key("a")).unwrap();
    assert_eq!(p.discovery_time, 77);
    assert!(p.waiting_punch);
}

#[test]
fn snapshot_copies_entry() {
    let p = PeerData::new_at(key("a"), addr(1, 2, 3, 4, 5), 9);
    let q = p.snapshot();
    assert_eq!(q.public_key, p.public_key);
    assert_eq!(q.peer_addr, p.peer_addr);
    assert_eq!(q.discovery_time, 9);
}
