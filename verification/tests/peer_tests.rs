use nodp2p::config::AppConfig;
use nodp2p::peer::{PeerId, PeerManager};

#[test]
fn peer_manager_add_remove_contains_all() {
    let mut m = PeerManager::default();
    let a = PeerId::from_bytes(vec![1]);
    let b = PeerId::from_bytes(vec![2]);
    m.add(PeerId::from_bytes(vec![1]));
    m.add(PeerId::from_bytes(vec![1]));
    m.add(PeerId::from_bytes(vec![2]));
    assert!(m.contains(&a) && m.contains(&b));
    assert_eq!(m.all().len(), 2);
    m.remove(&a);
    assert!(!m.contains(&a));
    m.remove(&a);
    let all = m.all();
    assert_eq!(all.len(), 1);
    assert_eq!(all[0].bytes, vec![2]);
}

#[test]
fn same_as_compares_bytes() {
    assert!(PeerId::from_bytes(vec![1, 2]).same_as(&PeerId::from_bytes(vec![1, 2])));
    assert!(!PeerId::from_bytes(vec![1, 2]).same_as(&PeerId::from_bytes(vec![1])));
}

#[test]
fn config_builders() {
    let c = AppConfig::new();
    assert!(c.enable_mdns);
    assert!(c.identity_path.is_none());
    let c = AppConfig::default().with_mdns(false).with_identity_path(std::path::PathBuf::from("k.bin"));
    assert!(!c.enable_mdns);
    assert_eq!(c.identity_path, Some(std::path::PathBuf::from("k.bin")));
}
