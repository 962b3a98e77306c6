use librqbit::instances::peers::{PeerHandle, PeerTable};
use librqbit::instances::routing::{contains_hash, same_hash, RoutingTable};

fn hash(b: u8) -> [u8; 20] {
    let mut h = [0u8; 20];
    h[19] = b;
    h
}

#[test]
fn what_was_added_is_found_until_it_is_removed() {
    let mut table = RoutingTable::new();
    assert_eq!(table.lookup(&hash(1)), None);
    table.add(&hash(1), "a".to_string());
    table.add(&hash(1), "a".to_string());
    table.add(&hash(2), "b".to_string());
    assert_eq!(table.lookup(&hash(1)), Some("a".to_string()));
    table.remove(&hash(1), &"b".to_string());
    assert_eq!(table.lookup(&hash(1)), Some("a".to_string()));
    table.remove(&hash(1), &"a".to_string());
    assert_eq!(table.lookup(&hash(1)), None);
    assert_eq!(table.lookup(&hash(2)), Some("b".to_string()));
    assert_eq!(table.snapshot(), vec![hash(2)]);
}

#[test]
fn many_come_and_go() {
    let mut table = RoutingTable::default();
    let a = "a".to_string();
    table.add(&hash(1), "b".to_string());
    table.add_many(&vec![hash(1), hash(2), hash(1)], &a);
    assert!(table.lookup(&hash(1)).is_some());
    assert_eq!(table.lookup(&hash(2)), Some(a.clone()));
    table.remove_many(&vec![hash(1), hash(2), hash(3)], &a);
    assert_eq!(table.lookup(&hash(1)), Some("b".to_string()));
    assert_eq!(table.lookup(&hash(2)), None);
}

#[test]
fn a_forgotten_instance_has_nothing() {
    let mut table = RoutingTable::new();
    let a = "a".to_string();
    table.add_many(&vec![hash(1), hash(2), hash(3)], &a);
    table.add(&hash(2), "b".to_string());
    table.remove_instance(&a);
    assert_eq!(table.lookup(&hash(1)), None);
    assert_eq!(table.lookup(&hash(2)), Some("b".to_string()));
    assert_eq!(table.lookup(&hash(3)), None);
    assert_eq!(table.snapshot(), vec![hash(2)]);
}

#[test]
fn a_snapshot_names_each_torrent_once() {
    let mut table = RoutingTable::new();
    table.add_many(&vec![hash(1), hash(2)], &"a".to_string());
    table.add_many(&vec![hash(2), hash(3)], &"b".to_string());
    let mut hashes = table.snapshot();
    hashes.sort();
    assert_eq!(hashes, vec![hash(1), hash(2), hash(3)]);
}

#[test]
fn hashes_differ_in_any_byte() {
    assert!(same_hash(&hash(1), &hash(1)));
    assert!(!same_hash(&hash(1), &hash(2)));
    assert!(contains_hash(&vec![hash(1), hash(2)], &hash(2)));
    assert!(!contains_hash(&vec![hash(1), hash(2)], &hash(3)));
    assert!(!contains_hash(&vec![], &hash(3)));
}

#[test]
fn peers_are_held_by_name() {
    let mut peers: PeerTable<u32> = PeerTable::new();
    let a = "a".to_string();
    let b = "b".to_string();
    peers.insert(
        a.clone(),
        PeerHandle {
            socket_path: "/a".to_string(),
            sender: 1,
        },
    );
    peers.insert(
        b.clone(),
        PeerHandle {
            socket_path: "/b".to_string(),
            sender: 2,
        },
    );
    peers.insert(
        a.clone(),
        PeerHandle {
            socket_path: "/a2".to_string(),
            sender: 3,
        },
    );
    assert_eq!(peers.get(&a).map(|p| p.sender), Some(3));
    assert_eq!(peers.get(&a).map(|p| p.socket_path.as_str()), Some("/a2"));
    let mut ids = peers.ids();
    ids.sort();
    assert_eq!(ids, vec![a.clone(), b.clone()]);
    assert!(peers.remove(&a));
    assert!(!peers.remove(&a));
    assert!(peers.get(&a).is_none());
    assert_eq!(peers.get(&b).map(|p| p.sender), Some(2));
}

#[test]
fn lookups_of_other_torrents_name_the_same_instance() {
    let mut table = RoutingTable::new();
    for id in ["a", "b", "c"] {
        table.add_many(&vec![hash(1), hash(2)], &id.to_string());
    }
    let before = table.lookup(&hash(1));
    table.add(&hash(2), "d".to_string());
    table.add(&hash(3), "a".to_string());
    table.add(&hash(1), "b".to_string());
    assert_eq!(table.lookup(&hash(1)), before);
    table.remove(&hash(2), &"a".to_string());
    table.remove_many(&vec![hash(2), hash(3)], &"b".to_string());
    table.remove(&hash(1), &"d".to_string());
    table.remove_instance(&"d".to_string());
    assert_eq!(table.lookup(&hash(1)), before);
}
