use librqbit::instances::discovery::{
    plan_discovery, DiscoveryAction, DiscoveryEvent, DiscoveryLoop, SocketEntry,
    DISCOVERY_FALLBACK_INTERVAL_SECS, DISCOVERY_INTERVAL_SECS,
};
use librqbit::instances::peers::{PeerHandle, PeerTable};
use librqbit::instances::sockets::{
    concerns_sockets, generate_instance_id, get_socket_dir, instance_id_from, is_socket_file,
    is_stale_socket, join_path, make_socket_path, peer_from_socket_name,
};

#[test]
fn names_are_hexadecimal() {
    assert_eq!(
        instance_id_from(0x2a, 0xdead_beef),
        "0000002a-00000000deadbeef"
    );
    assert_eq!(
        instance_id_from(u32::MAX, u64::MAX),
        "ffffffff-ffffffffffffffff"
    );
    assert_eq!(instance_id_from(0, 0), "00000000-0000000000000000");
}

#[test]
fn new_names_are_random() {
    let a = generate_instance_id(0x1234);
    let b = generate_instance_id(0x1234);
    assert_eq!(a.len(), 25);
    assert!(a.starts_with("00001234-"));
    assert_ne!(a, b);
}

#[test]
fn paths_are_joined() {
    assert_eq!(join_path("/run", "x"), "/run/x");
    assert_eq!(join_path("/run/", "x"), "/run/x");
    assert_eq!(join_path("", "x"), "x");
    assert_eq!(join_path("/run", "/x"), "/x");
    assert_eq!(make_socket_path("/run/rqbit", &"id".to_string()), "/run/rqbit/id.sock");
    assert_eq!(
        get_socket_dir(Some("/run/user/1000".to_string())),
        "/run/user/1000/rqbit"
    );
    assert_eq!(get_socket_dir(None), "/tmp/rqbit");
}

#[test]
fn sockets_are_told_by_their_extension() {
    assert!(is_socket_file(b"a.sock"));
    assert!(is_socket_file(b"a.b.sock"));
    assert!(!is_socket_file(b".sock"));
    assert!(!is_socket_file(b"a.socks"));
    assert!(!is_socket_file(b"asock"));
    assert!(!is_socket_file(b"sock"));
    assert!(is_stale_socket(b"a.sock", false));
    assert!(!is_stale_socket(b"a.sock", true));
    assert!(!is_stale_socket(b"a.txt", false));
    assert!(concerns_sockets(&vec![b"x".to_vec(), b"a.sock".to_vec()]));
    assert!(!concerns_sockets(&vec![b"x".to_vec()]));
    assert!(!concerns_sockets(&vec![]));
}

#[test]
fn sockets_tell_their_instance() {
    let own = "me".to_string();
    assert_eq!(
        peer_from_socket_name("you.sock", &own),
        Some("you".to_string())
    );
    assert_eq!(peer_from_socket_name("me.sock", &own), None);
    assert_eq!(peer_from_socket_name("you.txt", &own), None);
    assert_eq!(peer_from_socket_name("sock", &own), None);
    assert_eq!(peer_from_socket_name(".sock", &own), Some(String::new()));
}

fn entry(name: Option<&str>) -> SocketEntry {
    SocketEntry {
        file_name: name.map(|n| n.to_string()),
        path: format!("/d/{}", name.unwrap_or("?")),
    }
}

#[test]
fn a_plan_connects_the_new_and_drops_the_gone() {
    let mut peers: PeerTable<()> = PeerTable::new();
    for id in ["old", "gone"] {
        peers.insert(
            id.to_string(),
            PeerHandle {
                socket_path: String::new(),
                sender: (),
            },
        );
    }
    let entries = vec![
        entry(Some("new1.sock")),
        entry(Some("me.sock")),
        entry(None),
        entry(Some("old.sock")),
        entry(Some("notes.txt")),
        entry(Some("new2.sock")),
    ];
    let plan = plan_discovery(&entries, &"me".to_string(), &peers);
    let connect: Vec<(&str, &str)> = plan
        .connect
        .iter()
        .map(|p| (p.instance_id.as_str(), p.socket_path.as_str()))
        .collect();
    assert_eq!(
        connect,
        vec![("new1", "/d/new1.sock"), ("new2", "/d/new2.sock")]
    );
    assert_eq!(plan.gone, vec!["gone".to_string()]);
}

#[test]
fn nothing_to_do_without_sockets_or_peers() {
    let peers: PeerTable<()> = PeerTable::new();
    let plan = plan_discovery(&vec![], &"me".to_string(), &peers);
    assert!(plan.connect.is_empty());
    assert!(plan.gone.is_empty());
}

#[test]
fn discovery_polls_often_when_nobody_watches() {
    let mut watched = DiscoveryLoop::new();
    assert!(!watched.events_alive);
    assert_eq!(
        watched.step(DiscoveryEvent::Started),
        DiscoveryAction::Discover
    );
    assert_eq!(
        watched.step(DiscoveryEvent::Watching(true)),
        DiscoveryAction::RestartInterval
    );
    assert_eq!(watched.interval_secs, 60);
    assert_eq!(DISCOVERY_INTERVAL_SECS, 60);
    assert_eq!(
        watched.step(DiscoveryEvent::SocketChanged),
        DiscoveryAction::Discover
    );
    assert_eq!(watched.step(DiscoveryEvent::Tick), DiscoveryAction::Discover);
    assert!(watched.events_alive);
    assert_eq!(
        watched.step(DiscoveryEvent::WatcherClosed),
        DiscoveryAction::RestartInterval
    );
    assert!(!watched.events_alive);
    assert_eq!(watched.interval_secs, DISCOVERY_FALLBACK_INTERVAL_SECS);
    assert_eq!(watched.step(DiscoveryEvent::Tick), DiscoveryAction::Discover);
    assert_eq!(
        watched.step(DiscoveryEvent::Cancelled),
        DiscoveryAction::Stop
    );

    let mut unwatched = DiscoveryLoop::new();
    assert_eq!(
        unwatched.step(DiscoveryEvent::Started),
        DiscoveryAction::Discover
    );
    assert_eq!(
        unwatched.step(DiscoveryEvent::Watching(false)),
        DiscoveryAction::RestartInterval
    );
    assert_eq!(unwatched.interval_secs, 5);
    assert!(!unwatched.events_alive);
}
