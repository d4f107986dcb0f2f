use screen_broadcast::discovery::{
    datagram_body, frame_datagram, generate_id, DiscoveryMessage, DiscoveryService, PeerInfo,
    PeerRole, ANNOUNCE_INTERVAL_MS, DISCOVERY_MAGIC, DISCOVERY_PORT, PEER_TIMEOUT_MS,
    PROTOCOL_VERSION,
};

fn service(id: &str, role: PeerRole) -> DiscoveryService {
    DiscoveryService::with_id(id.to_string(), "node", role, 5000, "10.0.0.1".to_string())
}

fn peer(id: &str, role: PeerRole, ip: &str) -> PeerInfo {
    PeerInfo {
        id: id.to_string(),
        name: format!("name-{}", id),
        role,
        ip: ip.to_string(),
        stream_port: 5000,
        version: "0.1.0".to_string(),
    }
}

#[test]
fn constants_of_the_protocol() {
    assert_eq!(DISCOVERY_PORT, 5001);
    assert_eq!(&DISCOVERY_MAGIC, b"SCRSHARE");
    assert_eq!(ANNOUNCE_INTERVAL_MS, 2000);
    assert_eq!(PEER_TIMEOUT_MS, 10_000);
}

#[test]
fn datagram_is_magic_then_body() {
    let d = frame_datagram(b"{\"Query\":null}");
    assert_eq!(&d[..8], b"SCRSHARE");
    assert_eq!(&d[8..], b"{\"Query\":null}");
    assert_eq!(datagram_body(&d), Some(&b"{\"Query\":null}"[..]));
    assert_eq!(frame_datagram(&[]), b"SCRSHARE".to_vec());
    assert_eq!(datagram_body(b"SCRSHARE"), Some(&b""[..]));
}

#[test]
fn datagram_without_magic_is_dropped() {
    assert_eq!(datagram_body(b""), None);
    assert_eq!(datagram_body(b"SCRSHAR"), None);
    assert_eq!(datagram_body(b"SCRSHARX{}"), None);
    assert_eq!(datagram_body(b"XCRSHARE{}"), None);
    assert_eq!(datagram_body(b"scrshare{}"), None);
}

#[test]
fn new_service_knows_itself_and_nobody_else() {
    let mut s = DiscoveryService::new("Alice", PeerRole::Teacher, 5000, "192.168.1.2".to_string());
    assert!(!s.is_running());
    let info = s.local_info().clone();
    assert_eq!(info.name, "Alice");
    assert_eq!(info.role, PeerRole::Teacher);
    assert_eq!(info.ip, "192.168.1.2");
    assert_eq!(info.stream_port, 5000);
    assert_eq!(info.version, PROTOCOL_VERSION);
    assert!(!info.id.is_empty());
    assert!(info.id.chars().all(|c| c.is_ascii_hexdigit() && !c.is_ascii_uppercase()));
    assert!(s.get_peers(0).is_empty());
    s.start();
    assert!(s.is_running());
    s.stop();
    assert!(!s.is_running());
}

#[test]
fn generated_id_is_lower_case_hex_of_the_clock() {
    let id = generate_id();
    let nanos = u128::from_str_radix(&id, 16).unwrap();
    assert_eq!(format!("{:x}", nanos), id);
    let now = std::time::SystemTime::now()
        .duration_since(std::time::UNIX_EPOCH)
        .unwrap()
        .as_nanos();
    assert!(nanos <= now);
    assert!(now - nanos < 60_000_000_000);
}

#[test]
fn announce_and_query_messages() {
    let s = service("a1", PeerRole::Teacher);
    match s.announce() {
        DiscoveryMessage::Announce(p) => {
            assert_eq!(p.id, "a1");
            assert_eq!(p.name, "node");
            assert_eq!(p.role, PeerRole::Teacher);
            assert_eq!(p.ip, "10.0.0.1");
            assert_eq!(p.stream_port, 5000);
        }
        other => panic!("unexpected {:?}", other),
    }
    assert!(matches!(s.query(), DiscoveryMessage::Query));
}

#[test]
fn announcement_is_taken_with_the_source_address() {
    let mut s = service("a1", PeerRole::Teacher);
    let r = s.process(
        DiscoveryMessage::Announce(peer("b2", PeerRole::Student, "1.2.3.4")),
        "192.168.1.77".to_string(),
        1000,
    );
    assert!(r.reply.is_none());
    let found = r.discovered.unwrap();
    assert_eq!(found.id, "b2");
    assert_eq!(found.ip, "192.168.1.77");
    let peers = s.get_peers(1000);
    assert_eq!(peers.len(), 1);
    assert_eq!(peers[0].id, "b2");
    assert_eq!(peers[0].ip, "192.168.1.77");
    assert_eq!(peers[0].name, "name-b2");
    assert_eq!(peers[0].role, PeerRole::Student);
}

#[test]
fn known_peer_is_updated_and_not_reported_again() {
    let mut s = service("a1", PeerRole::Teacher);
    s.process(
        DiscoveryMessage::Announce(peer("b2", PeerRole::Student, "")),
        "10.0.0.2".to_string(),
        0,
    );
    s.process(
        DiscoveryMessage::Announce(peer("c3", PeerRole::Student, "")),
        "10.0.0.3".to_string(),
        0,
    );
    let r = s.process(
        DiscoveryMessage::Response(peer("b2", PeerRole::Student, "")),
        "10.0.0.9".to_string(),
        5000,
    );
    assert!(r.discovered.is_none());
    let peers = s.get_peers(5000);
    assert_eq!(peers.len(), 2);
    assert_eq!(peers[0].id, "b2");
    assert_eq!(peers[0].ip, "10.0.0.9");
    assert_eq!(peers[1].id, "c3");
    // b2 was refreshed at 5000, c3 was last seen at 0
    let peers = s.get_peers(12_000);
    assert_eq!(peers.len(), 1);
    assert_eq!(peers[0].id, "b2");
}

#[test]
fn own_announcement_is_never_a_peer() {
    let mut s = service("a1", PeerRole::Teacher);
    let own = s.announce();
    let r = s.process(own, "10.0.0.1".to_string(), 10);
    assert!(r.discovered.is_none());
    assert!(r.reply.is_none());
    assert!(s.get_peers(10).is_empty());
    let r = s.process(
        DiscoveryMessage::Response(peer("a1", PeerRole::Student, "")),
        "9.9.9.9".to_string(),
        20,
    );
    assert!(r.discovered.is_none());
    assert!(s.get_peers(20).is_empty());
}

#[test]
fn query_is_answered_with_a_response() {
    let mut s = service("a1", PeerRole::Teacher);
    let r = s.process(DiscoveryMessage::Query, "10.0.0.5".to_string(), 0);
    assert!(r.discovered.is_none());
    match r.reply {
        Some(DiscoveryMessage::Response(p)) => {
            assert_eq!(p.id, "a1");
            assert_eq!(p.role, PeerRole::Teacher);
        }
        other => panic!("unexpected {:?}", other),
    }
    assert!(s.get_peers(0).is_empty());
}

#[test]
fn peer_times_out_after_ten_seconds() {
    let mut s = service("a1", PeerRole::Teacher);
    s.process(
        DiscoveryMessage::Announce(peer("b2", PeerRole::Student, "")),
        "10.0.0.2".to_string(),
        1000,
    );
    assert_eq!(s.get_peers(1000).len(), 1);
    assert_eq!(s.get_peers(10_999).len(), 1);
    assert_eq!(s.get_peers(11_000).len(), 0);
    assert_eq!(s.get_peers(1000).len(), 0);
}

#[test]
fn peer_seen_in_the_future_is_live() {
    let mut s = service("a1", PeerRole::Teacher);
    s.process(
        DiscoveryMessage::Announce(peer("b2", PeerRole::Student, "")),
        "10.0.0.2".to_string(),
        5000,
    );
    assert_eq!(s.get_peers(0).len(), 1);
    assert_eq!(s.get_peers(u64::MAX).len(), 0);
}

#[test]
fn teachers_and_students_are_told_apart() {
    let mut s = service("a1", PeerRole::Teacher);
    for (id, role) in [
        ("anna", PeerRole::Teacher),
        ("ben", PeerRole::Student),
        ("cleo", PeerRole::Student),
        ("dora", PeerRole::Teacher),
    ] {
        s.process(DiscoveryMessage::Announce(peer(id, role, "")), "10.0.0.2".to_string(), 0);
    }
    let ids = |v: Vec<PeerInfo>| v.into_iter().map(|p| p.id).collect::<Vec<_>>();
    assert_eq!(ids(s.get_teachers(1)), vec!["anna", "dora"]);
    assert_eq!(ids(s.get_students(1)), vec!["ben", "cleo"]);
    assert_eq!(ids(s.get_peers(1)), vec!["anna", "ben", "cleo", "dora"]);
    assert!(s.get_teachers(20_000).is_empty());
    assert!(s.get_students(20_000).is_empty());
}

#[test]
fn two_nodes_find_each_other() {
    let mut a = DiscoveryService::with_id(
        "aaaa".to_string(),
        "teacher",
        PeerRole::Teacher,
        5000,
        "0.0.0.0".to_string(),
    );
    let mut b = DiscoveryService::with_id(
        "bbbb".to_string(),
        "student",
        PeerRole::Student,
        5000,
        "0.0.0.0".to_string(),
    );
    a.start();
    b.start();
    let mut now = 0;
    while now <= 4000 {
        let from_a = a.announce();
        let from_b = b.announce();
        // a broadcast reaches both nodes, the sender too
        a.process(a.announce(), "192.168.1.10".to_string(), now);
        b.process(from_a, "192.168.1.10".to_string(), now);
        a.process(from_b, "192.168.1.20".to_string(), now);
        b.process(b.announce(), "192.168.1.20".to_string(), now);
        now += ANNOUNCE_INTERVAL_MS;
    }
    let students = a.get_students(4000);
    assert_eq!(students.len(), 1);
    assert_eq!(students[0].id, "bbbb");
    assert_eq!(students[0].ip, "192.168.1.20");
    let teachers = b.get_teachers(4000);
    assert_eq!(teachers.len(), 1);
    assert_eq!(teachers[0].id, "aaaa");
    assert_eq!(teachers[0].ip, "192.168.1.10");
    assert!(a.get_teachers(4000).is_empty());
    assert!(b.get_students(4000).is_empty());
}

#[test]
fn query_round_between_two_nodes() {
    let mut a = service("aaaa", PeerRole::Teacher);
    let mut b = DiscoveryService::with_id(
        "bbbb".to_string(),
        "student",
        PeerRole::Student,
        5000,
        "0.0.0.0".to_string(),
    );
    let reply = a.process(b.query(), "192.168.1.20".to_string(), 0).reply.unwrap();
    let r = b.process(reply, "192.168.1.10".to_string(), 1);
    assert_eq!(r.discovered.unwrap().id, "aaaa");
    assert_eq!(b.get_teachers(1)[0].ip, "192.168.1.10");
    assert!(a.get_peers(1).is_empty());
}
