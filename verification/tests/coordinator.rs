use librqbit::instances::coordinator::{
    connection_mode, ConnectionMode, CoordinatorError, FdDelivery, Outgoing, ReaderAction, ReaderEvent,
    StopReason,
};
use librqbit::instances::discovery::SocketEntry;
use librqbit::instances::fd_passing::RecvStep;
use librqbit::instances::protocol::{
    write_payload_frame, CodecError, ControlMessage, FrameError, PeerAddr, PostcardCodec,
    ProbeError,
};
use librqbit::instances::{ForwardMode, InstanceCoordinator};

type Coordinator = InstanceCoordinator<u32, &'static str>;

fn hash(b: u8) -> [u8; 20] {
    [b; 20]
}

fn instance(id: &str) -> Coordinator {
    Coordinator::new(id.to_string(), "/run/rqbit".to_string())
}

fn frame_of(msg: &ControlMessage) -> Vec<u8> {
    let mut frame = Vec::new();
    write_payload_frame(&mut frame, &PostcardCodec.encode_control(msg));
    frame
}

/// What is sent to whom, sorted.
fn sent(out: Vec<Outgoing>) -> Vec<(String, Vec<u8>)> {
    let mut sent: Vec<(String, Vec<u8>)> =
        out.into_iter().map(|o| (o.peer_id, o.frame)).collect();
    sent.sort();
    sent
}

/// Makes `to` take a frame from `from`; the answer.
fn deliver(to: &mut Coordinator, from: &str, frame: &[u8]) -> Option<Outgoing> {
    let header = [frame[0], frame[1], frame[2], frame[3]];
    match to.peer_reader_step(&from.to_string(), 0, ReaderEvent::Header(header)) {
        ReaderAction::ReadBody(n) => assert_eq!(n, frame.len() - 4),
        other => panic!("{:?}", other),
    }
    match to.peer_reader_step(&from.to_string(), 0, ReaderEvent::Body(frame[4..].to_vec())) {
        ReaderAction::ReadHeader(Ok(answer)) => answer,
        other => panic!("{:?}", other),
    }
}

/// Cuts bytes into frames.
fn frames(mut bytes: &[u8]) -> Vec<Vec<u8>> {
    let mut frames = Vec::new();
    while !bytes.is_empty() {
        let n = u32::from_be_bytes([bytes[0], bytes[1], bytes[2], bytes[3]]) as usize;
        frames.push(bytes[..4 + n].to_vec());
        bytes = &bytes[4 + n..];
    }
    frames
}

/// Connects `a` to `b`, as far as the greetings of both.
fn connect(a: &mut Coordinator, b: &mut Coordinator) {
    let greeting = a.connect_greeting();
    assert_eq!(connection_mode(greeting[0]), ConnectionMode::Control);
    let hello = frames(&greeting[1..]);
    let incoming = b.handle_incoming_control(&hello[0][4..]).unwrap();
    assert_eq!(incoming.peer_id, a.instance_id());
    assert_eq!(incoming.codec_idx, 0);
    let b_id = b.instance_id().to_string();
    let b_path = b.socket_path().to_string();
    a.connect_to_peer(b_id.clone(), b_path, 1);
    b.accept_peer(incoming.peer_id.clone(), 2);
    for frame in &hello[1..] {
        assert!(deliver(b, &incoming.peer_id, frame).is_none());
    }
    for frame in frames(&incoming.reply) {
        assert!(deliver(a, &b_id, &frame).is_none());
    }
}

#[test]
fn a_new_instance() {
    let c = instance("me");
    assert_eq!(c.instance_id(), "me");
    assert_eq!(c.socket_path(), "/run/rqbit/me.sock");
    assert_eq!(c.socket_dir(), "/run/rqbit");
    assert_eq!(c.forward_mode(), ForwardMode::FdPass);
    assert!(c.forward_handler().is_none());
    assert!(!c.is_cancelled());
    assert!(c.peer_ids().is_empty());
    assert_eq!(c.lookup(&hash(1)), None);
}

#[test]
fn an_instance_starts_under_a_new_name() {
    let c = Coordinator::start(0x77, Some("/run/user/5".to_string()));
    assert!(c.instance_id().starts_with("00000077-"));
    assert_eq!(c.instance_id().len(), 25);
    assert_eq!(
        c.socket_path(),
        format!("/run/user/5/rqbit/{}.sock", c.instance_id())
    );
    let d = Coordinator::start(0x77, None);
    assert_eq!(d.socket_dir(), "/tmp/rqbit");
    assert_ne!(c.instance_id(), d.instance_id());
}

#[test]
fn settings_are_kept() {
    let mut c = instance("me");
    c.set_forward_mode(ForwardMode::StreamProxy);
    assert_eq!(c.forward_mode(), ForwardMode::StreamProxy);
    c.set_forward_handler("handler");
    assert_eq!(c.forward_handler(), Some(&"handler"));
}

#[test]
fn connecting_shares_torrents_both_ways() {
    let mut a = instance("a");
    let mut b = instance("b");
    a.announce_torrent(&hash(1));
    a.announce_torrent(&hash(2));
    b.announce_torrent(&hash(3));
    connect(&mut a, &mut b);
    assert_eq!(b.lookup(&hash(1)), Some("a".to_string()));
    assert_eq!(b.lookup(&hash(2)), Some("a".to_string()));
    assert_eq!(a.lookup(&hash(3)), Some("b".to_string()));
    assert_eq!(a.peer(&"b".to_string()).map(|p| p.sender), Some(1));
    assert_eq!(
        b.peer(&"a".to_string()).map(|p| p.socket_path.clone()),
        Some("/run/rqbit/a.sock".to_string())
    );
    // Neither finds its own torrents elsewhere.
    assert_eq!(a.lookup(&hash(1)), None);
    assert_eq!(b.lookup(&hash(3)), None);
}

#[test]
fn started_instances_hear_each_other() {
    let mut a = Coordinator::start(1, None);
    let mut b = Coordinator::start(1, None);
    a.announce_torrent(&hash(4));
    connect(&mut a, &mut b);
    assert_eq!(b.peer_ids(), vec![a.instance_id().to_string()]);
    assert_eq!(b.lookup(&hash(4)), Some(a.instance_id().to_string()));
}

#[test]
fn greetings_name_torrents_only_if_there_are_any() {
    let mut c = instance("me");
    let hello = frame_of(&ControlMessage::Hello {
        instance_id: "me".to_string(),
    });
    let mut expected = vec![1u8];
    expected.extend(&hello);
    assert_eq!(c.connect_greeting(), expected);
    c.announce_torrent(&hash(9));
    expected.extend(frame_of(&ControlMessage::TorrentsAdded {
        info_hashes: vec![hash(9)],
    }));
    assert_eq!(c.connect_greeting(), expected);
    let payload = PostcardCodec.encode_control(&ControlMessage::Hello {
        instance_id: "you".to_string(),
    });
    assert_eq!(
        c.handle_incoming_control(&payload).unwrap().reply,
        expected[1..].to_vec()
    );
}

#[test]
fn torrents_are_announced_to_every_peer_and_withdrawn() {
    let mut a = instance("a");
    let mut b = instance("b");
    let mut c = instance("c");
    connect(&mut a, &mut b);
    connect(&mut a, &mut c);
    let added = frame_of(&ControlMessage::TorrentsAdded {
        info_hashes: vec![hash(5)],
    });
    let out = sent(a.announce_torrent(&hash(5)));
    assert_eq!(
        out,
        vec![
            ("b".to_string(), added.clone()),
            ("c".to_string(), added.clone())
        ]
    );
    assert!(deliver(&mut b, "a", &out[0].1).is_none());
    assert_eq!(b.lookup(&hash(5)), Some("a".to_string()));

    a.announce_torrent(&hash(5));
    a.announce_torrent(&hash(6));
    let removed = frame_of(&ControlMessage::TorrentsRemoved {
        info_hashes: vec![hash(5)],
    });
    let out = sent(a.unannounce_torrent(&hash(5)));
    assert_eq!(
        out,
        vec![
            ("b".to_string(), removed.clone()),
            ("c".to_string(), removed)
        ]
    );
    assert!(deliver(&mut b, "a", &out[0].1).is_none());
    assert_eq!(b.lookup(&hash(5)), None);
    // Announced twice, withdrawn once: only the other torrent is left.
    let mut rest = vec![1u8];
    rest.extend(frame_of(&ControlMessage::Hello {
        instance_id: "a".to_string(),
    }));
    rest.extend(frame_of(&ControlMessage::TorrentsAdded {
        info_hashes: vec![hash(6)],
    }));
    assert_eq!(a.connect_greeting(), rest);
}

#[test]
fn asking_around_finds_the_owner() {
    let mut a = instance("a");
    let mut b = instance("b");
    let mut c = instance("c");
    connect(&mut a, &mut b);
    connect(&mut a, &mut c);
    // The announcement itself gets lost.
    b.announce_torrent(&hash(8));
    let (found, out) = a.who_has(&hash(8));
    assert_eq!(found, None);
    let out = sent(out);
    let question = frame_of(&ControlMessage::WhoHas { info_hash: hash(8) });
    assert_eq!(
        out,
        vec![
            ("b".to_string(), question.clone()),
            ("c".to_string(), question.clone())
        ]
    );
    let answer = deliver(&mut b, "a", &question).unwrap();
    assert_eq!(answer.peer_id, "a");
    assert_eq!(
        answer.frame,
        frame_of(&ControlMessage::IHas { info_hash: hash(8) })
    );
    assert!(deliver(&mut c, "a", &question).is_none());
    assert!(deliver(&mut a, "b", &answer.frame).is_none());
    let (found, out) = a.who_has(&hash(8));
    assert_eq!(found, Some("b".to_string()));
    assert!(out.is_empty());
}

#[test]
fn an_answer_to_nobody_connected_is_an_error() {
    let mut a = instance("a");
    a.announce_torrent(&hash(1));
    let r = a.handle_control_message(
        &"b".to_string(),
        &ControlMessage::WhoHas { info_hash: hash(1) },
    );
    assert!(matches!(r, Err(CoordinatorError::NotConnected(id)) if id == "b"));
    let r = a.handle_control_message(
        &"b".to_string(),
        &ControlMessage::WhoHas { info_hash: hash(2) },
    );
    assert!(matches!(r, Ok(None)));
    let r = a.send_to_peer(&"b".to_string(), &ControlMessage::Goodbye);
    assert!(matches!(r, Err(CoordinatorError::NotConnected(id)) if id == "b"));
}

#[test]
fn a_goodbye_erases_the_peer_and_its_routes() {
    let mut a = instance("a");
    let mut b = instance("b");
    let mut c = instance("c");
    b.announce_torrent(&hash(1));
    c.announce_torrent(&hash(2));
    connect(&mut a, &mut b);
    connect(&mut a, &mut c);
    let out = b.shutdown();
    assert!(b.is_cancelled());
    assert_eq!(out.len(), 1);
    assert_eq!(out[0].frame, vec![0, 0, 0, 1, 5]);
    deliver(&mut a, "b", &out[0].frame);
    assert_eq!(a.peer_ids(), vec!["c".to_string()]);
    assert_eq!(a.lookup(&hash(1)), None);
    assert_eq!(a.lookup(&hash(2)), Some("c".to_string()));
}

#[test]
fn losing_a_connection_erases_the_peer() {
    for event in [ReaderEvent::ReadFailed, ReaderEvent::Cancelled] {
        let mut a = instance("a");
        let mut b = instance("b");
        b.announce_torrent(&hash(1));
        connect(&mut a, &mut b);
        let reason = match event {
            ReaderEvent::Cancelled => StopReason::Cancelled,
            _ => StopReason::ReadFailed,
        };
        let action = a.peer_reader_step(&"b".to_string(), 0, event);
        assert!(matches!(action, ReaderAction::Stop(r) if r == reason));
        assert!(a.peer_ids().is_empty());
        assert_eq!(a.lookup(&hash(1)), None);
    }
}

#[test]
fn frames_that_end_a_connection() {
    let stops: Vec<(usize, ReaderEvent, StopReason)> = vec![
        (
            0,
            ReaderEvent::Header([0, 0, 0, 0]),
            StopReason::InvalidLength(0),
        ),
        (
            0,
            ReaderEvent::Header([0, 0x10, 0, 1]),
            StopReason::InvalidLength(1_048_577),
        ),
        (0, ReaderEvent::Body(vec![9]), StopReason::OtherFormat),
        (0, ReaderEvent::Body(b"{}".to_vec()), StopReason::OtherFormat),
        (
            1,
            ReaderEvent::Body(b"{}".to_vec()),
            StopReason::Undecodable(CodecError::JsonControl),
        ),
    ];
    for (codec_idx, event, reason) in stops {
        let mut a = instance("a");
        a.connect_to_peer("b".to_string(), "/b".to_string(), 0);
        let action = a.peer_reader_step(&"b".to_string(), codec_idx, event);
        assert!(matches!(action, ReaderAction::Stop(r) if r == reason));
        assert!(a.peer_ids().is_empty());
    }
    let mut a = instance("a");
    a.connect_to_peer("b".to_string(), "/b".to_string(), 0);
    let action = a.peer_reader_step(&"b".to_string(), 0, ReaderEvent::Header([0, 0x10, 0, 0]));
    assert!(matches!(action, ReaderAction::ReadBody(1_048_576)));
    assert_eq!(a.peer_ids(), vec!["b".to_string()]);
}

#[test]
fn a_hello_within_a_connection_changes_nothing() {
    let mut a = instance("a");
    a.connect_to_peer("b".to_string(), "/b".to_string(), 0);
    let hello = frame_of(&ControlMessage::Hello {
        instance_id: "z".to_string(),
    });
    assert!(deliver(&mut a, "b", &hello).is_none());
    assert_eq!(a.peer_ids(), vec!["b".to_string()]);
}

#[test]
fn a_control_connection_opens_with_a_hello() {
    let a = instance("a");
    let goodbye = PostcardCodec.encode_control(&ControlMessage::Goodbye);
    assert!(matches!(
        a.handle_incoming_control(&goodbye),
        Err(CoordinatorError::ExpectedHello)
    ));
    assert!(matches!(
        a.handle_incoming_control(b"{"),
        Err(CoordinatorError::Probe(ProbeError::Codec(
            CodecError::JsonControl
        )))
    ));
    match a.handle_incoming_control(&[0xff]) {
        Err(CoordinatorError::Probe(ProbeError::Unrecognized { tried })) => {
            assert_eq!(tried.join(", "), "postcard, json/varlink");
        }
        other => panic!("{:?}", other),
    }
}

#[test]
fn connections_are_told_by_their_first_byte() {
    assert_eq!(connection_mode(1), ConnectionMode::Control);
    assert_eq!(connection_mode(2), ConnectionMode::ForwardTcp);
    assert_eq!(connection_mode(3), ConnectionMode::ForwardTcpFd);
    assert_eq!(connection_mode(0), ConnectionMode::Unknown(0));
    assert_eq!(connection_mode(200), ConnectionMode::Unknown(200));
}

#[test]
fn a_torrent_that_only_others_have_is_found() {
    let mut a = instance("a");
    a.connect_to_peer("b".to_string(), "/b".to_string(), 0);
    let i_have = frame_of(&ControlMessage::IHas { info_hash: hash(1) });
    deliver(&mut a, "b", &i_have);
    assert_eq!(a.lookup(&hash(1)), Some("b".to_string()));
    // With a route to itself as well, either may come up; itself is never named.
    a.announce_torrent(&hash(1));
    assert_ne!(a.lookup(&hash(1)), Some("a".to_string()));
}

#[test]
fn connecting_again_replaces_the_connection() {
    let mut a = instance("a");
    a.connect_to_peer("b".to_string(), "/one".to_string(), 1);
    a.connect_to_peer("b".to_string(), "/two".to_string(), 2);
    assert_eq!(a.peer_ids(), vec!["b".to_string()]);
    assert_eq!(a.peer(&"b".to_string()).map(|p| p.sender), Some(2));
    assert_eq!(a.broadcast(&ControlMessage::Goodbye).len(), 1);
    a.remove_peer(&"b".to_string());
    assert!(a.peer(&"b".to_string()).is_none());
    a.remove_peer(&"b".to_string());
    assert!(a.peer_ids().is_empty());
}

#[test]
fn routes_of_an_unconnected_instance_outlive_its_removal() {
    let mut a = instance("a");
    let b = "b".to_string();
    a.handle_control_message(&b, &ControlMessage::IHas { info_hash: hash(1) })
        .unwrap();
    a.remove_peer(&b);
    assert_eq!(a.lookup(&hash(1)), Some(b));
}

#[test]
fn discovery_plans_for_this_instance() {
    let mut a = instance("a");
    a.connect_to_peer("gone".to_string(), "/x".to_string(), 0);
    let entries: Vec<SocketEntry> = ["a.sock", "b.sock", "readme"]
        .iter()
        .map(|n| SocketEntry {
            file_name: Some(n.to_string()),
            path: format!("/run/rqbit/{n}"),
        })
        .collect();
    let plan = a.discover_peers(&entries);
    assert_eq!(plan.connect.len(), 1);
    assert_eq!(plan.connect[0].instance_id, "b");
    assert_eq!(plan.connect[0].socket_path, "/run/rqbit/b.sock");
    assert_eq!(plan.gone, vec!["gone".to_string()]);
}

fn addr() -> PeerAddr {
    PeerAddr::V4 {
        octets: [10, 0, 0, 7],
        port: 80,
    }
}

#[test]
fn a_forwarded_stream_arrives_with_what_was_read() {
    let mut a = instance("a");
    let mut b = instance("b");
    assert!(matches!(
        a.forward_tcp_stream(&"b".to_string(), addr(), &[], &[]),
        Err(CoordinatorError::NotConnected(id)) if id == "b"
    ));
    connect(&mut a, &mut b);
    // The receiver takes both ways of forwarding, whatever it prefers itself.
    b.set_forward_mode(ForwardMode::FdPass);
    let plan = a
        .forward_tcp_stream(&"b".to_string(), addr(), &[1, 2], &[3])
        .unwrap();
    assert_eq!(plan.socket_path, "/run/rqbit/b.sock");
    assert_eq!(
        plan.opening,
        vec![2, 0, 0, 0, 11, 0, 10, 0, 0, 7, 80, 2, 1, 2, 1, 3]
    );
    let payload = &plan.opening[5..];
    assert!(matches!(
        b.handle_incoming_forward(payload),
        Err(CoordinatorError::NoForwardHandler)
    ));
    assert!(matches!(
        b.handle_incoming_forward(&payload[1..]),
        Err(CoordinatorError::Metadata(FrameError::BadMetadata))
    ));
    b.set_forward_handler("handler");
    let incoming = b.handle_incoming_forward(payload).unwrap();
    assert_eq!(incoming.peer_addr, addr());
    assert_eq!(incoming.prefix, vec![1, 2, 3]);
}

#[test]
fn a_handed_over_socket_arrives_with_its_address() {
    let mut a = instance("a");
    let mut b = instance("b");
    assert!(matches!(
        a.forward_tcp_fd(&"b".to_string(), addr()),
        Err(CoordinatorError::NotConnected(id)) if id == "b"
    ));
    connect(&mut a, &mut b);
    b.set_forward_mode(ForwardMode::StreamProxy);
    let plan = a.forward_tcp_fd(&"b".to_string(), addr()).unwrap();
    assert_eq!(plan.socket_path, "/run/rqbit/b.sock");
    assert_eq!(plan.opening, vec![3, 0, 0, 0, 6, 0, 10, 0, 0, 7, 80]);
    assert!(
        matches!(b.handle_incoming_forward_fd(&plan.opening[5..]), Ok(got) if got == addr())
    );
    assert!(matches!(
        b.handle_incoming_forward_fd(&[]),
        Err(CoordinatorError::Metadata(FrameError::BadMetadata))
    ));
}

#[test]
fn lists_of_more_than_52428_torrents_are_not_taken() {
    for (n, fits) in [(52_428usize, true), (52_429, false)] {
        let frame = frame_of(&ControlMessage::TorrentsAdded {
            info_hashes: vec![hash(1); n],
        });
        let mut a = instance("a");
        a.connect_to_peer("b".to_string(), "/b".to_string(), 0);
        let header = [frame[0], frame[1], frame[2], frame[3]];
        let action = a.peer_reader_step(&"b".to_string(), 0, ReaderEvent::Header(header));
        assert_eq!(matches!(action, ReaderAction::ReadBody(_)), fits);
        assert_eq!(a.peer_ids().len(), if fits { 1 } else { 0 });
    }
}

#[test]
fn a_received_descriptor_goes_to_the_handler_or_is_dropped() {
    let mut a = instance("a");
    assert!(matches!(
        a.handle_received_fd(RecvStep::Take(7), addr()),
        Ok(FdDelivery::Drop { fd: 7 })
    ));
    assert!(matches!(
        a.handle_received_fd(RecvStep::NoDescriptor, addr()),
        Err(CoordinatorError::NoDescriptor)
    ));
    a.set_forward_handler("handler");
    match a.handle_received_fd(RecvStep::Take(7), addr()) {
        Ok(FdDelivery::HandOver { fd, peer_addr }) => {
            assert_eq!(fd, 7);
            assert_eq!(peer_addr, addr());
        }
        other => panic!("{:?}", other),
    }
    assert!(matches!(
        a.handle_received_fd(RecvStep::Retry, addr()),
        Ok(FdDelivery::Retry)
    ));
    assert!(matches!(
        a.handle_received_fd(RecvStep::Fail(9), addr()),
        Err(CoordinatorError::RecvFailed(9))
    ));
}

#[test]
fn asking_gives_what_looking_up_gives() {
    let mut a = instance("a");
    a.connect_to_peer("b".to_string(), "/b".to_string(), 0);
    a.connect_to_peer("c".to_string(), "/c".to_string(), 0);
    let i_have = frame_of(&ControlMessage::IHas { info_hash: hash(1) });
    deliver(&mut a, "b", &i_have);
    deliver(&mut a, "c", &i_have);
    a.announce_torrent(&hash(1));
    a.announce_torrent(&hash(2));
    for h in [hash(1), hash(2), hash(3)] {
        let (found, out) = a.who_has(&h);
        assert_eq!(found, a.lookup(&h));
        assert_eq!(out.len(), if found.is_some() { 0 } else { 2 });
        for o in out {
            let mut expected = vec![0, 0, 0, 21, 3];
            expected.extend(h);
            assert_eq!(o.frame, expected);
        }
    }
}

#[test]
fn coordinator_refusals_in_words() {
    let a = instance("a");
    assert_eq!(
        a.forward_tcp_fd(&"zed".to_string(), addr())
            .unwrap_err()
            .message(),
        "peer zed not connected"
    );
    assert_eq!(
        a.handle_incoming_control(&[]).unwrap_err().message(),
        "unrecognized wire format (tried: postcard, json/varlink)"
    );
    assert_eq!(
        a.handle_incoming_control(&[5]).unwrap_err().message(),
        "expected Hello as first message"
    );
    assert_eq!(
        a.handle_incoming_forward_fd(&[]).unwrap_err().message(),
        "postcard decode error"
    );
    assert_eq!(
        CoordinatorError::NoForwardHandler.message(),
        "forward received but no handler registered"
    );
    assert_eq!(
        CoordinatorError::NoDescriptor.message(),
        "forward-fd message arrived without SCM_RIGHTS"
    );
    assert_eq!(CoordinatorError::RecvFailed(9).message(), "recvmsg SCM_RIGHTS");
}

#[test]
fn a_connection_takes_its_messages_in_up_to_a_bad_frame() {
    let mut a = instance("a");
    a.connect_to_peer("b".to_string(), "/b".to_string(), 0);
    let stream: Vec<u8> = [
        frame_of(&ControlMessage::TorrentsAdded {
            info_hashes: vec![hash(1), hash(2)],
        }),
        frame_of(&ControlMessage::TorrentsRemoved {
            info_hashes: vec![hash(1)],
        }),
    ]
    .concat();
    for frame in frames(&stream) {
        deliver(&mut a, "b", &frame);
    }
    assert_eq!(a.lookup(&hash(1)), None);
    assert_eq!(a.lookup(&hash(2)), Some("b".to_string()));
    a.peer_reader_step(&"b".to_string(), 0, ReaderEvent::Header([0, 0, 0, 0]));
    assert_eq!(a.lookup(&hash(2)), None);
    assert!(a.peer_ids().is_empty());
}

#[test]
fn lookups_are_stable_while_the_same_instances_have_a_torrent() {
    let mut a = instance("a");
    for id in ["b", "c", "d"] {
        a.connect_to_peer(id.to_string(), format!("/{id}"), 0);
    }
    let i_have = frame_of(&ControlMessage::IHas { info_hash: hash(1) });
    deliver(&mut a, "b", &i_have);
    deliver(&mut a, "c", &i_have);
    let before = a.lookup(&hash(1));
    assert!(before.is_some());
    a.announce_torrent(&hash(2));
    deliver(&mut a, "c", &i_have);
    let added = frame_of(&ControlMessage::TorrentsAdded {
        info_hashes: vec![hash(2), hash(3)],
    });
    deliver(&mut a, "d", &added);
    a.unannounce_torrent(&hash(2));
    a.remove_peer(&"d".to_string());
    assert_eq!(a.lookup(&hash(1)), before);
}
