use librqbit::instances::protocol::{
    control_frame_len, default_inbound_codecs, default_outbound_codec, forward_fd_metadata_len,
    forward_metadata_len, frame_len, probe_decode_control, write_payload_frame, CodecError,
    ControlMessage, ForwardTcpFdMeta, ForwardTcpMeta, FrameError, InboundCodec, JsonProbeCodec,
    PeerAddr, PostcardCodec, ProbeError, WireCodec, MAX_FRAME_SIZE,
};

fn hash(b: u8) -> [u8; 20] {
    [b; 20]
}

fn v4() -> PeerAddr {
    PeerAddr::V4 {
        octets: [127, 0, 0, 1],
        port: 6881,
    }
}

/// What the default chain makes of a payload.
fn probe(payload: &[u8]) -> Result<(usize, ControlMessage), ProbeError> {
    probe_decode_control(payload, &default_inbound_codecs())
}

#[test]
fn bytes_of_each_control_message() {
    let codec = default_outbound_codec();
    assert_eq!(
        codec.encode_control(&ControlMessage::Hello {
            instance_id: "ab".to_string()
        }),
        vec![0, 2, b'a', b'b']
    );
    let mut two = vec![1u8, 2];
    two.extend([7u8; 20]);
    two.extend([9u8; 20]);
    assert_eq!(
        codec.encode_control(&ControlMessage::TorrentsAdded {
            info_hashes: vec![hash(7), hash(9)]
        }),
        two
    );
    two[0] = 2;
    assert_eq!(
        codec.encode_control(&ControlMessage::TorrentsRemoved {
            info_hashes: vec![hash(7), hash(9)]
        }),
        two
    );
    let mut asked = vec![3u8];
    asked.extend([7u8; 20]);
    assert_eq!(
        codec.encode_control(&ControlMessage::WhoHas { info_hash: hash(7) }),
        asked
    );
    asked[0] = 4;
    assert_eq!(
        codec.encode_control(&ControlMessage::IHas { info_hash: hash(7) }),
        asked
    );
    assert_eq!(codec.encode_control(&ControlMessage::Goodbye), vec![5]);
}

#[test]
fn long_texts_have_long_lengths() {
    let id: String = "x".repeat(300);
    let payload = PostcardCodec.encode_control(&ControlMessage::Hello {
        instance_id: id.clone(),
    });
    assert_eq!(payload[..3], [0, 0xac, 0x02]);
    assert_eq!(payload.len(), 303);
    assert!(
        matches!(probe(&payload), Ok((0, ControlMessage::Hello { instance_id })) if instance_id == id)
    );
}

#[test]
fn decoding_gives_encoded_messages_back() {
    let codec = PostcardCodec;
    let p = codec.encode_control(&ControlMessage::Hello {
        instance_id: "\u{e9}-1".to_string(),
    });
    assert!(
        matches!(probe(&p), Ok((0, ControlMessage::Hello { instance_id })) if instance_id == "\u{e9}-1")
    );
    let p = codec.encode_control(&ControlMessage::TorrentsAdded {
        info_hashes: vec![hash(1), hash(2)],
    });
    assert!(
        matches!(probe(&p), Ok((0, ControlMessage::TorrentsAdded { info_hashes })) if info_hashes == vec![hash(1), hash(2)])
    );
    let p = codec.encode_control(&ControlMessage::TorrentsRemoved {
        info_hashes: vec![],
    });
    assert!(
        matches!(probe(&p), Ok((0, ControlMessage::TorrentsRemoved { info_hashes })) if info_hashes.is_empty())
    );
    let p = codec.encode_control(&ControlMessage::WhoHas { info_hash: hash(3) });
    assert!(
        matches!(probe(&p), Ok((0, ControlMessage::WhoHas { info_hash })) if info_hash == hash(3))
    );
    let mut p = codec.encode_control(&ControlMessage::IHas { info_hash: hash(4) });
    p.push(99);
    assert!(
        matches!(probe(&p), Ok((0, ControlMessage::IHas { info_hash })) if info_hash == hash(4))
    );
    let p = codec.encode_control(&ControlMessage::Goodbye);
    assert!(matches!(probe(&p), Ok((0, ControlMessage::Goodbye))));
}

#[test]
fn what_no_codec_recognizes() {
    let cases: Vec<Vec<u8>> = vec![
        vec![],
        // No such message.
        vec![6],
        // A number that does not end.
        vec![0x80, 0x80, 0x80, 0x80, 0x80, 0x00],
        // A number of five digits that is too large.
        vec![0xff, 0xff, 0xff, 0xff, 0x1f],
        // A text that is cut short.
        vec![0, 3, b'a', b'b'],
        // A text that is not UTF-8.
        vec![0, 1, 0xff],
        // A hash that is cut short.
        vec![3, 1, 2, 3],
        // A list that is cut short.
        vec![1, 1, 2, 3],
    ];
    for case in cases {
        match probe(&case) {
            Err(ProbeError::Unrecognized { tried }) => {
                assert_eq!(tried, vec!["postcard".to_string(), "json/varlink".to_string()]);
            }
            other => panic!("{:?} was taken for {:?}", case, other),
        }
    }
}

#[test]
fn numbers_may_have_leading_zero_digits() {
    assert!(matches!(
        probe(&[0x85, 0x80, 0x00]),
        Ok((0, ControlMessage::Goodbye))
    ));
}

#[test]
fn json_is_reported_as_such() {
    match probe(b"{\"method\":\"hello\"}") {
        Err(ProbeError::Codec(e)) => {
            assert_eq!(e, CodecError::JsonControl);
            assert_eq!(
                e.message(),
                "JSON/varlink wire format detected but not yet supported. Ensure all rqbit instances use the same build (postcard). Varlink support tracked in rqbit-reuseport-varlink."
            );
        }
        other => panic!("{:?}", other),
    }
    let json = JsonProbeCodec;
    assert_eq!(json.name(), "json/varlink");
    assert!(json.try_decode_control(b"").is_none());
    assert!(matches!(
        json.try_decode_forward(b"{"),
        Some(Err(CodecError::JsonForward))
    ));
    assert!(json.try_decode_forward(b"x").is_none());
    assert!(matches!(
        json.try_decode_forward_fd(b"{"),
        Some(Err(CodecError::JsonForwardFd))
    ));
    assert!(json.try_decode_forward_fd(b"").is_none());
    assert_eq!(
        CodecError::JsonForward.message(),
        "JSON/varlink forward metadata not yet supported"
    );
    assert_eq!(
        CodecError::JsonForwardFd.message(),
        "JSON/varlink forward-fd metadata not yet supported"
    );
}

#[test]
fn the_default_chain_tries_postcard_first() {
    let names: Vec<&str> = default_inbound_codecs().iter().map(|c| c.name()).collect();
    assert_eq!(names, vec!["postcard", "json/varlink"]);
    let codec = InboundCodec::JsonProbe(JsonProbeCodec);
    assert!(matches!(
        codec.try_decode_forward(b"{"),
        Some(Err(CodecError::JsonForward))
    ));
    assert!(matches!(
        codec.try_decode_forward_fd(b"{"),
        Some(Err(CodecError::JsonForwardFd))
    ));
}

#[test]
fn a_chain_without_postcard_recognizes_only_json() {
    let chain = vec![JsonProbeCodec];
    assert!(matches!(
        probe_decode_control(&[5], &chain),
        Err(ProbeError::Unrecognized { .. })
    ));
    assert!(matches!(
        probe_decode_control(b"{", &chain),
        Err(ProbeError::Codec(CodecError::JsonControl))
    ));
}

#[test]
fn frames_announce_their_payload() {
    let mut buf = vec![0xaa];
    write_payload_frame(&mut buf, &[1, 2, 3]);
    assert_eq!(buf, vec![0xaa, 0, 0, 0, 3, 1, 2, 3]);
    assert_eq!(frame_len(&[0, 0, 0, 3]), 3);
    assert_eq!(frame_len(&[1, 2, 3, 4]), 0x01020304);
    let mut buf = Vec::new();
    write_payload_frame(&mut buf, &vec![7u8; 70_000]);
    assert_eq!(buf[..4], [0, 1, 0x11, 0x70]);
    assert_eq!(buf.len(), 70_004);
}

#[test]
fn lengths_that_are_not_taken() {
    assert_eq!(control_frame_len(&[0, 0, 0, 1]), Ok(1));
    assert_eq!(control_frame_len(&[0, 0x10, 0, 0]), Ok(MAX_FRAME_SIZE));
    assert_eq!(
        control_frame_len(&[0, 0, 0, 0]),
        Err(FrameError::InvalidLength(0))
    );
    assert_eq!(
        control_frame_len(&[0, 0x10, 0, 1]),
        Err(FrameError::InvalidLength(MAX_FRAME_SIZE + 1))
    );
    assert_eq!(forward_metadata_len(&[0, 0, 0, 0]), Ok(0));
    assert_eq!(
        forward_metadata_len(&[0, 0x10, 0, 1]),
        Err(FrameError::ForwardMetadataTooLarge(1_048_577))
    );
    assert_eq!(forward_fd_metadata_len(&[0, 0x10, 0, 0]), Ok(1_048_576));
    assert_eq!(
        forward_fd_metadata_len(&[0xff, 0xff, 0xff, 0xff]),
        Err(FrameError::ForwardFdMetadataTooLarge(0xffff_ffff))
    );
}

#[test]
fn bytes_of_forward_metadata() {
    let meta = ForwardTcpMeta {
        peer_addr: v4(),
        handshake: vec![1, 2],
        extra: vec![3],
    };
    let payload = PostcardCodec.encode_forward(&meta);
    // 6881 is 0x61 + 0x35 * 128.
    assert_eq!(
        payload,
        vec![0, 127, 0, 0, 1, 0xe1, 0x35, 2, 1, 2, 1, 3]
    );
    let back = PostcardCodec.decode_forward(&payload).unwrap();
    assert_eq!(back.peer_addr, v4());
    assert_eq!(back.handshake, vec![1, 2]);
    assert_eq!(back.extra, vec![3]);
    assert!(PostcardCodec.try_decode_forward(&payload).is_some());
    assert!(matches!(
        PostcardCodec.decode_forward(&payload[..11]),
        Err(FrameError::BadMetadata)
    ));
    assert!(PostcardCodec.try_decode_forward(&[]).is_none());
}

#[test]
fn addresses_lose_flow_label_and_scope() {
    let octets = [0x20, 1, 0xd, 0xb8, 0, 0, 0, 0, 0, 0, 0, 0, 0, 0, 0, 1];
    let payload = PostcardCodec.encode_forward_fd(&ForwardTcpFdMeta {
        peer_addr: PeerAddr::V6 {
            octets,
            port: 80,
            flowinfo: 5,
            scope_id: 6,
        },
    });
    let mut expected = vec![1u8];
    expected.extend(octets);
    expected.push(80);
    assert_eq!(payload, expected);
    let back = PostcardCodec.decode_forward_fd(&payload).unwrap();
    assert_eq!(
        back.peer_addr,
        PeerAddr::V6 {
            octets,
            port: 80,
            flowinfo: 0,
            scope_id: 0
        }
    );
    assert!(matches!(
        PostcardCodec.decode_forward_fd(&[2]),
        Err(FrameError::BadMetadata)
    ));
    // A port above 65535.
    assert!(PostcardCodec
        .try_decode_forward_fd(&[0, 1, 2, 3, 4, 0xff, 0xff, 0x04])
        .is_none());
    assert!(PostcardCodec
        .try_decode_forward_fd(&[0, 1, 2, 3, 4, 0xff, 0xff, 0x03])
        .is_some());
}

#[test]
fn refusals_in_words() {
    let unrecognized = probe(&[]).unwrap_err();
    assert_eq!(
        unrecognized.message(),
        "unrecognized wire format (tried: postcard, json/varlink)"
    );
    assert_eq!(
        ProbeError::Unrecognized { tried: vec![] }.message(),
        "unrecognized wire format (tried: )"
    );
    assert_eq!(
        probe(b"{").unwrap_err().message(),
        CodecError::JsonControl.message()
    );
    assert_eq!(
        forward_metadata_len(&[0x00, 0x10, 0x00, 0x01])
            .unwrap_err()
            .message(),
        "forward metadata too large: 1048577"
    );
    assert_eq!(
        forward_fd_metadata_len(&[0xff, 0xff, 0xff, 0xff])
            .unwrap_err()
            .message(),
        "forward-fd metadata too large: 4294967295"
    );
    assert_eq!(
        control_frame_len(&[0, 0, 0, 0]).unwrap_err().message(),
        "invalid first frame length 0"
    );
    assert_eq!(FrameError::BadMetadata.message(), "postcard decode error");
}
