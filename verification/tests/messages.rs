use bytes::BytesMut;
use rinse::protocol::messages::{
    decode_string, encode_string, FileAttribute, MessageDecoder, MessageEncoder, PeerCode,
    PeerMessage, SearchFile, ServerCode, ServerMessage,
};
use rinse::wire::{message_frame, Halt, WireError};

fn text(s: &str) -> Vec<u8> {
    let mut v = (s.len() as u32).to_le_bytes().to_vec();
    v.extend_from_slice(s.as_bytes());
    v
}

fn word(n: u32) -> Vec<u8> {
    n.to_le_bytes().to_vec()
}

fn long(n: u64) -> Vec<u8> {
    n.to_le_bytes().to_vec()
}

fn framed(code: u32, parts: &[Vec<u8>]) -> BytesMut {
    BytesMut::from(&message_frame(code, &parts.concat())[..])
}

fn server(code: u32, parts: &[Vec<u8>]) -> ServerMessage {
    let mut buf = framed(code, parts);
    let message = ServerMessage::decode(&mut buf).unwrap().unwrap();
    assert!(buf.is_empty());
    message
}

fn peer(code: u32, parts: &[Vec<u8>]) -> PeerMessage {
    PeerMessage::decode(&mut framed(code, parts)).unwrap().unwrap()
}

#[test]
fn strings_carry_their_length() {
    let mut buf = BytesMut::new();
    encode_string(&mut buf, "häh");
    assert_eq!(&buf[..], &[4, 0, 0, 0, b'h', 0xc3, 0xa4, b'h']);
    assert_eq!(decode_string(&mut buf).unwrap(), "häh");
    assert!(buf.is_empty());
}

#[test]
fn broken_strings_are_refused() {
    assert_eq!(decode_string(&mut BytesMut::from(&[1u8, 0, 0][..])), Err(WireError::StringLength));
    assert_eq!(
        decode_string(&mut BytesMut::from(&[2u8, 0, 0, 0, b'x'][..])),
        Err(WireError::StringData)
    );
    assert_eq!(
        decode_string(&mut BytesMut::from(&[1u8, 0, 0, 0, 0xff][..])),
        Err(WireError::InvalidUtf8)
    );
}

#[test]
fn errors_are_put_into_words() {
    assert_eq!(WireError::StringLength.message(), "Not enough bytes for string length");
    assert_eq!(WireError::StringData.message(), "Not enough bytes for string data");
    assert_eq!(WireError::InvalidUtf8.message(), "Invalid UTF-8");
    assert_eq!(WireError::MessageTooShort.message(), "Message too short");
    assert_eq!(WireError::UnknownPeerCode(77).message(), "Unknown peer message code: 77");
    assert_eq!(WireError::NotEnoughData.message(), "Not enough data");
    assert_eq!(
        WireError::PeerAddressTooShort.message(),
        "Invalid PeerAddress response - not enough bytes"
    );
    assert_eq!(WireError::ChatTooShort.message(), "Chat message too short");
    assert_eq!(WireError::NotEncodable.message(), "Message encoding not implemented");
}

#[test]
fn server_messages_are_written() {
    let login = ServerMessage::Login {
        username: "u".to_string(),
        password: "p".to_string(),
        version: 160,
        md5_hash: "h".to_string(),
        minor_version: 1,
    };
    let data = [text("u"), text("p"), word(160), text("h"), word(1)].concat();
    assert_eq!(&login.encode().unwrap()[..], &message_frame(1, &data)[..]);
    let cases: Vec<(ServerMessage, u32, Vec<u8>)> = vec![
        (ServerMessage::SetWaitPort { port: 2234 }, 2, word(2234)),
        (ServerMessage::GetPeerAddress { username: "x".to_string() }, 3, text("x")),
        (
            ServerMessage::ConnectToPeer {
                token: 7,
                username: "x".to_string(),
                connection_type: "P".to_string(),
            },
            18,
            [word(7), text("x"), text("P")].concat(),
        ),
        (
            ServerMessage::FileSearch { token: 9, query: "q".to_string() },
            26,
            [word(9), text("q")].concat(),
        ),
        (
            ServerMessage::UserSearch {
                username: "x".to_string(),
                token: 9,
                query: "q".to_string(),
            },
            42,
            [text("x"), word(9), text("q")].concat(),
        ),
        (ServerMessage::SetStatus { status: 2 }, 28, word(2)),
        (
            ServerMessage::SharedFoldersFiles { folders: 1, files: 2 },
            35,
            [word(1), word(2)].concat(),
        ),
        (ServerMessage::GetUserStats { username: "x".to_string() }, 36, text("x")),
        (ServerMessage::ServerPing, 32, vec![]),
        (
            ServerMessage::MessageUser { username: "x".to_string(), message: "m".to_string() },
            22,
            [text("x"), text("m")].concat(),
        ),
        (ServerMessage::RoomList, 64, vec![]),
    ];
    for (message, code, data) in cases {
        assert_eq!(&message.encode().unwrap()[..], &message_frame(code, &data)[..]);
    }
}

#[test]
fn received_messages_are_not_written() {
    assert!(matches!(ServerMessage::Relogged.encode(), Err(WireError::NotEncodable)));
    let message = PeerMessage::UploadFailed { filename: "f".to_string() };
    assert!(matches!(message.encode(), Err(WireError::NotEncodable)));
}

#[test]
fn peer_messages_are_written() {
    let search = PeerMessage::FileSearchRequest { token: 3, query: "q".to_string() };
    assert_eq!(
        &search.encode().unwrap()[..],
        &message_frame(8, &[word(3), text("q")].concat())[..]
    );
    let request = PeerMessage::TransferRequest { direction: 0, token: 3, filename: "f".to_string() };
    assert_eq!(
        &request.encode().unwrap()[..],
        &message_frame(40, &[word(0), word(3), text("f")].concat())[..]
    );
    let queue = PeerMessage::QueueUpload { filename: "f".to_string() };
    assert_eq!(&queue.encode().unwrap()[..], &message_frame(43, &text("f"))[..]);
}

#[test]
fn frames_hold_length_code_and_data() {
    assert_eq!(message_frame(0x0102, &[9, 8]), vec![6, 0, 0, 0, 2, 1, 0, 0, 9, 8]);
}

#[test]
fn incomplete_frames_are_kept() {
    let whole = message_frame(32, &[]);
    for n in 0..whole.len() {
        let mut buf = BytesMut::from(&whole[..n]);
        assert!(matches!(ServerMessage::decode(&mut buf), Ok(None)));
        assert_eq!(&buf[..], &whole[..n]);
        assert!(matches!(PeerMessage::decode(&mut buf), Ok(None)));
        assert_eq!(&buf[..], &whole[..n]);
    }
}

#[test]
fn frames_without_a_code_are_refused() {
    let mut buf = BytesMut::from(&[2u8, 0, 0, 0, 1, 1][..]);
    assert!(matches!(ServerMessage::decode(&mut buf), Err(WireError::MessageTooShort)));
    let mut buf = BytesMut::from(&[0u8, 0, 0, 0][..]);
    assert!(matches!(PeerMessage::decode(&mut buf), Err(WireError::MessageTooShort)));
}

#[test]
fn login_responses_are_read() {
    match server(1, &[vec![1], text(""), text("hello"), text("1.2.3.4")]) {
        ServerMessage::LoginResponse { success, reason, greeting, ip } => {
            assert!(success);
            assert_eq!(reason, "");
            assert_eq!(greeting, Some("hello".to_string()));
            assert_eq!(ip, Some("1.2.3.4".to_string()));
        }
        other => panic!("{:?}", other),
    }
    match server(1, &[vec![0], text("INVALIDPASS")]) {
        ServerMessage::LoginResponse { success, reason, greeting, ip } => {
            assert!(!success);
            assert_eq!(reason, "INVALIDPASS");
            assert_eq!(greeting, None);
            assert_eq!(ip, None);
        }
        other => panic!("{:?}", other),
    }
}

#[test]
fn server_messages_are_read() {
    match server(3, &[text("x"), text("9.8.7.6"), 2234u16.to_le_bytes().to_vec()]) {
        ServerMessage::PeerAddress { username, ip, port } => {
            assert_eq!((username.as_str(), ip.as_str(), port), ("x", "9.8.7.6", 2234));
        }
        other => panic!("{:?}", other),
    }
    match server(7, &[text("x"), word(1), long(2), word(3), word(4)]) {
        ServerMessage::UserStats { username, avg_speed, uploads, shared_files, shared_folders } => {
            assert_eq!(username, "x");
            assert_eq!((avg_speed, uploads, shared_files, shared_folders), (1, 2, 3, 4));
        }
        other => panic!("{:?}", other),
    }
    match server(22, &[word(5), word(6), text("x"), text("hi")]) {
        ServerMessage::MessageUserReceived { message_id, timestamp, username, message } => {
            assert_eq!((message_id, timestamp), (5, 6));
            assert_eq!((username.as_str(), message.as_str()), ("x", "hi"));
        }
        other => panic!("{:?}", other),
    }
    assert!(matches!(server(32, &[]), ServerMessage::ServerPong));
    assert!(matches!(server(41, &[]), ServerMessage::Relogged));
    match server(93, &[vec![3, 1, 2]]) {
        ServerMessage::EmbeddedMessage { message_type, data } => {
            assert_eq!((message_type, data), (3, vec![1, 2]));
        }
        other => panic!("{:?}", other),
    }
    match server(77, &[vec![1, 2, 3]]) {
        ServerMessage::Unknown { code, data } => assert_eq!((code, data), (77, vec![1, 2, 3])),
        other => panic!("{:?}", other),
    }
}

#[test]
fn connect_requests_are_read() {
    let parts = [text("x"), text("P"), vec![4, 3, 2, 1], word(0x1_08ba), word(99), vec![1]];
    match server(18, &parts) {
        ServerMessage::ConnectToPeerRequest {
            username,
            connection_type,
            ip,
            port,
            token,
            privileged,
        } => {
            assert_eq!((username.as_str(), connection_type.as_str()), ("x", "P"));
            assert_eq!(ip, "1.2.3.4");
            // Only the lower 16 bits of the port count.
            assert_eq!(port, 0x08ba);
            assert_eq!(token, 99);
            assert!(privileged);
        }
        other => panic!("{:?}", other),
    }
}

#[test]
fn fields_past_the_end_are_told_apart() {
    let mut buf = framed(22, &[word(5)]);
    assert!(matches!(ServerMessage::try_decode(&mut buf), Err(Halt::Short)));
    let mut buf = framed(41, &[word(5)]);
    assert!(matches!(PeerMessage::try_decode(&mut buf), Err(Halt::Short)));
    let mut buf = framed(3, &[vec![9, 0, 0, 0]]);
    assert!(matches!(
        ServerMessage::try_decode(&mut buf),
        Err(Halt::Failed(WireError::StringData))
    ));
}

#[test]
fn search_results_of_peers_are_read() {
    let entry = [vec![1], text("a.mp3"), long(10), text("mp3"), word(2), word(0), word(320), word(1), word(61)]
        .concat();
    let parts = [text("x"), word(4), word(1), entry, vec![1], word(5), long(6)];
    match peer(9, &parts) {
        PeerMessage::FileSearchResult { username, token, files, has_slots, avg_speed, queue_length } => {
            assert_eq!((username.as_str(), token, avg_speed, queue_length), ("x", 4, 5, 6));
            assert!(has_slots);
            assert_eq!(files.len(), 1);
            assert_eq!((files[0].filename.as_str(), files[0].size), ("a.mp3", 10));
            assert_eq!(files[0].extension, "mp3");
            assert_eq!(files[0].bitrate(), Some(320));
            assert_eq!(files[0].duration(), Some(61));
            assert_eq!(files[0].is_vbr(), None);
        }
        other => panic!("{:?}", other),
    }
}

#[test]
fn peer_messages_are_read() {
    match peer(41, &[word(3), vec![1], long(10)]) {
        PeerMessage::TransferReply { token, allowed, filesize } => {
            assert_eq!((token, allowed, filesize), (3, true, 10));
        }
        other => panic!("{:?}", other),
    }
    match peer(41, &[word(3), vec![0]]) {
        PeerMessage::TransferReply { token, allowed, filesize } => {
            assert_eq!((token, allowed, filesize), (3, false, 0));
        }
        other => panic!("{:?}", other),
    }
    match peer(44, &[text("f"), word(8)]) {
        PeerMessage::PlaceInQueueReply { filename, place } => {
            assert_eq!((filename.as_str(), place), ("f", 8));
        }
        other => panic!("{:?}", other),
    }
    match peer(46, &[text("f")]) {
        PeerMessage::UploadFailed { filename } => assert_eq!(filename, "f"),
        other => panic!("{:?}", other),
    }
    let mut buf = framed(99, &[]);
    assert!(matches!(PeerMessage::decode(&mut buf), Err(WireError::UnknownPeerCode(99))));
}

#[test]
fn first_attribute_of_a_kind_counts() {
    let file = SearchFile {
        code: 1,
        filename: String::new(),
        size: 0,
        extension: String::new(),
        attributes: vec![
            FileAttribute { attribute_type: 2, value: 1 },
            FileAttribute { attribute_type: 0, value: 128 },
            FileAttribute { attribute_type: 0, value: 320 },
            FileAttribute { attribute_type: 2, value: 0 },
        ],
    };
    assert_eq!(file.bitrate(), Some(128));
    assert_eq!(file.duration(), None);
    assert_eq!(file.is_vbr(), Some(true));
}

#[test]
fn codes_have_their_numbers() {
    assert_eq!(ServerCode::Login.code(), 1);
    assert_eq!(ServerCode::FileSearch.code(), 26);
    assert_eq!(ServerCode::CantConnectToPeer.code(), 1001);
    assert_eq!(PeerCode::FileSearchResult.code(), 9);
    assert_eq!(PeerCode::UploadQueueNotification.code(), 52);
}
