use flate2::write::ZlibEncoder;
use flate2::Compression;
use rinse::protocol::client::{
    address_host, convert_response, file_extension, legacy_reply, login_message, login_request,
    parse_login_response, peer_code, peer_head, peer_request, place_reply, queue_reply,
    recount_message, result_of_peer, search_message, shared_counts_message, shared_files_reply,
    upload_speed_message, user_info_reply, wait_port_message, LoginError, PeerHead, PeerRequest,
    QueueOutcome,
};
use rinse::protocol::messages::{MessageEncoder, ServerMessage};
use rinse::protocol::peer::ParsedSearchResponse;
use rinse::wire::{message_frame, WireError};
use std::io::Write;

fn text(s: &str) -> Vec<u8> {
    let mut v = (s.len() as u32).to_le_bytes().to_vec();
    v.extend_from_slice(s.as_bytes());
    v
}

fn word(n: u32) -> Vec<u8> {
    n.to_le_bytes().to_vec()
}

#[test]
fn login_carries_the_digest_of_name_and_password() {
    // The MD5 digest of "abc".
    let digest = "900150983cd24fb0d6963f7d28e17f72";
    let data = [text("ab"), text("c"), word(160), text(digest), word(1)].concat();
    assert_eq!(login_request("ab", "c"), message_frame(1, &data));
    let message = login_message("ab", "c");
    assert!(matches!(&message, ServerMessage::Login { md5_hash, .. } if md5_hash == digest));
    assert_eq!(&message.encode().unwrap()[..], &login_request("ab", "c")[..]);
}

#[test]
fn login_answers_are_read() {
    let data = [vec![1], text("welcome"), vec![4, 3, 2, 1]].concat();
    assert!(matches!(parse_login_response(1, &data), Ok(Some(ip)) if ip == "1.2.3.4"));
    assert!(matches!(parse_login_response(1, &data[..data.len() - 1]), Ok(None)));
    assert!(matches!(parse_login_response(2, &[]), Ok(None)));
    let refused = [vec![0], text("INVALIDPASS")].concat();
    assert!(matches!(
        parse_login_response(1, &refused),
        Err(LoginError::Refused(reason)) if reason == "INVALIDPASS"
    ));
    assert!(matches!(parse_login_response(1, &[]), Err(LoginError::Short)));
    assert!(matches!(
        parse_login_response(1, &[1]),
        Err(LoginError::Wire(WireError::StringLength))
    ));
}

#[test]
fn messages_to_the_server() {
    assert_eq!(
        wait_port_message(2234, Some(2235)),
        message_frame(2, &[word(2234), word(1), word(2235)].concat())
    );
    assert_eq!(wait_port_message(2234, None), message_frame(2, &word(2234)));
    assert_eq!(shared_counts_message(1, 2), message_frame(35, &[word(1), word(2)].concat()));
    assert_eq!(search_message(7, "q"), message_frame(26, &[word(7), text("q")].concat()));
}

#[test]
fn nothing_is_told_of_nothing() {
    assert_eq!(recount_message(3, 0), None);
    assert_eq!(recount_message(3, 9), Some(shared_counts_message(3, 9)));
    assert_eq!(upload_speed_message(0), None);
    assert_eq!(upload_speed_message(5), Some(message_frame(121, &word(5))));
    assert_eq!(upload_speed_message(0x1_0000_0007), Some(message_frame(121, &word(7))));
}

#[test]
fn init_messages_before_the_first_one_are_recognised() {
    let head = |len: u32, first: u8| peer_head(&[word(len), vec![first]].concat());
    assert_eq!(head(5, 0), PeerHead::Init { discard: 4 });
    assert_eq!(head(20, 1), PeerHead::Init { discard: 19 });
    assert_eq!(head(4, 4), PeerHead::Message { data_len: 0 });
    assert_eq!(head(4, 1), PeerHead::Message { data_len: 0 });
    assert_eq!(head(200, 1), PeerHead::Message { data_len: 196 });
    assert_eq!(head(3, 9), PeerHead::Message { data_len: 0 });
    assert_eq!(peer_code(9, &[1, 0, 0]), 0x109);
}

#[test]
fn extensions_of_file_names() {
    assert_eq!(file_extension("a/b/song.mp3"), "mp3");
    assert_eq!(file_extension("song.tar.gz"), "gz");
    assert_eq!(file_extension(".hidden"), "");
    assert_eq!(file_extension("song."), "");
    assert_eq!(file_extension("dir.d/song"), "");
    assert_eq!(file_extension("dir/song.mp3/"), "mp3");
    assert_eq!(file_extension("dir/song.mp3/."), "mp3");
    assert_eq!(file_extension("..") , "");
    assert_eq!(file_extension(""), "");
    for path in ["a/b/song.mp3", "x.tar.gz", ".hidden", "song.", "d.d/s", "d/s.mp3/", "d/s.mp3/.", "..", "", "a\\b.c"] {
        let expected = std::path::Path::new(path).extension().and_then(|e| e.to_str()).unwrap_or("");
        assert_eq!(file_extension(path), expected);
    }
}

#[test]
fn responses_become_results() {
    let response = ParsedSearchResponse {
        username: "x".to_string(),
        token: 1,
        files: vec![("a.mp3".to_string(), 10, Some(320)), ("b".to_string(), 20, None)],
        slot_free: true,
        avg_speed: 5,
        queue_length: 6,
    };
    let result = convert_response("you", "1.2.3.4", 2234, &response);
    assert_eq!((result.username.as_str(), result.peer_ip.as_str(), result.peer_port), ("you", "1.2.3.4", 2234));
    assert!(result.has_slots);
    assert_eq!((result.avg_speed, result.queue_length), (5, 6));
    assert_eq!(result.files[0].extension, "mp3");
    assert_eq!(result.files[0].bitrate(), Some(320));
    assert_eq!(result.files[1].extension, "");
    assert_eq!(result.files[1].bitrate(), None);
    assert_eq!(result.files[1].code, 1);
}

#[test]
fn hosts_of_addresses() {
    assert_eq!(address_host("1.2.3.4:2234"), "1.2.3.4");
    assert_eq!(address_host("1.2.3.4"), "1.2.3.4");
    assert_eq!(address_host(":1"), "");
}

fn plain_response() -> Vec<u8> {
    [text("x"), word(42), word(0), vec![1], word(5), word(6)].concat()
}

#[test]
fn search_results_are_recognised() {
    let mut encoder = ZlibEncoder::new(Vec::new(), Compression::default());
    encoder.write_all(&plain_response()).unwrap();
    let packed = encoder.finish().unwrap();
    for data in [packed, plain_response()] {
        match peer_request(9, data, "you", "1.2.3.4:99") {
            PeerRequest::Found { token, result } => {
                assert_eq!(token, 42);
                assert_eq!((result.username.as_str(), result.peer_ip.as_str()), ("you", "1.2.3.4"));
                assert_eq!(result.peer_port, 0);
            }
            other => panic!("{:?}", other),
        }
    }
    assert!(matches!(
        result_of_peer(&plain_response(), "you", "h:1"),
        PeerRequest::Found { token: 42, .. }
    ));
    assert!(matches!(
        peer_request(9, vec![1], "you", "h:1"),
        PeerRequest::Unreadable(WireError::NotEnoughData)
    ));
    assert!(matches!(
        result_of_peer(&[text("abcd"), word(1)].concat(), "you", "h:1"),
        PeerRequest::Short
    ));
}

#[test]
fn requests_of_peers_are_recognised() {
    let ask = |code: u32, data: Vec<u8>| peer_request(code, data, "you", "h:1");
    assert!(matches!(ask(4, vec![]), PeerRequest::SharedFiles));
    assert!(matches!(
        ask(8, [word(7), text("q")].concat()),
        PeerRequest::Search { token: 7, query } if query == "q"
    ));
    assert!(matches!(ask(8, word(7)), PeerRequest::Nothing));
    assert!(matches!(ask(43, text("f")), PeerRequest::Queue { filename } if filename == "f"));
    assert!(matches!(ask(43, vec![]), PeerRequest::Nothing));
    assert!(matches!(ask(51, text("f")), PeerRequest::Place { filename } if filename == "f"));
    assert!(matches!(
        ask(40, [word(0), word(7), text("f")].concat()),
        PeerRequest::LegacyQueue { token: 7, filename } if filename == "f"
    ));
    assert!(matches!(ask(40, [word(1), word(7), text("f")].concat()), PeerRequest::Nothing));
    assert!(matches!(ask(15, vec![]), PeerRequest::UserInfo));
    assert!(matches!(ask(99, vec![]), PeerRequest::Nothing));
}

#[test]
fn shared_files_are_listed() {
    assert_eq!(shared_files_reply(Some(&[1, 2, 3])), message_frame(5, &[1, 2, 3]));
    assert_eq!(shared_files_reply(None), message_frame(5, &word(0)));
}

#[test]
fn queue_requests_are_always_answered() {
    assert_eq!(
        queue_reply("f", &QueueOutcome::Queued(3)),
        message_frame(44, &[text("f"), word(3)].concat())
    );
    assert_eq!(
        queue_reply("f", &QueueOutcome::Rejected("no".to_string())),
        message_frame(50, &[text("f"), text("no")].concat())
    );
    assert_eq!(
        queue_reply("f", &QueueOutcome::Disabled),
        message_frame(50, &[text("f"), text("Sharing disabled")].concat())
    );
    assert_eq!(place_reply("f", Some(3)), message_frame(44, &[text("f"), word(3)].concat()));
    assert_eq!(place_reply("f", None), message_frame(44, &[text("f"), word(0)].concat()));
}

#[test]
fn old_transfer_requests_are_queued() {
    let reply = |reason: &str| Some(message_frame(41, &[word(7), vec![0], text(reason)].concat()));
    assert_eq!(legacy_reply(7, &QueueOutcome::Queued(3)), reply("Queued"));
    assert_eq!(legacy_reply(7, &QueueOutcome::Rejected("no".to_string())), reply("no"));
    assert_eq!(legacy_reply(7, &QueueOutcome::Disabled), None);
}

#[test]
fn user_info_describes_what_we_share() {
    let description = "Rinse - Soulseek client\nSharing 12 files in 3 folders";
    let data = |free: u8| [text(description), vec![0], word(0), word(4), vec![free], word(1)].concat();
    assert_eq!(user_info_reply(12, 3, 4, true), message_frame(16, &data(1)));
    assert_eq!(user_info_reply(12, 3, 4, false), message_frame(16, &data(0)));
}
