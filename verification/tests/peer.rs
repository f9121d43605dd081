use bytes::BytesMut;
use flate2::write::ZlibEncoder;
use flate2::Compression;
use rinse::protocol::peer::{
    brokered_connection, cant_connect_message, connected_for_results, data_length,
    direct_connection, encode_string, handshake_step, parse_file_search_response, parse_peer_init,
    peer_init_message, pierce_firewall_message, queue_upload_message, read_negotiation_answer,
    negotiation_step, read_refused_transfer, read_search_response, receive_results, results_step,
    transfer_allowed_message, transfer_request_message, transfer_step,
    try_parse_file_search_response, unpack, FileWait, Handshake, HandshakeError, HandshakeMove,
    Input, Negotiating, NegotiationError, NegotiationMove, NegotiationResult, ResultsError,
    ResultsMove, TransferMeter, TransferMove, Waiting, Want,
};
use rinse::wire::{message_frame, Halt, WireError};
use std::io::Write;

fn text(s: &str) -> Vec<u8> {
    let mut v = (s.len() as u32).to_le_bytes().to_vec();
    v.extend_from_slice(s.as_bytes());
    v
}

fn word(n: u32) -> Vec<u8> {
    n.to_le_bytes().to_vec()
}

fn long(n: u64) -> Vec<u8> {
    n.to_le_bytes().to_vec()
}

fn deflated(data: &[u8]) -> Vec<u8> {
    let mut encoder = ZlibEncoder::new(Vec::new(), Compression::default());
    encoder.write_all(data).unwrap();
    encoder.finish().unwrap()
}

fn entry(name: &str, size: u64, attributes: &[(u32, u32)]) -> Vec<u8> {
    let mut v = [vec![1], text(name), long(size), text("mp3"), word(attributes.len() as u32)].concat();
    for (kind, value) in attributes {
        v.extend_from_slice(&kind.to_le_bytes());
        v.extend_from_slice(&value.to_le_bytes());
    }
    v
}

fn response(token: u32, entries: &[Vec<u8>]) -> Vec<u8> {
    let mut v = [text("peer"), word(token), word(entries.len() as u32)].concat();
    for e in entries {
        v.extend_from_slice(e);
    }
    v.push(1);
    v.extend_from_slice(&1000u32.to_le_bytes());
    v.extend_from_slice(&7u32.to_le_bytes());
    v
}

#[test]
fn test_encode_string() {
    let mut buf = BytesMut::new();
    encode_string(&mut buf, "test");
    assert_eq!(buf.len(), 8); // 4 bytes length + 4 bytes "test"
    assert_eq!(&buf[..4], &4u32.to_le_bytes());
    assert_eq!(&buf[4..], b"test");
}

#[test]
fn messages_to_peers_have_their_formats() {
    assert_eq!(
        peer_init_message("ab", "P"),
        [word(16), vec![1], text("ab"), text("P"), word(0)].concat()
    );
    assert_eq!(pierce_firewall_message(7), [word(5), vec![0], word(7)].concat());
    assert_eq!(
        cant_connect_message(7, "ab"),
        message_frame(1001, &[word(7), text("ab")].concat())
    );
    assert_eq!(queue_upload_message("f"), message_frame(43, &text("f")));
    assert_eq!(
        transfer_request_message(7, "f"),
        message_frame(40, &[word(0), word(7), text("f")].concat())
    );
    assert_eq!(transfer_allowed_message(7), message_frame(41, &[word(7), vec![1]].concat()));
}

#[test]
fn lengths_leave_room_for_what_must_be_there() {
    assert_eq!(data_length(3), None);
    assert_eq!(data_length(4), Some(0));
    assert_eq!(data_length(10), Some(6));
}

#[test]
fn peer_init_is_read_back() {
    let message = peer_init_message("häh", "F");
    let (username, conn_type, token) = parse_peer_init(&message[5..]).unwrap();
    assert_eq!((username.as_str(), conn_type.as_str(), token), ("häh", "F", 0));
    assert!(matches!(parse_peer_init(&message[5..message.len() - 1]), Err(Halt::Short)));
    assert!(matches!(parse_peer_init(&[1]), Err(Halt::Failed(WireError::StringLength))));
}

/// Runs a handshake over the bytes that a peer sends, and returns what we sent and how it
/// ended.
fn run(mut state: Handshake, mut want: Want, mut stream: &[u8]) -> (Vec<u8>, HandshakeMove) {
    let mut sent = Vec::new();
    loop {
        let n = match want {
            Want::Byte => 1,
            Want::Word => 4,
            Want::Data(n) => n as usize,
        };
        let input = if stream.len() < n {
            Input::Broken
        } else {
            let (now, later) = stream.split_at(n);
            stream = later;
            match want {
                Want::Byte => Input::Byte(now[0]),
                Want::Word => Input::Word(u32::from_le_bytes([now[0], now[1], now[2], now[3]])),
                Want::Data(_) => Input::Data(now.to_vec()),
            }
        };
        match handshake_step(state, input, "me") {
            HandshakeMove::Read { send, want: w, state: s } => {
                sent.extend_from_slice(&send);
                want = w;
                state = s;
            }
            end => return (sent, end),
        }
    }
}

#[test]
fn incoming_peer_for_messages_is_answered() {
    let (sent, end) = run(Handshake::Incoming, Want::Word, &peer_init_message("you", "P"));
    assert!(sent.is_empty());
    match end {
        HandshakeMove::Peer { send, username, token } => {
            assert_eq!(send, peer_init_message("me", "P"));
            assert_eq!((username.as_str(), token), ("you", 0));
        }
        other => panic!("{:?}", other),
    }
}

#[test]
fn incoming_uploader_is_not_answered() {
    let stream = [peer_init_message("you", "F"), word(4711)].concat();
    let (sent, end) = run(Handshake::Incoming, Want::Word, &stream);
    assert!(sent.is_empty());
    match end {
        HandshakeMove::File { send, transfer_token } => {
            assert!(send.is_empty());
            assert_eq!(transfer_token, 4711);
        }
        other => panic!("{:?}", other),
    }
}

#[test]
fn incoming_pierced_firewall_is_answered_for_files() {
    let stream = [pierce_firewall_message(3), word(4711)].concat();
    let (sent, end) = run(Handshake::Incoming, Want::Word, &stream);
    assert_eq!(sent, peer_init_message("me", "F"));
    assert!(matches!(end, HandshakeMove::File { transfer_token: 4711, .. }));
}

#[test]
fn incoming_raw_token_is_taken_for_a_transfer() {
    let (_, end) = run(Handshake::Incoming, Want::Word, &word(200));
    assert!(matches!(end, HandshakeMove::File { transfer_token: 200, .. }));
    let (_, end) = run(Handshake::Incoming, Want::Word, &word(4));
    assert!(matches!(end, HandshakeMove::File { transfer_token: 4, .. }));
}

#[test]
fn incoming_connections_can_be_refused() {
    let (_, end) = run(Handshake::Incoming, Want::Word, &[word(50), vec![7]].concat());
    assert!(matches!(end, HandshakeMove::Refused(HandshakeError::NotPeerInit(7))));
    let (_, end) = run(Handshake::Incoming, Want::Word, &peer_init_message("you", "D"));
    assert!(matches!(end, HandshakeMove::Refused(HandshakeError::UnknownConnectionType)));
    let (_, end) = run(Handshake::Incoming, Want::Word, &[1, 2]);
    assert!(matches!(end, HandshakeMove::Refused(HandshakeError::NothingRead)));
    let (_, end) = run(Handshake::Incoming, Want::Word, &[word(6), vec![1], vec![0; 5]].concat());
    assert!(matches!(
        end,
        HandshakeMove::Refused(HandshakeError::Wire(WireError::StringLength))
    ));
    let short = [word(10), vec![1], text(""), text(""), vec![9]].concat();
    let (_, end) = run(Handshake::Incoming, Want::Word, &short);
    assert!(matches!(end, HandshakeMove::Short));
}

#[test]
fn indirect_connections_wait_for_the_token() {
    let (_, end) = run(Handshake::Indirect, Want::Word, &word(4711));
    assert!(matches!(end, HandshakeMove::File { transfer_token: 4711, .. }));
    let stream = [peer_init_message("you", "F"), word(4711)].concat();
    let (_, end) = run(Handshake::Indirect, Want::Word, &stream);
    assert!(matches!(end, HandshakeMove::File { transfer_token: 4711, .. }));
    let stream = [word(50), vec![9], word(4711)].concat();
    let (_, end) = run(Handshake::Indirect, Want::Word, &stream);
    assert!(matches!(end, HandshakeMove::File { transfer_token: 4711, .. }));
}

#[test]
fn proactive_connections_announce_the_token() {
    for stream in [peer_init_message("you", "F"), word(3), vec![], [word(50), vec![9]].concat()] {
        match run(Handshake::Proactive { token: 4711 }, Want::Word, &stream).1 {
            HandshakeMove::File { send, transfer_token } => {
                assert_eq!(send, word(4711));
                assert_eq!(transfer_token, 4711);
            }
            other => panic!("{:?}", other),
        }
    }
    assert!(matches!(
        handshake_step(Handshake::Proactive { token: 5 }, Input::TimedOut, "me"),
        HandshakeMove::File { transfer_token: 5, .. }
    ));
}

#[test]
fn search_responses_are_parsed() {
    let data = response(42, &[entry("a.mp3", 10, &[(0, 128), (1, 60), (0, 320)]), entry("b.mp3", 20, &[])]);
    let parsed = parse_file_search_response(&data).unwrap();
    assert_eq!((parsed.username.as_str(), parsed.token), ("peer", 42));
    // Of several bitrates the last one counts.
    assert_eq!(
        parsed.files,
        vec![("a.mp3".to_string(), 10, Some(320)), ("b.mp3".to_string(), 20, None)]
    );
    assert!(parsed.slot_free);
    assert_eq!((parsed.avg_speed, parsed.queue_length), (1000, 7));
}

#[test]
fn missing_statistics_have_defaults() {
    let whole = response(42, &[entry("a.mp3", 10, &[])]);
    let n = whole.len();
    let parsed = parse_file_search_response(&whole[..n - 9]).unwrap();
    assert!(parsed.slot_free);
    assert_eq!((parsed.avg_speed, parsed.queue_length), (0, 0));
    let parsed = parse_file_search_response(&whole[..n - 4]).unwrap();
    assert_eq!((parsed.avg_speed, parsed.queue_length), (1000, 0));
    let mut busy = whole.clone();
    busy[n - 9] = 0;
    assert!(!parse_file_search_response(&busy).unwrap().slot_free);
}

#[test]
fn cut_off_lists_end_early() {
    let data = [text("peer"), word(1), word(2), entry("a.mp3", 10, &[]), vec![1], text("b")].concat();
    let parsed = parse_file_search_response(&data).unwrap();
    assert_eq!(parsed.files.len(), 1);
}

#[test]
fn at_most_a_hundred_files_are_read() {
    let entries: Vec<Vec<u8>> = (0..150).map(|_| entry("a.mp3", 1, &[])).collect();
    assert_eq!(parse_file_search_response(&response(1, &entries)).unwrap().files.len(), 100);
}

#[test]
fn broken_search_responses_are_refused() {
    assert!(matches!(parse_file_search_response(&[0; 7]), Err(WireError::NotEnoughData)));
    assert!(matches!(
        parse_file_search_response(&[9, 0, 0, 0, 1, 1, 1, 1]),
        Err(WireError::StringData)
    ));
    let data = [text("peer"), word(1)].concat();
    assert!(matches!(try_parse_file_search_response(&data), Err(Halt::Short)));
}

#[test]
fn compressed_responses_are_unpacked() {
    let data = response(42, &[entry("a.mp3", 10, &[])]);
    assert_eq!(unpack(deflated(&data)), data);
    assert_eq!(unpack(data.clone()), data);
    assert_eq!(read_search_response(deflated(&data)).unwrap().token, 42);
    assert_eq!(read_search_response(data).unwrap().token, 42);
}

fn wait(mut next: ResultsMove, patient: bool, inputs: Vec<Input>) -> ResultsMove {
    for input in inputs {
        match next {
            ResultsMove::Read { state, .. } => next = results_step(patient, state, input),
            end => return end,
        }
    }
    next
}

#[test]
fn first_message_can_be_the_response() {
    let data = response(42, &[entry(&"a".repeat(100), 10, &[])]);
    let end = wait(
        connected_for_results(),
        true,
        vec![Input::Word(data.len() as u32 + 4), Input::Word(9), Input::Data(deflated(&data))],
    );
    assert!(matches!(end, ResultsMove::Found(r) if r.token == 42));
}

#[test]
fn reads_have_their_limits() {
    assert!(matches!(
        connected_for_results(),
        ResultsMove::Read { want: Want::Word, limit: Some(5), state: Waiting::First }
    ));
    assert!(matches!(
        receive_results(),
        ResultsMove::Read { want: Want::Word, limit: Some(5), state: Waiting::Length { attempt: 0 } }
    ));
    assert!(matches!(
        wait(connected_for_results(), true, vec![Input::Word(0)]),
        ResultsMove::Read { want: Want::Word, limit: Some(3), state: Waiting::Length { attempt: 0 } }
    ));
}

#[test]
fn other_first_messages_are_consumed() {
    let pierce = wait(
        connected_for_results(),
        true,
        vec![Input::Word(5), Input::Byte(0), Input::Word(7)],
    );
    assert!(matches!(pierce, ResultsMove::Read { state: Waiting::Length { attempt: 0 }, .. }));
    let init = wait(connected_for_results(), true, vec![Input::Word(20), Input::Byte(1)]);
    assert!(matches!(init, ResultsMove::Read { want: Want::Data(19), state: Waiting::InitData, .. }));
    let skip = wait(
        connected_for_results(),
        true,
        vec![Input::Word(200), Input::Word(4), Input::Data(vec![0; 196])],
    );
    assert!(matches!(skip, ResultsMove::Read { state: Waiting::Length { attempt: 0 }, .. }));
}

#[test]
fn later_messages_can_be_the_response() {
    let data = response(42, &[]);
    let end = wait(
        receive_results(),
        false,
        vec![
            Input::Word(8),
            Input::Word(4),
            Input::Data(vec![0; 4]),
            Input::Word(data.len() as u32 + 4),
            Input::Word(9),
            Input::Data(data),
        ],
    );
    assert!(matches!(end, ResultsMove::Found(r) if r.token == 42));
}

#[test]
fn waiting_ends_after_ten_messages() {
    let end = wait(receive_results(), false, vec![Input::Word(0); 10]);
    assert!(matches!(end, ResultsMove::Failed(ResultsError::NoResponse)));
    let end = wait(receive_results(), false, vec![Input::Word(10_000_001); 9]);
    assert!(matches!(end, ResultsMove::Read { state: Waiting::Length { attempt: 9 }, .. }));
}

#[test]
fn patience_decides_about_timeouts() {
    let end = wait(receive_results(), false, vec![Input::TimedOut]);
    assert!(matches!(end, ResultsMove::Failed(ResultsError::Timeout)));
    let mut inputs = vec![Input::Word(0)];
    inputs.extend(vec![Input::TimedOut; 9]);
    let still = wait(connected_for_results(), true, inputs.clone());
    assert!(matches!(still, ResultsMove::Read { state: Waiting::Length { attempt: 9 }, .. }));
    inputs.push(Input::TimedOut);
    let end = wait(connected_for_results(), true, inputs);
    assert!(matches!(end, ResultsMove::Failed(ResultsError::Timeout)));
    let end = wait(connected_for_results(), true, vec![Input::TimedOut]);
    assert!(matches!(end, ResultsMove::Failed(ResultsError::Timeout)));
}

#[test]
fn waiting_can_fail() {
    let end = wait(receive_results(), false, vec![Input::Broken]);
    assert!(matches!(end, ResultsMove::Failed(ResultsError::Read)));
    let end = wait(receive_results(), false, vec![Input::Word(3), Input::Word(9)]);
    assert!(matches!(end, ResultsMove::Short));
    let end = wait(receive_results(), false, vec![Input::Word(6), Input::Word(9), Input::Data(vec![1, 2])]);
    assert!(matches!(end, ResultsMove::Failed(ResultsError::Wire(WireError::NotEnoughData))));
}

#[test]
fn ready_peers_are_accepted_under_their_token() {
    let data = [word(1), word(77), text("f"), long(1234)].concat();
    match transfer_step(40, &data) {
        TransferMove::Accept { send, filesize, transfer_token } => {
            assert_eq!(send, transfer_allowed_message(77));
            assert_eq!((filesize, transfer_token), (1234, 77));
        }
        other => panic!("{:?}", other),
    }
}

#[test]
fn other_messages_while_waiting_for_a_transfer() {
    let wrong = [word(0), word(77), text("f")].concat();
    assert!(matches!(transfer_step(40, &wrong), TransferMove::Wait));
    assert!(matches!(transfer_step(44, &[text("f"), word(3)].concat()), TransferMove::Wait));
    assert!(matches!(transfer_step(99, &[]), TransferMove::Wait));
    let denied = [text("f"), text("Banned")].concat();
    assert!(matches!(transfer_step(50, &denied), TransferMove::Denied { reason } if reason == "Banned"));
    assert!(matches!(
        transfer_step(46, &text("f")),
        TransferMove::Denied { reason } if reason == "Upload failed"
    ));
    assert!(matches!(transfer_step(46, &[]), TransferMove::Failed(WireError::StringLength)));
    assert!(matches!(transfer_step(40, &word(1)), TransferMove::Short));
    assert!(matches!(transfer_step(44, &text("f")), TransferMove::Short));
}

#[test]
fn negotiation_answers_are_read() {
    match read_negotiation_answer(5, 44, &[text("f"), word(3)].concat()) {
        Ok(NegotiationResult::Queued { transfer_token, position, reason }) => {
            assert_eq!((transfer_token, position), (5, Some(3)));
            assert_eq!(reason, "Position 3");
        }
        other => panic!("{:?}", other),
    }
    let denied = [text("f"), text("Banned")].concat();
    assert!(matches!(
        read_negotiation_answer(5, 50, &denied),
        Ok(NegotiationResult::Denied { reason }) if reason == "Banned"
    ));
    assert!(matches!(
        read_negotiation_answer(5, 9, &[]),
        Err(NegotiationError::UnexpectedCode(9))
    ));
    assert!(matches!(read_negotiation_answer(5, 44, &text("f")), Err(NegotiationError::Short)));
    assert!(matches!(
        read_negotiation_answer(5, 50, &[]),
        Err(NegotiationError::Wire(WireError::StringLength))
    ));
}

#[test]
fn reasons_that_speak_of_a_queue_mean_queued() {
    for reason in ["Queued", "in QUEUE now"] {
        assert!(matches!(
            read_refused_transfer(5, &text(reason)),
            Ok(NegotiationResult::Queued { transfer_token: 5, position: None, reason: r }) if r == reason
        ));
    }
    assert!(matches!(
        read_refused_transfer(5, &text("Cancelled")),
        Ok(NegotiationResult::Denied { reason }) if reason == "Cancelled"
    ));
    assert!(matches!(
        read_refused_transfer(5, &[]),
        Err(NegotiationError::Wire(WireError::StringLength))
    ));
}

/// Runs a negotiation under token 5 on the bytes that the peer sends.
fn negotiate(sent: &[u8]) -> NegotiationMove {
    let mut rest = sent;
    let mut want = Want::Word;
    let mut state = Negotiating::Length;
    loop {
        let len = match want {
            Want::Byte => 1,
            Want::Word => 4,
            Want::Data(n) => n as usize,
        };
        let input = if rest.len() < len {
            Input::Broken
        } else {
            let (taken, left) = rest.split_at(len);
            rest = left;
            match want {
                Want::Byte => Input::Byte(taken[0]),
                Want::Word => {
                    Input::Word(u32::from_le_bytes([taken[0], taken[1], taken[2], taken[3]]))
                }
                Want::Data(_) => Input::Data(taken.to_vec()),
            }
        };
        match negotiation_step(5, state, input) {
            NegotiationMove::Read { want: w, state: s } => {
                want = w;
                state = s;
            }
            end => return end,
        }
    }
}

#[test]
fn negotiations_end_with_the_answer_of_the_peer() {
    let allowed = [word(41), word(9), vec![1], 77u64.to_le_bytes().to_vec()].concat();
    assert!(matches!(
        negotiate(&[word(17), allowed].concat()),
        NegotiationMove::Done(NegotiationResult::Allowed { filesize: 77, transfer_token: 5 })
    ));
    let queued = message_frame(41, &[word(9), vec![0], text("Queued")].concat());
    assert!(matches!(
        negotiate(&queued),
        NegotiationMove::Done(NegotiationResult::Queued { transfer_token: 5, position: None, .. })
    ));
    let denied = message_frame(41, &[word(9), vec![0], text("Banned")].concat());
    assert!(matches!(
        negotiate(&denied),
        NegotiationMove::Done(NegotiationResult::Denied { reason }) if reason == "Banned"
    ));
    let placed = message_frame(44, &[text("f"), word(3)].concat());
    assert!(matches!(
        negotiate(&placed),
        NegotiationMove::Done(NegotiationResult::Queued { transfer_token: 5, position: Some(3), .. })
    ));
}

#[test]
fn negotiations_fail_on_other_answers() {
    assert!(matches!(
        negotiate(&message_frame(9, &[1, 2])),
        NegotiationMove::Failed(NegotiationError::UnexpectedCode(9))
    ));
    assert!(matches!(negotiate(&[]), NegotiationMove::Failed(NegotiationError::NothingRead)));
    assert!(matches!(
        negotiate(&[word(3), word(44)].concat()),
        NegotiationMove::Failed(NegotiationError::Short)
    ));
    assert!(matches!(
        negotiate(&[word(8), word(41), word(9), vec![0]].concat()),
        NegotiationMove::Failed(NegotiationError::Short)
    ));
    assert!(matches!(
        negotiation_step(5, Negotiating::Length, Input::TimedOut),
        NegotiationMove::Failed(NegotiationError::NothingRead)
    ));
}

#[test]
fn progress_is_reported_every_256_kilobytes() {
    let mut meter = TransferMeter::start(0, 600_000);
    let mut reports = 0;
    let mut done = false;
    while !done {
        let (report, complete) = meter.count(65_536);
        if report {
            reports += 1;
        }
        done = complete;
    }
    assert_eq!(meter.total, 10 * 65_536);
    assert_eq!(reports, 2);
    assert_eq!(meter.transferred(), 655_360);
}

#[test]
fn transfers_can_start_in_the_middle() {
    let mut meter = TransferMeter::start(1000, 1500);
    assert_eq!(meter.count(499), (true, false));
    assert_eq!(meter.count(1), (true, true));
    assert_eq!(meter.transferred(), 500);
}

#[test]
fn file_connections_are_told_apart_by_token() {
    assert!(matches!(direct_connection(1, 1), FileWait::Use));
    assert!(matches!(direct_connection(1, 2), FileWait::Wait));
}

#[test]
fn server_can_broker_a_file_connection() {
    let data = |kind: &str| [text("you"), text(kind), vec![4, 3, 2, 1], word(2234), word(9)].concat();
    match brokered_connection(18, &data("F"), "you") {
        FileWait::Connect { ip, port, token } => {
            assert_eq!((ip.as_str(), port, token), ("1.2.3.4", 2234, 9));
        }
        other => panic!("{:?}", other),
    }
    assert!(matches!(brokered_connection(18, &data("F"), "me"), FileWait::Wait));
    assert!(matches!(brokered_connection(18, &data("P"), "you"), FileWait::Wait));
    assert!(matches!(brokered_connection(3, &[], "you"), FileWait::Wait));
    assert!(matches!(
        brokered_connection(18, &[], "you"),
        FileWait::Failed(WireError::StringLength)
    ));
    assert!(matches!(
        brokered_connection(18, &[text("you"), text("F")].concat(), "you"),
        FileWait::Short
    ));
}
