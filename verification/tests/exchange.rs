use rinse::protocol::client::{legacy_reply, peer_request, queue_reply, PeerRequest, QueueOutcome};
use rinse::protocol::messages::{MessageEncoder, PeerMessage};
use rinse::protocol::peer::{
    handshake_step, negotiation_step, peer_init_message, pierce_firewall_message,
    queue_upload_message, read_negotiation_answer, transfer_request_message, transfer_step,
    Handshake, HandshakeMove, Input, Negotiating, NegotiationMove, NegotiationResult, TransferMove,
    Want,
};

fn word_at(message: &[u8], i: usize) -> u32 {
    u32::from_le_bytes([message[i], message[i + 1], message[i + 2], message[i + 3]])
}

fn understood(message: &[u8]) -> PeerRequest {
    peer_request(word_at(message, 4), message[8..].to_vec(), "bob", "10.0.0.1:2234")
}

#[test]
fn requests_are_understood_by_the_peer() {
    match understood(&queue_upload_message("a\\b.mp3")) {
        PeerRequest::Queue { filename } => assert_eq!(filename, "a\\b.mp3"),
        other => panic!("{:?}", other),
    }
    match understood(&transfer_request_message(9, "a.mp3")) {
        PeerRequest::LegacyQueue { token, filename } => {
            assert_eq!((token, filename.as_str()), (9, "a.mp3"))
        }
        other => panic!("{:?}", other),
    }
    let search = PeerMessage::FileSearchRequest { token: 4, query: "moby dick".to_string() };
    match understood(&search.encode().unwrap()) {
        PeerRequest::Search { token, query } => {
            assert_eq!((token, query.as_str()), (4, "moby dick"))
        }
        other => panic!("{:?}", other),
    }
    let queue = PeerMessage::QueueUpload { filename: "x.ogg".to_string() };
    assert_eq!(queue.encode().unwrap().to_vec(), queue_upload_message("x.ogg"));
}

#[test]
fn a_place_in_the_queue_is_read_back() {
    let answer = queue_reply("a.mp3", &QueueOutcome::Queued(12));
    assert_eq!(word_at(&answer, 4), 44);
    assert!(matches!(transfer_step(44, &answer[8..]), TransferMove::Wait));
    match read_negotiation_answer(5, 44, &answer[8..]) {
        Ok(NegotiationResult::Queued { transfer_token, position, reason }) => {
            assert_eq!((transfer_token, position), (5, Some(12)));
            assert_eq!(reason, "Position 12");
        }
        other => panic!("{:?}", other),
    }
}

#[test]
fn a_refusal_is_read_back() {
    for (outcome, text) in [
        (QueueOutcome::Rejected("File not shared.".to_string()), "File not shared."),
        (QueueOutcome::Disabled, "Sharing disabled"),
    ] {
        let answer = queue_reply("a.mp3", &outcome);
        assert_eq!(word_at(&answer, 4), 50);
        assert!(matches!(
            transfer_step(50, &answer[8..]),
            TransferMove::Denied { reason } if reason == text
        ));
        assert!(matches!(
            read_negotiation_answer(5, 50, &answer[8..]),
            Ok(NegotiationResult::Denied { reason }) if reason == text
        ));
    }
}

#[test]
fn an_old_answer_is_read_back() {
    let answer = legacy_reply(9, &QueueOutcome::Queued(3)).unwrap();
    let n = word_at(&answer, 0);
    assert_eq!(answer.len() as u32, n + 4);
    assert!(matches!(
        negotiation_step(5, Negotiating::ReplyAllowed { len: n }, Input::Byte(answer[12])),
        NegotiationMove::Read { want: Want::Data(len), state: Negotiating::Reason } if len == n - 9
    ));
    assert!(matches!(
        negotiation_step(5, Negotiating::Reason, Input::Data(answer[13..].to_vec())),
        NegotiationMove::Done(NegotiationResult::Queued { transfer_token: 5, position: None, reason })
            if reason == "Queued"
    ));
    let answer = legacy_reply(9, &QueueOutcome::Rejected("Banned".to_string())).unwrap();
    assert!(matches!(
        negotiation_step(5, Negotiating::Reason, Input::Data(answer[13..].to_vec())),
        NegotiationMove::Done(NegotiationResult::Denied { reason }) if reason == "Banned"
    ));
}

#[test]
fn a_pierced_connection_is_answered() {
    let sent = pierce_firewall_message(77);
    assert!(matches!(
        handshake_step(Handshake::Incoming, Input::Word(word_at(&sent, 0)), "me"),
        HandshakeMove::Read { want: Want::Byte, state: Handshake::PierceType, .. }
    ));
    match handshake_step(Handshake::PierceToken, Input::Word(word_at(&sent, 5)), "me") {
        HandshakeMove::Read { send, want: Want::Word, state: Handshake::TransferToken } => {
            assert_eq!(send, peer_init_message("me", "F"))
        }
        other => panic!("{:?}", other),
    }
}
