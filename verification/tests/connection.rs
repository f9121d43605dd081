use rinse::protocol::connection::{
    address_answer, address_query, file_search, login_answer, queue_place_answer, queue_query,
    transfer_answer, transfer_query, ConnectionError,
};
use rinse::protocol::messages::{PeerMessage, ServerMessage};

fn login(success: bool) -> Option<ServerMessage> {
    Some(ServerMessage::LoginResponse {
        success,
        reason: "why".to_string(),
        greeting: None,
        ip: None,
    })
}

#[test]
fn logins_are_answered() {
    assert!(login_answer(login(true)).is_ok());
    assert!(matches!(login_answer(login(false)), Err(ConnectionError::LoginFailed(r)) if r == "why"));
    assert!(matches!(login_answer(Some(ServerMessage::Relogged)), Err(ConnectionError::Unexpected)));
    assert!(matches!(login_answer(None), Err(ConnectionError::Closed)));
}

#[test]
fn address_queries_are_answered() {
    assert!(matches!(address_query("x"), ServerMessage::GetPeerAddress { username } if username == "x"));
    let answer = ServerMessage::PeerAddress {
        username: "x".to_string(),
        ip: "1.2.3.4".to_string(),
        port: 5,
    };
    assert!(matches!(address_answer(Some(answer)), Ok((ip, 5)) if ip == "1.2.3.4"));
    assert!(matches!(address_answer(Some(ServerMessage::Relogged)), Err(ConnectionError::Unexpected)));
    assert!(matches!(address_answer(None), Err(ConnectionError::Closed)));
}

#[test]
fn transfers_are_answered() {
    assert!(matches!(
        transfer_query(7, "f"),
        PeerMessage::TransferRequest { direction: 0, token: 7, filename } if filename == "f"
    ));
    let answer = |allowed| Some(PeerMessage::TransferReply { token: 7, allowed, filesize: 10 });
    assert!(matches!(transfer_answer(answer(true)), Ok(10)));
    assert!(matches!(transfer_answer(answer(false)), Err(ConnectionError::TransferDenied)));
    assert!(matches!(
        transfer_answer(Some(PeerMessage::GetSharedFileList)),
        Err(ConnectionError::Unexpected)
    ));
    assert!(matches!(transfer_answer(None), Err(ConnectionError::Closed)));
}

#[test]
fn places_in_the_queue_are_answered() {
    assert!(matches!(queue_query("f"), PeerMessage::QueueUpload { filename } if filename == "f"));
    let answer = PeerMessage::PlaceInQueueReply { filename: "f".to_string(), place: 4 };
    assert!(matches!(queue_place_answer(Some(answer)), Ok(4)));
    assert!(matches!(
        queue_place_answer(Some(PeerMessage::GetSharedFileList)),
        Err(ConnectionError::Unexpected)
    ));
    assert!(matches!(queue_place_answer(None), Err(ConnectionError::Closed)));
}

#[test]
fn searches_are_asked_for() {
    assert!(matches!(
        file_search(7, "q"),
        ServerMessage::FileSearch { token: 7, query } if query == "q"
    ));
}
