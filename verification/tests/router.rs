use rinse::protocol::router::{
    address_request, outgoing_message, parse_chat_message, parse_connect_to_peer,
    parse_peer_address, private_message, remember, resolve_ip, route_message, ChatMessage,
    RouterMove,
};
use rinse::wire::{message_frame, Halt, WireError};

fn text(s: &str) -> Vec<u8> {
    let mut v = (s.len() as u32).to_le_bytes().to_vec();
    v.extend_from_slice(s.as_bytes());
    v
}

fn word(n: u32) -> Vec<u8> {
    n.to_le_bytes().to_vec()
}

fn connect(kind: &str) -> Vec<u8> {
    [text("you"), text(kind), vec![4, 3, 2, 1], word(2234), word(9)].concat()
}

#[test]
fn connect_requests_are_parsed() {
    let msg = parse_connect_to_peer(&connect("P")).unwrap();
    assert_eq!((msg.username.as_str(), msg.conn_type.as_str()), ("you", "P"));
    assert_eq!((msg.ip.as_str(), msg.port, msg.token), ("1.2.3.4", 2234, 9));
    assert!(matches!(parse_connect_to_peer(&text("you")), Err(Halt::Failed(WireError::StringLength))));
    let cut = connect("P");
    assert!(matches!(parse_connect_to_peer(&cut[..cut.len() - 1]), Err(Halt::Short)));
}

#[test]
fn peer_addresses_are_parsed() {
    let data = [text("You"), vec![4, 3, 2, 1], word(2234)].concat();
    let response = parse_peer_address(&data).unwrap();
    assert_eq!((response.username.as_str(), response.ip.as_str(), response.port), ("You", "1.2.3.4", 2234));
    assert!(matches!(
        parse_peer_address(&data[..data.len() - 1]),
        Err(WireError::PeerAddressTooShort)
    ));
}

#[test]
fn chat_messages_are_parsed() {
    let data = [word(5), word(6), text("you"), text("hi"), vec![0]].concat();
    let message = parse_chat_message(&data).unwrap();
    assert_eq!((message.message_id, message.timestamp), (Some(5), 6));
    assert_eq!((message.username.as_str(), message.message.as_str()), ("you", "hi"));
    assert!(message.incoming);
    assert!(!message.is_new);
    assert!(parse_chat_message(&data[..data.len() - 1]).unwrap().is_new);
    assert!(matches!(parse_chat_message(&[0; 7]), Err(WireError::ChatTooShort)));
    assert!(matches!(parse_chat_message(&[0; 8]), Err(WireError::StringLength)));
}

#[test]
fn our_own_address_is_the_loopback() {
    assert_eq!(resolve_ip(Some("1.2.3.4"), "1.2.3.4"), "127.0.0.1");
    assert_eq!(resolve_ip(Some("1.2.3.4"), "1.2.3.5"), "1.2.3.5");
    assert_eq!(resolve_ip(None, "1.2.3.4"), "1.2.3.4");
}

#[test]
fn connect_requests_are_routed() {
    assert!(matches!(
        route_message(18, &connect("P"), Some("1.2.3.4")),
        RouterMove::ConnectPeer(msg) if msg.ip == "1.2.3.4"
    ));
    match route_message(18, &connect("F"), Some("1.2.3.4")) {
        RouterMove::ConnectFile { ip, port, token } => {
            assert_eq!((ip.as_str(), port, token), ("127.0.0.1", 2234, 9));
        }
        other => panic!("{:?}", other),
    }
    assert!(matches!(route_message(18, &connect("D"), None), RouterMove::Ignore));
    assert!(matches!(
        route_message(18, &[], None),
        RouterMove::Unreadable(WireError::StringLength)
    ));
    let cut = connect("P");
    assert!(matches!(route_message(18, &cut[..cut.len() - 1], None), RouterMove::Short));
}

#[test]
fn addresses_reach_those_who_asked() {
    let (key, message) = address_request("YOU");
    assert_eq!(key, "you");
    assert_eq!(message, message_frame(3, &text("YOU")));
    let data = [text("You"), vec![4, 3, 2, 1], word(2234)].concat();
    match route_message(3, &data, None) {
        RouterMove::Address { key: k, response } => {
            assert_eq!(k, key);
            assert_eq!(response.username, "You");
        }
        other => panic!("{:?}", other),
    }
    assert!(matches!(
        route_message(3, &text("You"), None),
        RouterMove::Unreadable(WireError::PeerAddressTooShort)
    ));
}

#[test]
fn chat_is_acknowledged_under_its_number() {
    let data = [word(5), word(6), text("you"), text("hi")].concat();
    match route_message(22, &data, None) {
        RouterMove::Chat { ack, message } => {
            assert_eq!(ack, message_frame(23, &word(5)));
            assert_eq!(message.message, "hi");
        }
        other => panic!("{:?}", other),
    }
    assert!(matches!(route_message(22, &[], None), RouterMove::Unreadable(WireError::ChatTooShort)));
    assert!(matches!(route_message(99, &[], None), RouterMove::Ignore));
}

#[test]
fn history_keeps_the_last_500() {
    let mut history: Vec<ChatMessage> = Vec::new();
    for i in 0..505 {
        remember(&mut history, outgoing_message("you", &i.to_string(), i));
    }
    assert_eq!(history.len(), 500);
    assert_eq!(history[0].message, "5");
    assert_eq!(history[499].message, "504");
}

#[test]
fn outgoing_messages_are_recorded() {
    let m = outgoing_message("you", "hi", 7);
    assert_eq!((m.message_id, m.timestamp), (None, 7));
    assert!(!m.incoming);
    assert!(m.is_new);
    assert_eq!(private_message("you", "hi"), message_frame(22, &[text("you"), text("hi")].concat()));
}
