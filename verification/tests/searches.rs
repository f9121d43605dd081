use rinse::protocol::client::SearchResult;
use rinse::protocol::messages::SearchFile;
use rinse::protocol::searches::{
    follow_connect_request, keep_waiting, search_outcome, SearchBook, SECOND,
};

fn result(user: &str, files: usize) -> SearchResult {
    let file = SearchFile {
        code: 1,
        filename: "a.mp3".to_string(),
        size: 1,
        extension: "mp3".to_string(),
        attributes: vec![],
    };
    SearchResult {
        username: user.to_string(),
        files: vec![file; files],
        has_slots: true,
        avg_speed: 0,
        queue_length: 0,
        peer_ip: String::new(),
        peer_port: 0,
    }
}

#[test]
fn delivered_results_are_collected_in_order() {
    let mut book = SearchBook::new();
    assert!(!book.has_active());
    book.begin(1);
    assert!(book.has_active());
    assert!(book.deliver(1, result("a", 1)));
    assert!(book.deliver(1, result("b", 0)));
    assert_eq!(book.with_files(1), 1);
    let names: Vec<String> = book.collect(1).into_iter().map(|r| r.username).collect();
    assert_eq!(names, vec!["a", "b"]);
    assert!(book.collect(1).is_empty());
    // Results that come in later are collected later.
    assert!(book.deliver(1, result("c", 1)));
    assert_eq!(book.collect(1).len(), 1);
}

#[test]
fn searches_do_not_mix() {
    let mut book = SearchBook::new();
    book.begin(1);
    book.begin(2);
    assert!(book.deliver(1, result("a", 1)));
    assert_eq!(book.with_files(2), 0);
    assert!(book.collect(2).is_empty());
    assert_eq!(book.collect(1).len(), 1);
}

#[test]
fn results_for_ended_searches_are_dropped() {
    let mut book = SearchBook::new();
    book.begin(1);
    assert!(book.deliver(1, result("a", 1)));
    book.finish(1);
    assert!(!book.has_active());
    assert!(!book.deliver(1, result("b", 1)));
    assert!(book.collect(1).is_empty());
}

#[test]
fn searches_end_in_time() {
    let timeout = 10 * SECOND;
    assert!(keep_waiting(0, timeout, 0, 100));
    assert!(keep_waiting(3 * SECOND, timeout, 0, 100));
    assert!(!keep_waiting(3 * SECOND + 1, timeout, 0, 10));
    assert!(keep_waiting(3 * SECOND + 1, timeout, 0, 9));
    assert!(keep_waiting(4 * SECOND, timeout, 2 * SECOND, 5));
    assert!(!keep_waiting(4 * SECOND, timeout, 2 * SECOND + 1, 5));
    assert!(keep_waiting(4 * SECOND, timeout, 3 * SECOND, 4));
    assert!(keep_waiting(7 * SECOND, timeout, 7 * SECOND, 0));
    assert!(!keep_waiting(7 * SECOND + 1, timeout, 0, 0));
    assert!(keep_waiting(9 * SECOND, timeout, 9 * SECOND, 1));
    assert!(!keep_waiting(10 * SECOND, timeout, 0, 1));
    assert!(!keep_waiting(0, 0, 0, 0));
}

#[test]
fn empty_searches_have_failed() {
    assert!(search_outcome(vec![]).is_err());
    assert_eq!(search_outcome(vec![result("a", 0)]).unwrap().len(), 1);
}

#[test]
fn connect_requests_are_followed_while_there_is_a_reason() {
    assert!(follow_connect_request(true, false));
    assert!(follow_connect_request(false, true));
    assert!(!follow_connect_request(false, false));
}
