use rinse::db::{
    anywhere_pattern, batch_statement, decode_sources, encode_sources, known_metadata,
    lookup_allowed, placeholders, restored_sources, stored_sources, BatchChange, LOOKUP_INTERVAL,
};
use rinse::models::TrackMetadata;

#[test]
fn every_value_has_a_placeholder() {
    assert_eq!(placeholders(0), "");
    assert_eq!(placeholders(1), "?");
    assert_eq!(placeholders(3), "?,?,?");
}

#[test]
fn statements_for_several_rows() {
    assert_eq!(batch_statement(BatchChange::DeleteLists, 0), None);
    assert_eq!(
        batch_statement(BatchChange::DeleteLists, 2),
        Some("DELETE FROM lists WHERE id IN (?,?)".to_string())
    );
    assert_eq!(
        batch_statement(BatchChange::RemoveFromList, 1),
        Some("DELETE FROM list_items WHERE list_id = ? AND item_id IN (?)".to_string())
    );
    assert_eq!(
        batch_statement(BatchChange::DeleteItems, 2),
        Some(
            "UPDATE items SET download_status = 'deleted', download_progress = 0.0 WHERE id IN (?,?)"
                .to_string()
        )
    );
    assert_eq!(anywhere_pattern("song"), "%song%");
}

#[test]
fn sources_are_read_back() {
    let sources = vec!["music\"brainz".to_string(), "ä".to_string()];
    let stored = encode_sources(&sources);
    assert_eq!(stored, "[\"music\\\"brainz\",\"ä\"]");
    assert_eq!(decode_sources(Some(&stored)), sources);
    assert_eq!(encode_sources(&vec![]), "[]");
    assert!(decode_sources(None).is_empty());
    assert!(decode_sources(Some("no json")).is_empty());
    assert!(decode_sources(Some("[1]")).is_empty());
}

#[test]
fn missing_sources_are_none() {
    assert_eq!(stored_sources(None), "[]");
    assert_eq!(stored_sources(Some("[\"a\"]".to_string())), "[\"a\"]");
    assert!(restored_sources(None).is_empty());
    assert_eq!(restored_sources(Some(vec!["a".to_string()])), vec!["a".to_string()]);
}

#[test]
fn metadata_without_content_is_not_known() {
    let mut m = TrackMetadata::of_file("a.mp3");
    m.album = Some("Album".to_string());
    m.title = None;
    assert!(known_metadata(m).is_none());
    let mut m = TrackMetadata::of_file("a.mp3");
    m.title = None;
    m.artist = Some("Ann".to_string());
    assert_eq!(known_metadata(m).unwrap().artist, Some("Ann".to_string()));
}

#[test]
fn lookups_are_a_day_apart() {
    assert!(lookup_allowed(None, 0));
    assert!(lookup_allowed(Some(5), 5 + LOOKUP_INTERVAL));
    assert!(!lookup_allowed(Some(5), 4 + LOOKUP_INTERVAL));
    assert!(!lookup_allowed(Some(i64::MAX), i64::MIN));
    assert!(lookup_allowed(Some(i64::MIN), i64::MAX));
}
