use rinse::models::{DownloadStatus, QueueStatus, QueuedSearch, TrackMetadata, User};

#[test]
fn download_statuses_are_read_back() {
    for status in [
        DownloadStatus::Pending,
        DownloadStatus::Downloading,
        DownloadStatus::Completed,
        DownloadStatus::Failed,
    ] {
        assert_eq!(DownloadStatus::from(status.as_str().to_string()), status);
    }
    assert_eq!(DownloadStatus::from("deleted".to_string()), DownloadStatus::Pending);
    assert_eq!(DownloadStatus::Completed.as_str(), "completed");
}

#[test]
fn queue_statuses_are_read_back() {
    for status in [
        QueueStatus::Pending,
        QueueStatus::Processing,
        QueueStatus::Completed,
        QueueStatus::Failed,
        QueueStatus::Retry,
    ] {
        assert_eq!(QueueStatus::from(status.as_str().to_string()), status);
    }
    assert_eq!(QueueStatus::from("".to_string()), QueueStatus::Pending);
    assert_eq!(QueueStatus::Retry.as_str(), "retry");
}

#[test]
fn queued_searches_have_a_status() {
    let search = QueuedSearch {
        id: 1,
        user_id: 1,
        query: "q".to_string(),
        format: None,
        list_id: None,
        list_position: None,
        status: "retry".to_string(),
        item_id: None,
        error_message: None,
        created_at: 0,
        started_at: None,
        completed_at: None,
        retry_count: 1,
        client_id: None,
    };
    assert_eq!(search.queue_status(), QueueStatus::Retry);
}

#[test]
fn unknown_tracks_show_their_file_name() {
    let mut metadata = TrackMetadata::of_file("a.mp3");
    assert_eq!(metadata.title, Some("a.mp3".to_string()));
    assert!(metadata.is_known());
    metadata.title = None;
    assert!(!metadata.is_known());
    metadata.bpm = Some(120);
    assert!(metadata.is_known());
}

fn user() -> User {
    User {
        id: 7,
        username: "ann".to_string(),
        email: None,
        password_hash: "hash".to_string(),
        email_verified: true,
        verification_token: Some("token".to_string()),
        verification_token_expires_at: None,
        display_name: Some("Ann".to_string()),
        bio: None,
        avatar_path: Some("avatars/7.webp".to_string()),
        role: "user".to_string(),
        created_at: 5,
        updated_at: 6,
    }
}

#[test]
fn users_are_shown_without_their_secrets() {
    let shown = user().response();
    assert_eq!((shown.id, shown.username.as_str(), shown.email.as_str()), (7, "ann", ""));
    assert!(shown.email_verified);
    assert_eq!(shown.display_name, Some("Ann".to_string()));
    assert_eq!(shown.bio, None);
    assert!(shown.has_avatar);
    assert_eq!((shown.role.as_str(), shown.created_at), ("user", 5));
    let mut other = user();
    other.password_hash = "other".to_string();
    other.verification_token = None;
    assert_eq!(format!("{:?}", other.response()), format!("{:?}", user().response()));
    let mut bare = user();
    bare.email = Some("a@b.c".to_string());
    bare.avatar_path = None;
    let shown = bare.response();
    assert_eq!(shown.email, "a@b.c");
    assert!(!shown.has_avatar);
}
