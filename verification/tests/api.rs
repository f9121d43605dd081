use rinse::api::admin::{
    check_role, decide_role_change, needs_count, needs_target, role_changed_text,
};
use rinse::api::auth::require_admin;
use rinse::api::chat::{check_private_message, select_messages, SendMessageRequest};
use rinse::api::cover::default_size;
use rinse::api::direct_messages::{
    check_direct_message, check_recipient, clean_message, page_size, search_term,
};
use rinse::api::lists::{
    archive_disposition, archive_failure, archive_name, check_complete, count_incomplete,
    ArchiveStep,
};
use rinse::api::oauth::{check_configured, check_service, PlaylistsQuery};
use rinse::api::queue::{cancel_answer, check_track, check_tracks, TrackRequest};
use rinse::api::uploads::{
    show_status, updated_config, UpdateUploadConfigRequest, UploadConfigResponse, UploadStatus,
};
use rinse::api::ws::is_active;
use rinse::api::Refusal;
use rinse::protocol::router::ChatMessage;

fn said(r: Refusal) -> (u16, String) {
    (r.status, r.error)
}

#[test]
fn roles_are_checked() {
    for role in ["admin", "user", "viewer"] {
        assert!(check_role(role).is_ok());
    }
    assert_eq!(
        said(check_role("root").unwrap_err()),
        (400, "Invalid role 'root'. Must be 'admin', 'user', or 'viewer'".to_string())
    );
    assert!(!needs_target("admin"));
    assert!(needs_target("user"));
    assert_eq!(role_changed_text("user"), "User role updated to 'user'");
}

#[test]
fn only_admins_are_let_through() {
    assert!(require_admin(Some("admin")).is_ok());
    for role in [Some("user"), Some("viewer"), Some("Admin"), Some(""), None] {
        assert_eq!(
            said(require_admin(role).unwrap_err()),
            (403, "Admin access required".to_string())
        );
    }
}

#[test]
fn admins_are_counted_for_admins_alone() {
    assert!(needs_count(Some("admin")));
    for target in [Some("user"), Some("viewer"), None] {
        assert!(!needs_count(target));
        let few = decide_role_change("user", target, 0).map_err(said);
        assert_eq!(few, decide_role_change("user", target, 9).map_err(said));
    }
}

#[test]
fn last_admin_stays() {
    assert!(decide_role_change("admin", None, 0).is_ok());
    assert!(decide_role_change("user", Some("admin"), 2).is_ok());
    assert!(decide_role_change("user", Some("viewer"), 1).is_ok());
    assert_eq!(
        said(decide_role_change("user", Some("admin"), 1).unwrap_err()),
        (
            400,
            "Cannot remove the last admin. Promote another user to admin first.".to_string()
        )
    );
    assert_eq!(
        said(decide_role_change("user", None, 5).unwrap_err()),
        (404, "User not found".to_string())
    );
    assert_eq!(said(decide_role_change("root", Some("user"), 5).unwrap_err()).0, 400);
}

fn chat(user: &str, text: &str) -> ChatMessage {
    ChatMessage {
        message_id: Some(1),
        timestamp: 2,
        username: user.to_string(),
        message: text.to_string(),
        incoming: true,
        is_new: false,
    }
}

#[test]
fn conversations_are_selected_whatever_the_case() {
    let history = vec![chat("Ann", "1"), chat("bob", "2"), chat("ANN", "3")];
    let shown = select_messages(&history, Some("ann"));
    let texts: Vec<&str> = shown.iter().map(|m| m.message.as_str()).collect();
    assert_eq!(texts, vec!["1", "3"]);
    assert_eq!((shown[0].username.as_str(), shown[0].timestamp), ("Ann", 2));
    assert!(shown[0].incoming && !shown[0].is_new);
    assert_eq!(select_messages(&history, None).len(), 3);
    assert!(select_messages(&history, Some("an")).is_empty());
    // Only the case of ASCII letters is passed over.
    assert!(select_messages(&vec![chat("Ä", "1")], Some("ä")).is_empty());
}

#[test]
fn private_messages_need_a_recipient_and_a_text() {
    let request = |user: &str, text: &str| SendMessageRequest {
        username: user.to_string(),
        message: text.to_string(),
    };
    assert!(check_private_message(&request("ann", "hi")).is_ok());
    let refusal = (400, "Username and message are required".to_string());
    assert_eq!(said(check_private_message(&request("", "hi")).unwrap_err()), refusal);
    assert_eq!(said(check_private_message(&request("ann", "")).unwrap_err()), refusal);
}

#[test]
fn covers_are_thumbnails_by_default() {
    assert_eq!(default_size(), "thumb");
}

#[test]
fn pages_of_messages_are_bounded() {
    assert_eq!(page_size(None), 50);
    assert_eq!(page_size(Some(20)), 20);
    assert_eq!(page_size(Some(100)), 100);
    assert_eq!(page_size(Some(101)), 100);
    assert_eq!(page_size(Some(-1)), -1);
}

#[test]
fn messages_are_trimmed_and_bounded() {
    assert_eq!(clean_message(" hi\n").unwrap(), "hi");
    let refusal = (400, "Message must be between 1 and 2000 characters".to_string());
    assert_eq!(said(clean_message(" \t ").unwrap_err()), refusal);
    assert!(clean_message(&"a".repeat(2000)).is_ok());
    assert_eq!(said(clean_message(&"a".repeat(2001)).unwrap_err()), refusal);
    assert_eq!(said(clean_message(&"ä".repeat(1001)).unwrap_err()), refusal);
}

#[test]
fn direct_messages_go_to_others() {
    assert_eq!(check_direct_message(" hi ", 1, 2).unwrap(), "hi");
    assert_eq!(
        said(check_direct_message("hi", 1, 1).unwrap_err()),
        (400, "Cannot send a message to yourself".to_string())
    );
    assert_eq!(
        said(check_direct_message("", 1, 1).unwrap_err()).1,
        "Message must be between 1 and 2000 characters"
    );
    assert!(check_recipient(true).is_ok());
    assert_eq!(
        said(check_recipient(false).unwrap_err()),
        (404, "Recipient not found".to_string())
    );
}

#[test]
fn empty_searches_look_for_nothing() {
    assert_eq!(search_term(" ann "), Some("ann".to_string()));
    assert_eq!(search_term("  "), None);
}

#[test]
fn lists_are_downloaded_when_complete() {
    let statuses = |s: &[&str]| s.iter().map(|x| x.to_string()).collect::<Vec<String>>();
    assert!(check_complete(&statuses(&[])).is_ok());
    assert!(check_complete(&statuses(&["completed", "completed"])).is_ok());
    let mixed = statuses(&["completed", "failed", "pending"]);
    assert_eq!(count_incomplete(&mixed), 2);
    assert_eq!(
        said(check_complete(&mixed).unwrap_err()),
        (409, "2 items not yet downloaded".to_string())
    );
}

#[test]
fn archives_are_named() {
    assert_eq!(archive_name(17), "list_17.zip");
    assert_eq!(archive_name(-3), "list_-3.zip");
    assert_eq!(archive_disposition("My List"), "attachment; filename=\"My List.zip\"");
}

#[test]
fn archive_failures_are_explained() {
    let text = |step| said(archive_failure(step));
    assert_eq!(text(ArchiveStep::Read), (500, "Failed to read file".to_string()));
    assert_eq!(text(ArchiveStep::Open), (500, "Failed to open zip file".to_string()));
    for step in [ArchiveStep::Create, ArchiveStep::Begin, ArchiveStep::Write, ArchiveStep::Finish] {
        assert_eq!(text(step), (500, "Failed to create zip file".to_string()));
    }
}

#[test]
fn pages_of_playlists_are_bounded() {
    assert_eq!(PlaylistsQuery { limit: None, offset: None }.page(), (50, 0));
    assert_eq!(PlaylistsQuery { limit: Some(10), offset: Some(5) }.page(), (10, 5));
    assert_eq!(PlaylistsQuery { limit: Some(51), offset: Some(-5) }.page(), (50, -5));
}

#[test]
fn services_are_checked() {
    assert!(check_service("spotify", true, true).is_ok());
    assert_eq!(
        said(check_service("x", false, false).unwrap_err()),
        (400, "Unknown service: x".to_string())
    );
    assert_eq!(
        said(check_service("spotify", true, false).unwrap_err()),
        (503, "OAuth service not available".to_string())
    );
    assert!(check_configured("spotify", true).is_ok());
    assert_eq!(
        said(check_configured("spotify", false).unwrap_err()),
        (501, "spotify integration is not configured".to_string())
    );
}

fn track(name: &str, artist: Option<&str>) -> TrackRequest {
    TrackRequest { track: name.to_string(), artist: artist.map(|a| a.to_string()) }
}

#[test]
fn queries_join_artist_and_track() {
    assert_eq!(track(" Song ", Some(" Ann ")).search_query(), "Ann Song");
    assert_eq!(track(" Song ", Some("  ")).search_query(), "Song");
    assert_eq!(track("Song", None).search_query(), "Song");
    assert_eq!(check_track(&track("Song", Some("Ann"))).unwrap(), "Ann Song");
    assert_eq!(
        said(check_track(&track("  ", Some("Ann"))).unwrap_err()),
        (400, "Track name cannot be empty".to_string())
    );
}

#[test]
fn lists_of_tracks_are_checked() {
    let queued = check_tracks(&vec![
        track(" One ", Some("Ann")),
        track("  ", Some("Bob")),
        track("Two", None),
    ])
    .unwrap();
    assert_eq!(queued.len(), 2);
    assert_eq!(queued[0].query, "Ann One");
    assert_eq!(queued[0].track, " One ");
    assert_eq!(queued[0].artist, Some("Ann".to_string()));
    assert_eq!(queued[1].query, "Two");
    assert_eq!(queued[1].artist, None);
    assert_eq!(
        said(check_tracks(&vec![]).unwrap_err()),
        (400, "Tracks list cannot be empty".to_string())
    );
    assert_eq!(
        said(check_tracks(&vec![track(" ", None)]).unwrap_err()),
        (400, "All tracks are empty".to_string())
    );
}

#[test]
fn cancellations_are_told() {
    let yes = cancel_answer(4, true);
    assert!(yes.cancelled);
    assert_eq!(yes.message, "Search 4 cancelled");
    let no = cancel_answer(4, false);
    assert!(!no.cancelled);
    assert_eq!(no.message, "Search 4 not found or already processing");
}

#[test]
fn upload_settings_change_where_asked() {
    let config = UploadConfigResponse {
        max_upload_slots: 3,
        max_upload_speed_kbps: 100,
        sharing_enabled: true,
    };
    let nothing = UpdateUploadConfigRequest {
        max_upload_slots: None,
        max_upload_speed_kbps: None,
        sharing_enabled: None,
    };
    assert_eq!(updated_config(config, &nothing), config);
    let all = UpdateUploadConfigRequest {
        max_upload_slots: Some(5),
        max_upload_speed_kbps: Some(0),
        sharing_enabled: Some(false),
    };
    let updated = updated_config(config, &all);
    assert_eq!(updated.max_upload_slots, 5);
    assert_eq!(updated.max_upload_speed_kbps, 0);
    assert!(!updated.sharing_enabled);
}

#[test]
fn upload_statuses_are_shown() {
    assert_eq!(show_status(&UploadStatus::Queued), "queued");
    assert_eq!(
        show_status(&UploadStatus::Transferring { bytes_sent: 10 }),
        "transferring (10B sent)"
    );
    assert_eq!(show_status(&UploadStatus::Completed { bytes_sent: 0 }), "completed (0B)");
    assert_eq!(show_status(&UploadStatus::Failed { error: "x".to_string() }), "failed: x");
}

#[test]
fn items_in_progress_are_active() {
    for status in ["pending", "downloading", "queued"] {
        assert!(is_active(status));
    }
    assert!(!is_active("completed"));
    assert!(!is_active("deleted"));
}
