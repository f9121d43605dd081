use rinse::api::metadata::{
    check_admin, check_item, check_refresh, cleared, refreshed, shown_metadata, CoverBackfill,
    CoverOutcome, MetadataError, MetadataJob, RefreshQuery,
};
use rinse::models::TrackMetadata;

fn said(e: MetadataError) -> (u16, String, String) {
    (e.status(), e.code, e.error)
}

#[test]
fn errors_have_their_status() {
    let status = |code: &str| {
        MetadataError { error: String::new(), code: code.to_string() }.status()
    };
    assert_eq!(status("not_found"), 404);
    assert_eq!(status("rate_limited"), 429);
    assert_eq!(status("job_running"), 409);
    assert_eq!(status("forbidden"), 403);
    assert_eq!(status("internal_error"), 500);
    let internal = MetadataError::internal("Database error", "x");
    assert_eq!(said(internal), (500, "internal_error".to_string(), "Database error: x".to_string()));
}

#[test]
fn requests_are_checked() {
    assert!(check_item(7, true).is_ok());
    assert_eq!(
        said(check_item(7, false).unwrap_err()),
        (404, "not_found".to_string(), "Item not found: 7".to_string())
    );
    assert!(check_refresh(true).is_ok());
    assert_eq!(
        said(check_refresh(false).unwrap_err()),
        (
            429,
            "rate_limited".to_string(),
            "Metadata can only be refreshed once per 24 hours".to_string()
        )
    );
    assert!(check_admin(true).is_ok());
    assert_eq!(
        said(check_admin(false).unwrap_err()),
        (403, "forbidden".to_string(), "Admin access required".to_string())
    );
    assert!(RefreshQuery { skip_existing: Some(true) }.skips());
    assert!(!RefreshQuery { skip_existing: Some(false) }.skips());
    assert!(!RefreshQuery { skip_existing: None }.skips());
}

#[test]
fn metadata_is_shown_and_answered() {
    let mut known = TrackMetadata::of_file("a.mp3");
    known.artist = Some("Ann".to_string());
    assert_eq!(shown_metadata(Some(known), "b.mp3").artist, Some("Ann".to_string()));
    assert_eq!(shown_metadata(None, "b.mp3").title, Some("b.mp3".to_string()));
    let answer = refreshed(7, TrackMetadata::of_file("a.mp3"));
    assert_eq!((answer.item_id, answer.message.as_str()), (7, "Metadata refreshed successfully"));
    assert_eq!(answer.metadata.title, Some("a.mp3".to_string()));
    let answer = cleared(7);
    assert_eq!((answer.item_id, answer.message.as_str()), (7, "Metadata cleared successfully"));
}

#[test]
fn one_scan_runs_at_a_time() {
    let mut job = MetadataJob::new();
    assert!(job.begin().is_ok());
    assert_eq!(
        said(job.begin().unwrap_err()),
        (409, "job_running".to_string(), "A metadata job is already running".to_string())
    );
    let started = job.start(10);
    assert_eq!((started.message.as_str(), started.total_items), ("Metadata job started for 10 items", 10));
    let status = job.status(4);
    assert!(status.running);
    assert_eq!((status.total, status.processed, status.items_without_metadata), (10, 6, 4));
    assert_eq!(job.status(12).processed, 0);
    job.finish();
    let status = job.status(4);
    assert!(!status.running);
    assert_eq!((status.total, status.processed), (0, 0));
    assert!(job.begin().is_ok());
    let started = job.start(0);
    assert_eq!((started.message.as_str(), started.total_items), ("No items need metadata lookup", 0));
    assert!(!job.status(0).running);
}

#[test]
fn covers_are_counted() {
    let mut job = CoverBackfill::new();
    assert!(job.begin().is_ok());
    assert_eq!(
        said(job.begin().unwrap_err()),
        (409, "job_running".to_string(), "A cover backfill job is already running".to_string())
    );
    let started = job.start(3);
    assert_eq!((started.message.as_str(), started.total_items), ("Cover backfill started for 3 items", 3));
    job.record(CoverOutcome::Cached);
    job.record(CoverOutcome::Failed);
    job.record(CoverOutcome::NoAddress);
    let status = job.status();
    assert!(status.running);
    assert_eq!((status.total, status.processed, status.failed), (3, 3, 1));
    job.finish();
    let status = job.status();
    assert!(!status.running);
    assert_eq!((status.total, status.processed, status.failed), (3, 3, 1));
    assert!(job.begin().is_ok());
    assert_eq!(job.start(0).message, "No items need cover art caching");
    assert_eq!(job.status(), status);
}
