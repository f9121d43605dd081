//! Metadata API endpoints
//!
//! Rules for:
//! - Getting metadata for an item
//! - Manually refreshing metadata (with 24-hour rate limit)
//! - Starting a library-wide metadata scan job
//! - Getting job status

use crate::models::TrackMetadata;
use crate::text::{decimal, push_decimal, push_signed, push_text, same_text, signed_decimal};
use vstd::prelude::*;

verus! {

/// Error response for metadata endpoints
#[derive(Debug)]
pub struct MetadataError {
    pub error: String,
    pub code: String,
}

/// An error with its texts as character sequences.
#[verifier::ext_equal]
pub struct MetadataErrorView {
    pub error: Seq<char>,
    pub code: Seq<char>,
}

impl View for MetadataError {
    type V = MetadataErrorView;

    open spec fn view(&self) -> MetadataErrorView {
        MetadataErrorView { error: self.error@, code: self.code@ }
    }
}

/// The HTTP status that goes with the code of an error.
pub open spec fn status_of(code: Seq<char>) -> u16 {
    if code == "not_found"@ {
        404
    } else if code == "rate_limited"@ {
        429
    } else if code == "job_running"@ {
        409
    } else if code == "forbidden"@ {
        403
    } else {
        500
    }
}

/// A result that is an error with a text and a code.
pub open spec fn failed<T>(r: Result<T, MetadataError>, error: Seq<char>, code: Seq<char>) -> bool {
    r matches Err(e) && e@ == (MetadataErrorView { error, code })
}

impl MetadataError {
    /// The HTTP status of the error.
    pub fn status(&self) -> (r: u16)
        ensures
            r == status_of(self.code@),
    {
        if same_text(self.code.as_str(), "not_found") {
            404
        } else if same_text(self.code.as_str(), "rate_limited") {
            429
        } else if same_text(self.code.as_str(), "job_running") {
            409
        } else if same_text(self.code.as_str(), "forbidden") {
            403
        } else {
            500
        }
    }

    /// The error with a text and a code.
    fn with(error: &str, code: &str) -> (r: MetadataError)
        ensures
            r@ == (MetadataErrorView { error: error@, code: code@ }),
    {
        MetadataError { error: error.to_owned(), code: code.to_owned() }
    }

    /// The error of a step that failed for a reason.
    pub fn internal(step: &str, reason: &str) -> (r: MetadataError)
        ensures
            r.error@ == step@ + ": "@ + reason@,
            r.code@ == "internal_error"@,
    {
        let mut error = step.to_owned();
        push_text(&mut error, ": ");
        push_text(&mut error, reason);
        MetadataError { error, code: "internal_error".to_owned() }
    }
}

/// Response for metadata refresh
#[derive(Debug)]
pub struct MetadataRefreshResponse {
    pub item_id: i64,
    pub metadata: TrackMetadata,
    pub message: String,
}

/// Response for starting a metadata job
#[derive(Debug)]
pub struct JobStartedResponse {
    pub message: String,
    pub total_items: i64,
}

/// Response for job status
#[derive(Debug)]
pub struct JobStatusResponse {
    pub running: bool,
    pub total: i64,
    pub processed: i64,
    pub items_without_metadata: i64,
}

/// Query parameters for metadata refresh
#[derive(Debug)]
pub struct RefreshQuery {
    /// If true, skip API lookups for items that already have artist + title + cover art
    pub skip_existing: Option<bool>,
}

impl RefreshQuery {
    /// Whether lookups are skipped: only where that is asked for.
    pub fn skips(&self) -> (r: bool)
        ensures
            r == (self.skip_existing == Some(true)),
    {
        match self.skip_existing {
            Some(skip) => skip,
            None => false,
        }
    }
}

/// Response for clearing metadata
#[derive(Debug)]
pub struct MetadataClearResponse {
    pub item_id: i64,
    pub message: String,
}

/// Checks that an item exists.
pub fn check_item(id: i64, found: bool) -> (r: Result<(), MetadataError>)
    ensures
        if found {
            r is Ok
        } else {
            failed(r, "Item not found: "@ + signed_decimal(id as int), "not_found"@)
        },
{
    if found {
        return Ok(());
    }
    let mut error = "Item not found: ".to_owned();
    push_signed(&mut error, id);
    Err(MetadataError { error, code: "not_found".to_owned() })
}

/// Checks that metadata may be refreshed.
pub fn check_refresh(allowed: bool) -> (r: Result<(), MetadataError>)
    ensures
        if allowed {
            r is Ok
        } else {
            failed(r, "Metadata can only be refreshed once per 24 hours"@, "rate_limited"@)
        },
{
    if allowed {
        Ok(())
    } else {
        Err(MetadataError::with("Metadata can only be refreshed once per 24 hours", "rate_limited"))
    }
}

/// Checks that the user is an administrator.
pub fn check_admin(is_admin: bool) -> (r: Result<(), MetadataError>)
    ensures
        if is_admin {
            r is Ok
        } else {
            failed(r, "Admin access required"@, "forbidden"@)
        },
{
    if is_admin {
        Ok(())
    } else {
        Err(MetadataError::with("Admin access required", "forbidden"))
    }
}

/// What is shown of an item: what is known of the track, or its file name as its title.
pub fn shown_metadata(known: Option<TrackMetadata>, filename: &str) -> (r: TrackMetadata)
    ensures
        match known {
            Some(m) => r == m,
            None => {
                &&& r.title matches Some(title) && title@ == filename@
                &&& r.artist is None && r.album is None && r.bpm is None && r.key is None
                &&& r.duration_ms is None && r.album_art_url is None && r.genre is None
                &&& r.year is None && r.track_number is None && r.label is None
                &&& r.musicbrainz_id is None && r.fetched_at is None && r.sources@.len() == 0
            },
        },
{
    match known {
        Some(m) => m,
        None => TrackMetadata::of_file(filename),
    }
}

/// Answers a refresh of the metadata of an item.
pub fn refreshed(item_id: i64, metadata: TrackMetadata) -> (r: MetadataRefreshResponse)
    ensures
        r.item_id == item_id,
        r.metadata == metadata,
        r.message@ == "Metadata refreshed successfully"@,
{
    MetadataRefreshResponse {
        item_id,
        metadata,
        message: "Metadata refreshed successfully".to_owned(),
    }
}

/// Answers that the metadata of an item was cleared.
pub fn cleared(item_id: i64) -> (r: MetadataClearResponse)
    ensures
        r.item_id == item_id,
        r.message@ == "Metadata cleared successfully"@,
{
    MetadataClearResponse { item_id, message: "Metadata cleared successfully".to_owned() }
}

// ---------------------------------------------------------------------------
// The library scan
// ---------------------------------------------------------------------------
/// The library-wide metadata scan: whether it runs, and how many items it began with.
#[derive(Debug)]
pub struct MetadataJob {
    running: bool,
    total: i64,
}

impl MetadataJob {
    /// Whether the scan runs.
    pub closed spec fn is_running(&self) -> bool {
        self.running
    }

    /// How many items the scan began with.
    pub closed spec fn size(&self) -> i64 {
        self.total
    }

    /// A scan that does not run has no items.
    #[verifier::type_invariant]
    spec fn consistent(self) -> bool {
        &&& self.total >= 0
        &&& !self.running ==> self.total == 0
    }

    /// No scan runs at first.
    pub fn new() -> (r: MetadataJob)
        ensures
            !r.is_running(),
            r.size() == 0,
    {
        MetadataJob { running: false, total: 0 }
    }

    /// Claims the scan: there is one at a time.
    pub fn begin(&mut self) -> (r: Result<(), MetadataError>)
        ensures
            final(self).is_running(),
            final(self).size() == old(self).size(),
            if old(self).is_running() {
                failed(r, "A metadata job is already running"@, "job_running"@)
            } else {
                r is Ok && final(self).size() == 0
            },
    {
        proof {
            use_type_invariant(&*self);
        }
        if self.running {
            Err(MetadataError::with("A metadata job is already running", "job_running"))
        } else {
            self.running = true;
            Ok(())
        }
    }

    /// Starts the scan over a number of items; without any there is nothing to do, and the
    /// scan is over.
    pub fn start(&mut self, total_items: i64) -> (r: JobStartedResponse)
        requires
            old(self).is_running(),
            old(self).size() == 0,
            total_items >= 0,
        ensures
            final(self).is_running() == (total_items > 0),
            final(self).size() == total_items,
            r.total_items == total_items,
            r.message@ == if total_items == 0 {
                "No items need metadata lookup"@
            } else {
                "Metadata job started for "@ + decimal(total_items as nat) + " items"@
            },
    {
        proof {
            use_type_invariant(&*self);
        }
        if total_items == 0 {
            self.running = false;
            return JobStartedResponse {
                message: "No items need metadata lookup".to_owned(),
                total_items: 0,
            };
        }
        self.total = total_items;
        let mut message = "Metadata job started for ".to_owned();
        push_decimal(&mut message, total_items as u64);
        push_text(&mut message, " items");
        JobStartedResponse { message, total_items }
    }

    /// Ends the scan, whether it is done or never started.
    pub fn finish(&mut self)
        ensures
            !final(self).is_running(),
            final(self).size() == 0,
    {
        self.total = 0;
        self.running = false;
    }

    /// Reports how far the scan is, from the number of items that are still without
    /// metadata.
    pub fn status(&self, items_without_metadata: i64) -> (r: JobStatusResponse)
        requires
            items_without_metadata >= 0,
        ensures
            r.running == self.is_running(),
            r.total == self.size(),
            r.items_without_metadata == items_without_metadata,
            r.processed == if self.is_running() && self.size() > items_without_metadata {
                self.size() - items_without_metadata
            } else {
                0
            },
            0 <= r.processed <= r.total,
    {
        proof {
            use_type_invariant(self);
        }
        let processed: i64 = if self.running && self.total > items_without_metadata {
            self.total - items_without_metadata
        } else {
            0
        };
        JobStatusResponse {
            running: self.running,
            total: self.total,
            processed,
            items_without_metadata,
        }
    }
}

// ---------------------------------------------------------------------------
// Cover Art Backfill
// ---------------------------------------------------------------------------
/// Response for starting a cover backfill job
#[derive(Debug)]
pub struct CoverBackfillResponse {
    pub message: String,
    pub total_items: i64,
}

/// Response for cover backfill status
#[derive(Debug, Clone, Copy, PartialEq, Eq, Structural)]
pub struct CoverBackfillStatusResponse {
    pub running: bool,
    pub total: i64,
    pub processed: i64,
    pub failed: i64,
}

/// What became of the cover of one item.
#[derive(Debug, Clone, Copy, PartialEq, Eq, Structural)]
pub enum CoverOutcome {
    /// The item has no address of a cover.
    NoAddress,
    /// The cover is cached now.
    Cached,
    /// The cover could not be had.
    Failed,
}

/// The job that caches covers: whether it runs, and how far it is.
#[derive(Debug)]
pub struct CoverBackfill {
    state: CoverBackfillStatusResponse,
}

impl CoverBackfill {
    /// What the job reports.
    pub closed spec fn report(&self) -> CoverBackfillStatusResponse {
        self.state
    }

    /// What failed was processed, and what was processed belongs to the job.
    #[verifier::type_invariant]
    spec fn consistent(self) -> bool {
        0 <= self.state.failed <= self.state.processed <= self.state.total
    }

    /// No job runs at first.
    pub fn new() -> (r: CoverBackfill)
        ensures
            r.report() == (CoverBackfillStatusResponse {
                running: false,
                total: 0,
                processed: 0,
                failed: 0,
            }),
    {
        CoverBackfill {
            state: CoverBackfillStatusResponse {
                running: false,
                total: 0,
                processed: 0,
                failed: 0,
            },
        }
    }

    /// Claims the job: there is one at a time.
    pub fn begin(&mut self) -> (r: Result<(), MetadataError>)
        ensures
            final(self).report() == (CoverBackfillStatusResponse {
                running: true,
                ..old(self).report()
            }),
            if old(self).report().running {
                failed(r, "A cover backfill job is already running"@, "job_running"@)
            } else {
                r is Ok
            },
    {
        proof {
            use_type_invariant(&*self);
        }
        if self.state.running {
            Err(MetadataError::with("A cover backfill job is already running", "job_running"))
        } else {
            let mut state = self.state;
            state.running = true;
            self.state = state;
            Ok(())
        }
    }

    /// Starts the job over a number of items, and counts anew; without any the job is over,
    /// and the counts of the last one stay.
    pub fn start(&mut self, total_items: i64) -> (r: CoverBackfillResponse)
        requires
            old(self).report().running,
            total_items >= 0,
        ensures
            final(self).report() == if total_items == 0 {
                (CoverBackfillStatusResponse { running: false, ..old(self).report() })
            } else {
                (CoverBackfillStatusResponse {
                    running: true,
                    total: total_items,
                    processed: 0,
                    failed: 0,
                })
            },
            r.total_items == total_items,
            r.message@ == if total_items == 0 {
                "No items need cover art caching"@
            } else {
                "Cover backfill started for "@ + decimal(total_items as nat) + " items"@
            },
    {
        proof {
            use_type_invariant(&*self);
        }
        if total_items == 0 {
            self.finish();
            return CoverBackfillResponse {
                message: "No items need cover art caching".to_owned(),
                total_items: 0,
            };
        }
        self.state =
        CoverBackfillStatusResponse { running: true, total: total_items, processed: 0, failed: 0 };
        let mut message = "Cover backfill started for ".to_owned();
        push_decimal(&mut message, total_items as u64);
        push_text(&mut message, " items");
        CoverBackfillResponse { message, total_items }
    }

    /// Counts one item.
    pub fn record(&mut self, outcome: CoverOutcome)
        requires
            old(self).report().processed < old(self).report().total,
        ensures
            final(self).report() == (CoverBackfillStatusResponse {
                processed: (old(self).report().processed + 1) as i64,
                failed: (old(self).report().failed + if outcome is Failed {
                    1int
                } else {
                    0int
                }) as i64,
                ..old(self).report()
            }),
    {
        proof {
            use_type_invariant(&*self);
        }
        let mut state = self.state;
        state.processed = state.processed + 1;
        if outcome == CoverOutcome::Failed {
            state.failed = state.failed + 1;
        }
        self.state = state;
    }

    /// Ends the job; the counts stay.
    pub fn finish(&mut self)
        ensures
            final(self).report() == (CoverBackfillStatusResponse {
                running: false,
                ..old(self).report()
            }),
    {
        proof {
            use_type_invariant(&*self);
        }
        let mut state = self.state;
        state.running = false;
        self.state = state;
    }

    /// Reports how far the job is: what failed was processed, and no more is processed than
    /// there is.
    pub fn status(&self) -> (r: CoverBackfillStatusResponse)
        ensures
            r == self.report(),
            0 <= r.failed <= r.processed <= r.total,
    {
        proof {
            use_type_invariant(self);
        }
        self.state
    }
}

/// Every kind of error has its own HTTP status, and one without a kind is our own fault.
pub proof fn law_errors_have_their_status(code: Seq<char>)
    ensures
        status_of("not_found"@) == 404,
        status_of("rate_limited"@) == 429,
        status_of("job_running"@) == 409,
        status_of("forbidden"@) == 403,
        code != "not_found"@ && code != "rate_limited"@ && code != "job_running"@ && code
            != "forbidden"@ ==> status_of(code) == 500,
{
    reveal_strlit("not_found");
    reveal_strlit("rate_limited");
    reveal_strlit("job_running");
    reveal_strlit("forbidden");
    assert("not_found"@[0] == 'n' && "rate_limited"@[0] == 'r' && "job_running"@[0] == 'j'
        && "forbidden"@[0] == 'f');
}

} // verus!
