//! Upload and sharing settings

use crate::text::{decimal, law_decimals_differ, push_decimal, push_text};
use vstd::prelude::*;

verus! {

/// Response for sharing statistics
#[derive(Debug)]
pub struct SharingStatsResponse {
    pub folder_count: u32,
    pub file_count: u32,
    pub enabled: bool,
}

/// Response for active/queued upload entries
#[derive(Debug)]
pub struct UploadEntryResponse {
    pub id: u64,
    pub username: String,
    pub filename: String,
    pub file_size: u64,
    pub status: String,
    pub queued_secs_ago: u64,
}

/// Response for listing uploads
#[derive(Debug)]
pub struct UploadsListResponse {
    pub entries: Vec<UploadEntryResponse>,
}

/// Request body for updating upload config
#[derive(Debug)]
pub struct UpdateUploadConfigRequest {
    pub max_upload_slots: Option<usize>,
    pub max_upload_speed_kbps: Option<u64>,
    pub sharing_enabled: Option<bool>,
}

/// Upload config response
#[derive(Debug, Clone, Copy, PartialEq, Eq, Structural)]
pub struct UploadConfigResponse {
    pub max_upload_slots: usize,
    pub max_upload_speed_kbps: u64,
    pub sharing_enabled: bool,
}

/// The given value, or the one there was.
pub open spec fn given_or<T>(given: Option<T>, there: T) -> T {
    match given {
        Some(v) => v,
        None => there,
    }
}

/// The settings after an update: what the request does not speak of stays as it is.
pub fn updated_config(config: UploadConfigResponse, request: &UpdateUploadConfigRequest) -> (r:
    UploadConfigResponse)
    ensures
        r.max_upload_slots == given_or(request.max_upload_slots, config.max_upload_slots),
        r.max_upload_speed_kbps == given_or(
            request.max_upload_speed_kbps,
            config.max_upload_speed_kbps,
        ),
        r.sharing_enabled == given_or(request.sharing_enabled, config.sharing_enabled),
{
    let mut updated = config;
    if let Some(slots) = request.max_upload_slots {
        updated.max_upload_slots = slots;
    }
    if let Some(speed) = request.max_upload_speed_kbps {
        updated.max_upload_speed_kbps = speed;
    }
    if let Some(enabled) = request.sharing_enabled {
        updated.sharing_enabled = enabled;
    }
    updated
}

/// Where an upload stands.
#[derive(Debug, Clone)]
pub enum UploadStatus {
    Queued,
    Transferring { bytes_sent: u64 },
    Completed { bytes_sent: u64 },
    Failed { error: String },
}

/// How the status of an upload is shown.
pub open spec fn status_text(status: UploadStatus) -> Seq<char> {
    match status {
        UploadStatus::Queued => "queued"@,
        UploadStatus::Transferring { bytes_sent } => "transferring ("@ + decimal(bytes_sent as nat)
            + "B sent)"@,
        UploadStatus::Completed { bytes_sent } => "completed ("@ + decimal(bytes_sent as nat)
            + "B)"@,
        UploadStatus::Failed { error } => "failed: "@ + error@,
    }
}

/// Shows the status of an upload.
pub fn show_status(status: &UploadStatus) -> (r: String)
    ensures
        r@ == status_text(*status),
{
    match status {
        UploadStatus::Queued => "queued".to_owned(),
        UploadStatus::Transferring { bytes_sent } => {
            let mut r = "transferring (".to_owned();
            push_decimal(&mut r, *bytes_sent);
            push_text(&mut r, "B sent)");
            r
        },
        UploadStatus::Completed { bytes_sent } => {
            let mut r = "completed (".to_owned();
            push_decimal(&mut r, *bytes_sent);
            push_text(&mut r, "B)");
            r
        },
        UploadStatus::Failed { error } => {
            let mut r = "failed: ".to_owned();
            push_text(&mut r, error.as_str());
            r
        },
    }
}

/// What a request gives replaces what was there, and what it does not give stays.
pub proof fn law_settings_stay_unless_given<T>(value: T, there: T)
    ensures
        given_or(Some(value), there) == value,
        given_or(None, there) == there,
{
}

/// A text between two others is told by the whole.
proof fn lemma_middle_is_told(head: Seq<char>, a: Seq<char>, b: Seq<char>, tail: Seq<char>)
    requires
        head + a + tail == head + b + tail,
    ensures
        a == b,
{
    let (x, y) = (head + a + tail, head + b + tail);
    assert(x.len() == head.len() + a.len() + tail.len());
    assert(y.len() == head.len() + b.len() + tail.len());
    assert(a.len() == b.len());
    assert(x.subrange(head.len() as int, (head.len() + a.len()) as int) =~= a);
    assert(y.subrange(head.len() as int, (head.len() + b.len()) as int) =~= b);
}

/// The status of an upload begins with the word for it, and two statuses that are shown alike
/// are of one kind and tell the same: the same number of bytes, or the same error.
pub proof fn law_status_text_tells_the_status(a: UploadStatus, b: UploadStatus)
    ensures
        match a {
            UploadStatus::Queued => status_text(a) == "queued"@,
            UploadStatus::Transferring { bytes_sent } => "transferring ("@.is_prefix_of(
                status_text(a),
            ),
            UploadStatus::Completed { bytes_sent } => "completed ("@.is_prefix_of(status_text(a)),
            UploadStatus::Failed { error } => "failed: "@.is_prefix_of(status_text(a)),
        },
        a matches UploadStatus::Transferring { bytes_sent } ==> status_text(a) == "transferring ("@
            + decimal(bytes_sent as nat) + "B sent)"@,
        a matches UploadStatus::Completed { bytes_sent } ==> status_text(a) == "completed ("@
            + decimal(bytes_sent as nat) + "B)"@,
        status_text(a) == status_text(b) ==> match (a, b) {
            (UploadStatus::Queued, UploadStatus::Queued) => true,
            (
                UploadStatus::Transferring { bytes_sent: m },
                UploadStatus::Transferring { bytes_sent: n },
            ) => m == n,
            (
                UploadStatus::Completed { bytes_sent: m },
                UploadStatus::Completed { bytes_sent: n },
            ) => m == n,
            (UploadStatus::Failed { error: x }, UploadStatus::Failed { error: y }) => x@ == y@,
            _ => false,
        },
{
    reveal_strlit("queued");
    reveal_strlit("transferring (");
    reveal_strlit("B sent)");
    reveal_strlit("completed (");
    reveal_strlit("B)");
    reveal_strlit("failed: ");
    lemma_first_letter(a);
    lemma_first_letter(b);
    let none = Seq::<char>::empty();
    if status_text(a) == status_text(b) {
        match (a, b) {
            (
                UploadStatus::Transferring { bytes_sent: m },
                UploadStatus::Transferring { bytes_sent: n },
            ) => {
                let (x, y) = (decimal(m as nat), decimal(n as nat));
                lemma_middle_is_told("transferring ("@, x, y, "B sent)"@);
                law_decimals_differ(m as nat, n as nat);
            },
            (
                UploadStatus::Completed { bytes_sent: m },
                UploadStatus::Completed { bytes_sent: n },
            ) => {
                let (x, y) = (decimal(m as nat), decimal(n as nat));
                lemma_middle_is_told("completed ("@, x, y, "B)"@);
                law_decimals_differ(m as nat, n as nat);
            },
            (UploadStatus::Failed { error: x }, UploadStatus::Failed { error: y }) => {
                assert("failed: "@ + x@ + none =~= "failed: "@ + x@);
                assert("failed: "@ + y@ + none =~= "failed: "@ + y@);
                lemma_middle_is_told("failed: "@, x@, y@, none);
            },
            _ => {},
        }
    }
}

/// The words for the statuses begin with different letters.
proof fn lemma_first_letter(a: UploadStatus)
    ensures
        status_text(a).len() > 0,
        status_text(a)[0] == match a {
            UploadStatus::Queued => 'q',
            UploadStatus::Transferring { .. } => 't',
            UploadStatus::Completed { .. } => 'c',
            UploadStatus::Failed { .. } => 'f',
        },
        match a {
            UploadStatus::Queued => true,
            UploadStatus::Transferring { .. } => "transferring ("@.is_prefix_of(status_text(a)),
            UploadStatus::Completed { .. } => "completed ("@.is_prefix_of(status_text(a)),
            UploadStatus::Failed { .. } => "failed: "@.is_prefix_of(status_text(a)),
        },
{
    reveal_strlit("queued");
    reveal_strlit("transferring (");
    reveal_strlit("completed (");
    reveal_strlit("failed: ");
    let t = status_text(a);
    match a {
        UploadStatus::Queued => {},
        UploadStatus::Transferring { bytes_sent } => {
            assert(t.subrange(0, "transferring ("@.len() as int) =~= "transferring ("@);
        },
        UploadStatus::Completed { bytes_sent } => {
            assert(t.subrange(0, "completed ("@.len() as int) =~= "completed ("@);
        },
        UploadStatus::Failed { error } => {
            assert(t.subrange(0, "failed: "@.len() as int) =~= "failed: "@);
        },
    }
}

} // verus!
