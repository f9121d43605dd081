//! The records of the service: statuses, requests and responses.

use crate::text::{opt_text, same_text};
use vstd::prelude::*;
use vstd::std_specs::convert::FromSpecImpl;

verus! {

/// Download status enum
#[derive(Debug, Clone, Copy, PartialEq, Eq, Structural)]
pub enum DownloadStatus {
    Pending,
    Downloading,
    Completed,
    Failed,
}

impl DownloadStatus {
    /// The name under which the status is stored.
    pub open spec fn name(self) -> Seq<char> {
        match self {
            DownloadStatus::Pending => "pending"@,
            DownloadStatus::Downloading => "downloading"@,
            DownloadStatus::Completed => "completed"@,
            DownloadStatus::Failed => "failed"@,
        }
    }

    /// The status that a stored name stands for; an unknown name is pending.
    pub open spec fn named(name: Seq<char>) -> DownloadStatus {
        if name == "downloading"@ {
            DownloadStatus::Downloading
        } else if name == "completed"@ {
            DownloadStatus::Completed
        } else if name == "failed"@ {
            DownloadStatus::Failed
        } else {
            DownloadStatus::Pending
        }
    }

    pub fn as_str(&self) -> (r: &str)
        ensures
            r@ == self.name(),
    {
        match self {
            DownloadStatus::Pending => "pending",
            DownloadStatus::Downloading => "downloading",
            DownloadStatus::Completed => "completed",
            DownloadStatus::Failed => "failed",
        }
    }
}

impl FromSpecImpl<String> for DownloadStatus {
    open spec fn obeys_from_spec() -> bool {
        true
    }

    open spec fn from_spec(s: String) -> DownloadStatus {
        DownloadStatus::named(s@)
    }
}

impl From<String> for DownloadStatus {
    fn from(s: String) -> (r: Self) {
        if same_text(s.as_str(), "downloading") {
            DownloadStatus::Downloading
        } else if same_text(s.as_str(), "completed") {
            DownloadStatus::Completed
        } else if same_text(s.as_str(), "failed") {
            DownloadStatus::Failed
        } else {
            DownloadStatus::Pending
        }
    }
}

/// A status that was stored under its name is read back as itself.
pub proof fn law_download_status_round_trip(status: DownloadStatus)
    ensures
        DownloadStatus::named(status.name()) == status,
{
    reveal_strlit("pending");
    reveal_strlit("downloading");
    reveal_strlit("completed");
    reveal_strlit("failed");
    assert("pending"@[0] == 'p' && "downloading"@[0] == 'd' && "completed"@[0] == 'c'
        && "failed"@[0] == 'f');
}

/// Queue status enum for search queue entries
#[derive(Debug, Clone, Copy, PartialEq, Eq, Structural)]
pub enum QueueStatus {
    /// Waiting to be processed (first attempt)
    Pending,
    /// Currently being searched
    Processing,
    /// Search succeeded, item created, download initiated
    Completed,
    /// Search failed (no results, network error, etc.)
    Failed,
    /// Waiting for retry (previous attempt failed)
    Retry,
}

impl QueueStatus {
    /// The name under which the status is stored.
    pub open spec fn name(self) -> Seq<char> {
        match self {
            QueueStatus::Pending => "pending"@,
            QueueStatus::Processing => "processing"@,
            QueueStatus::Completed => "completed"@,
            QueueStatus::Failed => "failed"@,
            QueueStatus::Retry => "retry"@,
        }
    }

    /// The status that a stored name stands for; an unknown name is pending.
    pub open spec fn named(name: Seq<char>) -> QueueStatus {
        if name == "processing"@ {
            QueueStatus::Processing
        } else if name == "completed"@ {
            QueueStatus::Completed
        } else if name == "failed"@ {
            QueueStatus::Failed
        } else if name == "retry"@ {
            QueueStatus::Retry
        } else {
            QueueStatus::Pending
        }
    }

    pub fn as_str(&self) -> (r: &str)
        ensures
            r@ == self.name(),
    {
        match self {
            QueueStatus::Pending => "pending",
            QueueStatus::Processing => "processing",
            QueueStatus::Completed => "completed",
            QueueStatus::Failed => "failed",
            QueueStatus::Retry => "retry",
        }
    }
}

impl FromSpecImpl<String> for QueueStatus {
    open spec fn obeys_from_spec() -> bool {
        true
    }

    open spec fn from_spec(s: String) -> QueueStatus {
        QueueStatus::named(s@)
    }
}

impl From<String> for QueueStatus {
    fn from(s: String) -> (r: Self) {
        if same_text(s.as_str(), "processing") {
            QueueStatus::Processing
        } else if same_text(s.as_str(), "completed") {
            QueueStatus::Completed
        } else if same_text(s.as_str(), "failed") {
            QueueStatus::Failed
        } else if same_text(s.as_str(), "retry") {
            QueueStatus::Retry
        } else {
            QueueStatus::Pending
        }
    }
}

/// A status that was stored under its name is read back as itself.
pub proof fn law_queue_status_round_trip(status: QueueStatus)
    ensures
        QueueStatus::named(status.name()) == status,
{
    reveal_strlit("pending");
    reveal_strlit("processing");
    reveal_strlit("completed");
    reveal_strlit("failed");
    reveal_strlit("retry");
    assert("pending"@[1] == 'e' && "processing"@[1] == 'r' && "completed"@[0] == 'c'
        && "failed"@[0] == 'f' && "retry"@[0] == 'r' && "processing"@[0] == 'p' && "pending"@[0]
        == 'p');
}

/// Queued search entry. Times are in seconds since 1970.
#[derive(Debug, Clone)]
pub struct QueuedSearch {
    pub id: i64,
    pub user_id: i64,
    pub query: String,
    pub format: Option<String>,
    pub list_id: Option<i64>,
    pub list_position: Option<i32>,
    pub status: String,
    pub item_id: Option<i64>,
    pub error_message: Option<String>,
    pub created_at: i64,
    pub started_at: Option<i64>,
    pub completed_at: Option<i64>,
    /// Number of retry attempts (0 = first attempt, 1+ = retry)
    pub retry_count: i32,
    /// Client-generated ID for frontend tracking (prevents orphaned popups)
    pub client_id: Option<String>,
}

impl QueuedSearch {
    /// Get the status as an enum
    pub fn queue_status(&self) -> (r: QueueStatus)
        ensures
            r == QueueStatus::named(self.status@),
    {
        QueueStatus::from(self.status.clone())
    }
}

/// User model. Times are in seconds since 1970.
#[derive(Debug, Clone)]
pub struct User {
    pub id: i64,
    pub username: String,
    pub email: Option<String>,
    pub password_hash: String,
    pub email_verified: bool,
    pub verification_token: Option<String>,
    pub verification_token_expires_at: Option<i64>,
    pub display_name: Option<String>,
    pub bio: Option<String>,
    pub avatar_path: Option<String>,
    pub role: String,
    pub created_at: i64,
    pub updated_at: i64,
}

/// User response (without password hash)
#[derive(Debug)]
pub struct UserResponse {
    pub id: i64,
    pub username: String,
    pub email: String,
    pub email_verified: bool,
    pub display_name: Option<String>,
    pub bio: Option<String>,
    pub has_avatar: bool,
    pub role: String,
    pub created_at: i64,
}

/// A user response with its texts as character sequences.
#[verifier::ext_equal]
pub struct UserResponseView {
    pub id: i64,
    pub username: Seq<char>,
    pub email: Seq<char>,
    pub email_verified: bool,
    pub display_name: Option<Seq<char>>,
    pub bio: Option<Seq<char>>,
    pub has_avatar: bool,
    pub role: Seq<char>,
    pub created_at: i64,
}

impl View for UserResponse {
    type V = UserResponseView;

    open spec fn view(&self) -> UserResponseView {
        UserResponseView {
            id: self.id,
            username: self.username@,
            email: self.email@,
            email_verified: self.email_verified,
            display_name: opt_text(self.display_name),
            bio: opt_text(self.bio),
            has_avatar: self.has_avatar,
            role: self.role@,
            created_at: self.created_at,
        }
    }
}

/// What is shown of a user: nothing of the password and of the verification token, an empty
/// address where there is none, and of the avatar only whether there is one.
pub open spec fn shown_user(user: User) -> UserResponseView {
    UserResponseView {
        id: user.id,
        username: user.username@,
        email: match user.email {
            Some(email) => email@,
            None => Seq::empty(),
        },
        email_verified: user.email_verified,
        display_name: opt_text(user.display_name),
        bio: opt_text(user.bio),
        has_avatar: user.avatar_path is Some,
        role: user.role@,
        created_at: user.created_at,
    }
}

impl User {
    /// Shows the user to a client.
    pub fn response(self) -> (r: UserResponse)
        ensures
            r@ == shown_user(self),
            r.id == self.id && r.username@ == self.username@,
            r.email_verified == self.email_verified,
            r.has_avatar == self.avatar_path is Some,
            r.role@ == self.role@,
    {
        let has_avatar = self.avatar_path.is_some();
        let email = match self.email {
            Some(email) => email,
            None => String::new(),
        };
        let r = UserResponse {
            id: self.id,
            username: self.username,
            email,
            email_verified: self.email_verified,
            display_name: self.display_name,
            bio: self.bio,
            has_avatar,
            role: self.role,
            created_at: self.created_at,
        };
        assert(r@ =~= shown_user(self));
        r
    }
}

/// A response tells nothing of the secrets of a user: two users who differ in nothing but
/// their password hashes, verification tokens and the places of their avatars are shown
/// alike.
pub proof fn law_secrets_are_not_shown(a: User, b: User)
    requires
        a == (User {
            password_hash: a.password_hash,
            verification_token: a.verification_token,
            verification_token_expires_at: a.verification_token_expires_at,
            avatar_path: a.avatar_path,
            updated_at: a.updated_at,
            ..b
        }),
        a.avatar_path is Some == b.avatar_path is Some,
    ensures
        shown_user(a) == shown_user(b),
{
}

/// Create user request
#[derive(Debug)]
pub struct CreateUserRequest {
    pub username: String,
    pub email: String,
    pub password: String,
}

/// Login request - identifier can be email or username
#[derive(Debug)]
pub struct LoginRequest {
    pub identifier: String,
    pub password: String,
}

/// Search request
#[derive(Debug)]
pub struct SearchRequest {
    pub query: String,
    /// Optional format filter: mp3, flac, m4a, wav
    pub format: Option<String>,
}

/// Search list request
#[derive(Debug)]
pub struct SearchListRequest {
    pub name: Option<String>,
    pub queries: Vec<String>,
    /// Optional format filter: mp3, flac, m4a, wav
    pub format: Option<String>,
}

/// Item metadata for additional file information
#[derive(Debug, Clone)]
pub struct ItemMetadata {
    pub artist: Option<String>,
    pub album: Option<String>,
    pub title: Option<String>,
    pub year: Option<i32>,
    pub genre: Option<String>,
}

/// What is known of a track from outside sources. The time is in seconds since 1970.
#[derive(Debug, Clone)]
pub struct TrackMetadata {
    pub artist: Option<String>,
    pub album: Option<String>,
    pub title: Option<String>,
    pub bpm: Option<i32>,
    pub key: Option<String>,
    pub duration_ms: Option<i64>,
    pub album_art_url: Option<String>,
    pub genre: Option<String>,
    pub year: Option<i32>,
    pub track_number: Option<i32>,
    pub label: Option<String>,
    pub musicbrainz_id: Option<String>,
    pub fetched_at: Option<i64>,
    pub sources: Vec<String>,
}

impl TrackMetadata {
    /// Whether anything is known: an artist, a title or a tempo.
    pub fn is_known(&self) -> (r: bool)
        ensures
            r == (self.artist is Some || self.title is Some || self.bpm is Some),
    {
        self.artist.is_some() || self.title.is_some() || self.bpm.is_some()
    }

    /// What is shown of a track of which nothing is known: its file name as its title.
    pub fn of_file(filename: &str) -> (m: TrackMetadata)
        ensures
            m.title matches Some(title) && title@ == filename@,
            m.artist is None && m.album is None && m.bpm is None && m.key is None,
            m.duration_ms is None && m.album_art_url is None && m.genre is None && m.year is None,
            m.track_number is None && m.label is None && m.musicbrainz_id is None,
            m.fetched_at is None && m.sources@.len() == 0,
    {
        TrackMetadata {
            artist: None,
            album: None,
            title: Some(filename.to_owned()),
            bpm: None,
            key: None,
            duration_ms: None,
            album_art_url: None,
            genre: None,
            year: None,
            track_number: None,
            label: None,
            musicbrainz_id: None,
            fetched_at: None,
            sources: Vec::new(),
        }
    }
}

/// Email verification request
#[derive(Debug)]
pub struct VerifyEmailRequest {
    pub token: String,
}

/// Resend verification email request
#[derive(Debug)]
pub struct ResendVerificationRequest {
    pub email: String,
}

/// Generic message response
#[derive(Debug)]
pub struct MessageResponse {
    pub message: String,
}

/// Request to enqueue a single search
#[derive(Debug)]
pub struct EnqueueSearchRequest {
    pub query: String,
    pub format: Option<String>,
    /// Client-generated ID for frontend tracking (prevents orphaned popups)
    pub client_id: Option<String>,
}

/// Request to enqueue multiple searches (a list)
#[derive(Debug)]
pub struct EnqueueListRequest {
    pub name: Option<String>,
    pub queries: Vec<String>,
    pub format: Option<String>,
}

/// Response after enqueueing a search. The position is that in the overall queue.
#[derive(Debug)]
pub struct EnqueueSearchResponse {
    pub queue_id: i64,
    pub query: String,
    pub position: i64,
    /// Client-generated ID echoed back for confirmation
    pub client_id: Option<String>,
}

/// Response after enqueueing a list
#[derive(Debug)]
pub struct EnqueueListResponse {
    pub list_id: i64,
    pub list_name: String,
    pub queue_ids: Vec<i64>,
    pub total_queued: i32,
}

/// Queue status summary: of all users, of the items that are downloading, and of one user.
#[derive(Debug)]
pub struct QueueStatusResponse {
    pub pending: i64,
    pub processing: i64,
    pub active_downloads: i64,
    pub user_pending: i64,
    pub user_processing: i64,
}

// ---------------------------------------------------------------------------
// Laws
// ---------------------------------------------------------------------------
/// A user is shown as they are: the name, the address where there is one, whether it is
/// verified, the display name, the biography, the role, and whether there is an avatar.
pub proof fn law_users_are_shown_as_they_are(user: User)
    ensures
        shown_user(user).id == user.id,
        shown_user(user).username == user.username@,
        user.email matches Some(email) ==> shown_user(user).email == email@,
        user.email is None ==> shown_user(user).email.len() == 0,
        shown_user(user).email_verified == user.email_verified,
        shown_user(user).display_name == opt_text(user.display_name),
        shown_user(user).bio == opt_text(user.bio),
        shown_user(user).has_avatar <==> user.avatar_path is Some,
        shown_user(user).role == user.role@,
        shown_user(user).created_at == user.created_at,
{
}

/// A name that no status has stands for a pending one.
pub proof fn law_unknown_names_are_pending(name: Seq<char>)
    ensures
        name != "downloading"@ && name != "completed"@ && name != "failed"@
            ==> DownloadStatus::named(name) == DownloadStatus::Pending,
        name != "processing"@ && name != "completed"@ && name != "failed"@ && name != "retry"@
            ==> QueueStatus::named(name) == QueueStatus::Pending,
        DownloadStatus::named("downloading"@) == DownloadStatus::Downloading,
        DownloadStatus::named("completed"@) == DownloadStatus::Completed,
        DownloadStatus::named("failed"@) == DownloadStatus::Failed,
        QueueStatus::named("processing"@) == QueueStatus::Processing,
        QueueStatus::named("completed"@) == QueueStatus::Completed,
        QueueStatus::named("failed"@) == QueueStatus::Failed,
        QueueStatus::named("retry"@) == QueueStatus::Retry,
{
    reveal_strlit("downloading");
    reveal_strlit("processing");
    reveal_strlit("completed");
    reveal_strlit("failed");
    reveal_strlit("retry");
    assert("downloading"@[0] == 'd' && "processing"@[0] == 'p' && "completed"@[0] == 'c'
        && "failed"@[0] == 'f' && "retry"@[0] == 'r');
}

} // verus!
