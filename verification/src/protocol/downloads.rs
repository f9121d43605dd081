//! Downloads: their progress, those that wait in a peer's queue, and the steps that lead
//! from a request to a file.

use crate::text::{push_text, same_text};
use std::collections::HashMap;
use vstd::prelude::*;
use vstd::std_specs::hash::group_hash_axioms;

verus! {

broadcast use group_hash_axioms;

// ---------------------------------------------------------------------------
// Progress
// ---------------------------------------------------------------------------
/// Where a download stands.
#[derive(Debug, Clone, PartialEq, Eq)]
pub enum DownloadStatus {
    Pending,
    Queued,
    InProgress,
    Completed,
    Failed(String),
}

/// The same with texts as character sequences.
#[verifier::ext_equal]
pub enum StatusView {
    Pending,
    Queued,
    InProgress,
    Completed,
    Failed(Seq<char>),
}

impl View for DownloadStatus {
    type V = StatusView;

    open spec fn view(&self) -> StatusView {
        match *self {
            DownloadStatus::Pending => StatusView::Pending,
            DownloadStatus::Queued => StatusView::Queued,
            DownloadStatus::InProgress => StatusView::InProgress,
            DownloadStatus::Completed => StatusView::Completed,
            DownloadStatus::Failed(reason) => StatusView::Failed(reason@),
        }
    }
}

impl DownloadStatus {
    /// A copy of the status.
    pub fn copied(&self) -> (r: DownloadStatus)
        ensures
            r@ == self@,
    {
        match self {
            DownloadStatus::Pending => DownloadStatus::Pending,
            DownloadStatus::Queued => DownloadStatus::Queued,
            DownloadStatus::InProgress => DownloadStatus::InProgress,
            DownloadStatus::Completed => DownloadStatus::Completed,
            DownloadStatus::Failed(reason) => DownloadStatus::Failed(reason.clone()),
        }
    }
}

/// Download progress
#[derive(Debug, Clone)]
pub struct DownloadProgress {
    pub filename: String,
    pub total_bytes: u64,
    pub downloaded_bytes: u64,
    pub status: DownloadStatus,
}

/// The progress of a download, without the name under which it is kept.
#[verifier::ext_equal]
pub struct ProgressView {
    pub total_bytes: u64,
    pub downloaded_bytes: u64,
    pub status: StatusView,
}

impl View for DownloadProgress {
    type V = ProgressView;

    open spec fn view(&self) -> ProgressView {
        ProgressView {
            total_bytes: self.total_bytes,
            downloaded_bytes: self.downloaded_bytes,
            status: self.status@,
        }
    }
}

impl DownloadProgress {
    /// A copy of the progress.
    fn copied(&self) -> (r: DownloadProgress)
        ensures
            r@ == self@,
            r.filename@ == self.filename@,
    {
        DownloadProgress {
            filename: self.filename.clone(),
            total_bytes: self.total_bytes,
            downloaded_bytes: self.downloaded_bytes,
            status: self.status.copied(),
        }
    }
}

/// The progress that is kept under a name, if any.
pub open spec fn lookup(entries: Seq<DownloadProgress>, name: Seq<char>) -> Option<ProgressView>
    decreases entries.len(),
{
    if entries.len() == 0 {
        None
    } else if entries.last().filename@ == name {
        Some(entries.last()@)
    } else {
        lookup(entries.drop_last(), name)
    }
}

/// Every name is kept once.
pub open spec fn distinct_names(entries: Seq<DownloadProgress>) -> bool {
    forall|i: int, j: int|
        0 <= i < j < entries.len() ==> (#[trigger] entries[i]).filename@ != (
        #[trigger] entries[j]).filename@
}

/// An entry with a name is what the lookup of the name gives.
proof fn lemma_lookup_at(entries: Seq<DownloadProgress>, i: int)
    requires
        distinct_names(entries),
        0 <= i < entries.len(),
    ensures
        lookup(entries, entries[i].filename@) == Some(entries[i]@),
    decreases entries.len(),
{
    if i < entries.len() - 1 {
        assert(entries[i].filename@ != entries[entries.len() - 1].filename@);
        assert(entries.drop_last()[i] == entries[i]);
        lemma_lookup_at(entries.drop_last(), i);
    }
}

/// A name that no entry has is not found.
proof fn lemma_lookup_none(entries: Seq<DownloadProgress>, name: Seq<char>)
    requires
        forall|i: int| 0 <= i < entries.len() ==> (#[trigger] entries[i]).filename@ != name,
    ensures
        lookup(entries, name) is None,
    decreases entries.len(),
{
    if entries.len() > 0 {
        assert(entries[entries.len() - 1].filename@ != name);
        assert forall|i: int| 0 <= i < entries.drop_last().len() implies (
        #[trigger] entries.drop_last()[i]).filename@ != name by {
            assert(entries.drop_last()[i] == entries[i]);
        }
        lemma_lookup_none(entries.drop_last(), name);
    }
}

/// Changing the entry at `i`, under the same name, changes the lookup of that name only.
proof fn lemma_lookup_update(entries: Seq<DownloadProgress>, i: int, e: DownloadProgress)
    requires
        distinct_names(entries),
        0 <= i < entries.len(),
        e.filename@ == entries[i].filename@,
    ensures
        distinct_names(entries.update(i, e)),
        forall|n: Seq<char>| #[trigger]
            lookup(entries.update(i, e), n) == if n == e.filename@ {
                Some(e@)
            } else {
                lookup(entries, n)
            },
    decreases entries.len(),
{
    let updated = entries.update(i, e);
    assert(distinct_names(updated));
    lemma_lookup_at(updated, i);
    assert forall|n: Seq<char>| #[trigger]
        lookup(updated, n) == if n == e.filename@ {
            Some(e@)
        } else {
            lookup(entries, n)
        } by {
        if n != e.filename@ {
            lemma_lookup_elsewhere(entries, i, e, n);
        }
    }
}

/// Changing the entry at `i` does not change the lookup of another name.
proof fn lemma_lookup_elsewhere(
    entries: Seq<DownloadProgress>,
    i: int,
    e: DownloadProgress,
    n: Seq<char>,
)
    requires
        0 <= i < entries.len(),
        e.filename@ == entries[i].filename@,
        n != e.filename@,
    ensures
        lookup(entries.update(i, e), n) == lookup(entries, n),
    decreases entries.len(),
{
    let updated = entries.update(i, e);
    if i == entries.len() - 1 {
        assert(updated.drop_last() =~= entries.drop_last());
    } else {
        assert(updated.drop_last() =~= entries.drop_last().update(i, e));
        assert(updated.last() == entries.last());
        lemma_lookup_elsewhere(entries.drop_last(), i, e, n);
    }
}

/// The downloads of a client, by the name of their file.
pub struct Downloads {
    entries: Vec<DownloadProgress>,
}

impl Downloads {
    /// The downloads that are kept, in no order that matters.
    pub closed spec fn entries(&self) -> Seq<DownloadProgress> {
        self.entries@
    }

    /// Every file is kept once.
    pub open spec fn well_formed(&self) -> bool {
        distinct_names(self.entries())
    }

    /// The progress of a file, if it is kept.
    pub open spec fn progress(&self, name: Seq<char>) -> Option<ProgressView> {
        lookup(self.entries(), name)
    }

    /// No downloads.
    pub fn new() -> (d: Downloads)
        ensures
            d.well_formed(),
            forall|n: Seq<char>| #[trigger] d.progress(n) is None,
    {
        Downloads { entries: Vec::new() }
    }

    /// Where a file is kept.
    fn position(&self, filename: &str) -> (r: Option<usize>)
        ensures
            match r {
                Some(i) => i < self.entries().len() && self.entries()[i as int].filename@
                    == filename@,
                None => forall|j: int|
                    0 <= j < self.entries().len() ==> (#[trigger] self.entries()[j]).filename@
                        != filename@,
            },
    {
        let mut i: usize = 0;
        while i < self.entries.len()
            invariant
                i <= self.entries.len(),
                self.entries() == self.entries@,
                forall|j: int|
                    0 <= j < i ==> (#[trigger] self.entries()[j]).filename@ != filename@,
            decreases self.entries.len() - i,
        {
            if same_text(self.entries[i].filename.as_str(), filename) {
                return Some(i);
            }
            i = i + 1;
        }
        None
    }

    /// Puts an entry in, in place of one with the same name.
    fn put(&mut self, entry: DownloadProgress)
        requires
            old(self).well_formed(),
        ensures
            final(self).well_formed(),
            forall|n: Seq<char>| #[trigger]
                final(self).progress(n) == if n == entry.filename@ {
                    Some(entry@)
                } else {
                    old(self).progress(n)
                },
    {
        match self.position(entry.filename.as_str()) {
            Some(i) => {
                proof {
                    lemma_lookup_update(self.entries@, i as int, entry);
                }
                self.entries.set(i, entry);
            },
            None => {
                self.entries.push(entry);
                assert(self.entries@.drop_last() =~= old(self).entries());
            },
        }
    }

    /// Starts a download: it is pending, and nothing of it is here.
    pub fn start(&mut self, filename: &str, filesize: u64)
        requires
            old(self).well_formed(),
        ensures
            final(self).well_formed(),
            forall|n: Seq<char>| #[trigger]
                final(self).progress(n) == if n == filename@ {
                    Some(
                        ProgressView {
                            total_bytes: filesize,
                            downloaded_bytes: 0,
                            status: StatusView::Pending,
                        },
                    )
                } else {
                    old(self).progress(n)
                },
    {
        self.put(
            DownloadProgress {
                filename: filename.to_owned(),
                total_bytes: filesize,
                downloaded_bytes: 0,
                status: DownloadStatus::Pending,
            },
        );
    }

    /// Changes a download that is kept; one that is not stays away.
    pub fn apply(&mut self, filename: &str, change: &StatusChange)
        requires
            old(self).well_formed(),
        ensures
            final(self).well_formed(),
            forall|n: Seq<char>| #[trigger]
                final(self).progress(n) == if n == filename@ {
                    match old(self).progress(n) {
                        Some(p) => Some(changed(p, change@)),
                        None => None,
                    }
                } else {
                    old(self).progress(n)
                },
    {
        match self.position(filename) {
            Some(i) => {
                proof {
                    lemma_lookup_at(self.entries@, i as int);
                }
                let mut entry = self.entries[i].copied();
                match change {
                    StatusChange::Keep => {},
                    StatusChange::Become(status) => {
                        entry.status = status.copied();
                    },
                    StatusChange::Transfer { total } => {
                        entry.status = DownloadStatus::InProgress;
                        entry.total_bytes = *total;
                    },
                    StatusChange::Complete { bytes } => {
                        entry.status = DownloadStatus::Completed;
                        entry.downloaded_bytes = *bytes;
                    },
                }
                self.put(entry);
            },
            None => {
                proof {
                    lemma_lookup_none(self.entries@, filename@);
                }
            },
        }
    }

    /// Get download progress
    pub fn get(&self, filename: &str) -> (r: Option<DownloadProgress>)
        requires
            self.well_formed(),
        ensures
            match r {
                Some(p) => self.progress(filename@) == Some(p@) && p.filename@ == filename@,
                None => self.progress(filename@) is None,
            },
    {
        match self.position(filename) {
            Some(i) => {
                proof {
                    lemma_lookup_at(self.entries@, i as int);
                }
                Some(self.entries[i].copied())
            },
            None => {
                proof {
                    lemma_lookup_none(self.entries@, filename@);
                }
                None
            },
        }
    }

    /// Get all downloads
    pub fn all(&self) -> (r: Vec<DownloadProgress>)
        ensures
            r@.len() == self.entries().len(),
            forall|i: int|
                0 <= i < r@.len() ==> (#[trigger] r@[i])@ == self.entries()[i]@ && r@[i].filename@
                    == self.entries()[i].filename@,
    {
        let mut r: Vec<DownloadProgress> = Vec::new();
        let mut i: usize = 0;
        while i < self.entries.len()
            invariant
                i <= self.entries.len(),
                r@.len() == i,
                self.entries() == self.entries@,
                forall|j: int|
                    0 <= j < i ==> (#[trigger] r@[j])@ == self.entries()[j]@ && r@[j].filename@
                        == self.entries()[j].filename@,
            decreases self.entries.len() - i,
        {
            r.push(self.entries[i].copied());
            i = i + 1;
        }
        r
    }
}

/// A change to the progress of a download.
#[derive(Debug, Clone)]
pub enum StatusChange {
    /// None.
    Keep,
    /// Another status.
    Become(DownloadStatus),
    /// The transfer is on, of a file of this size.
    Transfer { total: u64 },
    /// The file is here.
    Complete { bytes: u64 },
}

/// The same with texts as character sequences.
#[verifier::ext_equal]
pub enum StatusChangeView {
    Keep,
    Become(StatusView),
    Transfer { total: u64 },
    Complete { bytes: u64 },
}

impl View for StatusChange {
    type V = StatusChangeView;

    open spec fn view(&self) -> StatusChangeView {
        match *self {
            StatusChange::Keep => StatusChangeView::Keep,
            StatusChange::Become(status) => StatusChangeView::Become(status@),
            StatusChange::Transfer { total } => StatusChangeView::Transfer { total },
            StatusChange::Complete { bytes } => StatusChangeView::Complete { bytes },
        }
    }
}

/// Progress after a change.
pub open spec fn changed(p: ProgressView, change: StatusChangeView) -> ProgressView {
    match change {
        StatusChangeView::Keep => p,
        StatusChangeView::Become(status) => ProgressView { status, ..p },
        StatusChangeView::Transfer { total } => ProgressView {
            status: StatusView::InProgress,
            total_bytes: total,
            ..p
        },
        StatusChangeView::Complete { bytes } => ProgressView {
            status: StatusView::Completed,
            downloaded_bytes: bytes,
            ..p
        },
    }
}

// ---------------------------------------------------------------------------
// Downloads in a peer's queue
// ---------------------------------------------------------------------------
/// A pending (queued) download waiting for F connection
#[derive(Debug, Clone)]
pub struct PendingDownload {
    pub username: String,
    pub filename: String,
    pub filesize: u64,
    pub transfer_token: u32,
    pub output_path: String,
    pub item_id: Option<i64>,
    pub queue_id: Option<i64>,
    pub list_id: Option<i64>,
}

/// The downloads that wait for their file connection, by transfer token.
pub struct PendingDownloads {
    waiting: HashMap<u32, PendingDownload>,
}

impl PendingDownloads {
    /// The downloads that wait.
    pub closed spec fn waiting(&self) -> Map<u32, PendingDownload> {
        self.waiting@
    }

    /// None waits.
    pub fn new() -> (p: PendingDownloads)
        ensures
            p.waiting() == Map::<u32, PendingDownload>::empty(),
    {
        PendingDownloads { waiting: HashMap::new() }
    }

    /// Lets a download wait under its transfer token.
    pub fn register(&mut self, pending: PendingDownload)
        ensures
            final(self).waiting() == old(self).waiting().insert(pending.transfer_token, pending),
    {
        let token: u32 = pending.transfer_token;
        self.waiting.insert(token, pending);
    }

    /// What becomes of a file connection that came in: the download that waits for its
    /// token is taken out and its transfer is on; without one the connection is for
    /// another to route.
    pub fn resume(&mut self, downloads: &mut Downloads, token: u32) -> (r: Option<PendingDownload>)
        requires
            old(downloads).well_formed(),
        ensures
            final(downloads).well_formed(),
            final(self).waiting() == old(self).waiting().remove(token),
            match r {
                Some(p) => {
                    &&& old(self).waiting().dom().contains(token)
                    &&& p == old(self).waiting()[token]
                    &&& forall|n: Seq<char>| #[trigger]
                        final(downloads).progress(n) == if n == p.filename@ {
                            match old(downloads).progress(n) {
                                Some(q) => Some(
                                    ProgressView { status: StatusView::InProgress, ..q },
                                ),
                                None => None,
                            }
                        } else {
                            old(downloads).progress(n)
                        }
                },
                None => {
                    &&& !old(self).waiting().dom().contains(token)
                    &&& *final(downloads) == *old(downloads)
                },
            },
    {
        let taken = self.waiting.remove(&token);
        match taken {
            Some(p) => {
                downloads.apply(
                    p.filename.as_str(),
                    &StatusChange::Become(DownloadStatus::InProgress),
                );
                Some(p)
            },
            None => {
                assert(self.waiting() =~= old(self).waiting().remove(token));
                None
            },
        }
    }
}

/// A download that a peer queued is resumed by the connection with its token, and by no
/// other.
pub proof fn law_queued_download_is_resumed(
    waiting: Map<u32, PendingDownload>,
    pending: PendingDownload,
    other: u32,
)
    requires
        other != pending.transfer_token,
    ensures
        ({
            let registered = waiting.insert(pending.transfer_token, pending);
            &&& registered.dom().contains(pending.transfer_token)
            &&& registered[pending.transfer_token] == pending
            &&& registered.dom().contains(other) == waiting.dom().contains(other)
            &&& !registered.remove(pending.transfer_token).dom().contains(pending.transfer_token)
        }),
{
}

/// Generic transfer completion notification
#[derive(Debug)]
pub struct TransferComplete {
    pub item_id: i64,
    pub queue_id: i64,
    pub list_id: Option<i64>,
    pub transfer_token: u32,
    pub result: Result<u64, String>,
}

/// What is reported about a resumed download when its transfer has ended: only one that
/// came from the queue is reported.
pub fn resumed_completion(pending: &PendingDownload, result: Result<u64, String>) -> (r: Option<
    TransferComplete,
>)
    ensures
        match r {
            Some(t) => {
                &&& pending.item_id == Some(t.item_id)
                &&& pending.queue_id == Some(t.queue_id)
                &&& t.list_id == pending.list_id
                &&& t.transfer_token == pending.transfer_token
                &&& t.result == result
            },
            None => pending.item_id is None || pending.queue_id is None,
        },
{
    match (pending.item_id, pending.queue_id) {
        (Some(item_id), Some(queue_id)) => Some(
            TransferComplete {
                item_id,
                queue_id,
                list_id: pending.list_id,
                transfer_token: pending.transfer_token,
                result,
            },
        ),
        _ => None,
    }
}

/// What is reported about a download of the queue when its transfer has ended.
pub fn initiation_report(
    item_id: i64,
    queue_id: i64,
    list_id: Option<i64>,
    transfer_token: u32,
    result: Result<u64, String>,
) -> (t: TransferComplete)
    ensures
        t.item_id == item_id,
        t.queue_id == queue_id,
        t.list_id == list_id,
        t.transfer_token == transfer_token,
        t.result == result,
{
    TransferComplete { item_id, queue_id, list_id, transfer_token, result }
}

/// What the end of a transfer means for the progress of a download: the file is here, or
/// the transfer failed for the given reason.
pub fn transfer_change(result: &Result<u64, String>) -> (c: StatusChange)
    ensures
        c@ == match *result {
            Ok(bytes) => StatusChangeView::Complete { bytes },
            Err(reason) => StatusChangeView::Become(StatusView::Failed(reason@)),
        },
{
    match result {
        Ok(bytes) => StatusChange::Complete { bytes: *bytes },
        Err(reason) => StatusChange::Become(DownloadStatus::Failed(reason.clone())),
    }
}

// ---------------------------------------------------------------------------
// The course of a download
// ---------------------------------------------------------------------------
/// Result of a download attempt
#[derive(Debug, Clone)]
pub enum DownloadResult {
    Completed { bytes: u64 },
    TransferStarted { task_id: u64 },
    Queued { transfer_token: u32, position: Option<u32>, reason: String },
    Failed { reason: String },
}

/// Result of initiating a download (for queue-based downloads)
#[derive(Debug)]
pub enum DownloadInitResult {
    TransferSpawned { item_id: i64, transfer_token: u32 },
    Queued { transfer_token: u32, position: Option<u32>, reason: String },
    Failed { reason: String },
}

/// How a download is run: for the queue, where the file is received on the side and the
/// end is reported, or directly, where the caller waits for the file.
#[derive(Debug, Clone, Copy, PartialEq, Eq, Structural)]
pub enum DownloadMode {
    Queue,
    Direct,
}

/// Where the address of a peer comes from.
#[derive(Debug, Clone, Copy, PartialEq, Eq, Structural)]
pub enum AddressSource {
    /// It came with the request.
    Given,
    /// The server was asked for it.
    LookedUp,
}

/// How far a download has come.
#[derive(Debug, Clone, Copy, PartialEq, Eq, Structural)]
pub enum Phase {
    /// It is asked for a connection to the peer that is left over from the search.
    Start,
    /// The server is asked for the address of the peer.
    LookingUp,
    /// The peer is being connected to.
    Connecting,
    /// The request is being sent to the peer.
    Requesting,
    /// The peer's turn: it is to ask for the transfer.
    Negotiating,
    /// The connection for the file is waited for.
    AwaitingFile { token: u32, size: u64 },
    /// It did not come; the server is asked for the address of the peer.
    LookingUpAgain { token: u32, size: u64 },
    /// We connect to the peer for the file ourselves.
    Proactive { token: u32, size: u64 },
    /// The file is being received.
    Receiving { token: u32 },
    /// It is over.
    Ended,
}

/// What happened.
#[derive(Debug, Clone, Copy, PartialEq, Eq, Structural)]
pub enum DownloadEvent {
    /// There is a connection left over from the search, or there is none.
    Stored(bool),
    /// The server gave an address: whether it has an IP address, and the port.
    Address { has_ip: bool, port: u32 },
    /// What was to be done is done.
    Done,
    /// What was to be done failed.
    Failed,
    /// The peer allows the transfer.
    Allowed { size: u64, token: u32 },
    /// The peer queued the transfer.
    Queued { token: u32 },
    /// The peer denied the transfer.
    Denied,
    /// The file was received.
    Received(u64),
}

/// Why a download failed.
#[derive(Debug, Clone, Copy, PartialEq, Eq, Structural)]
pub enum Failure {
    /// There is no connection to the peer, and its address is not known.
    NoAddress,
    /// The peer could not be connected to.
    Connect,
    /// The request could not be sent.
    Request,
    /// The peer did not answer.
    Negotiation,
    /// The peer denied the transfer.
    Denied,
    /// The connection for the file did not come (direct download).
    FileConnection,
    /// The connection for the file could neither be waited for nor made (queue download).
    AnyFileConnection,
    /// Receiving the file failed.
    Transfer,
}

/// What to do next.
#[derive(Debug, Clone, Copy, PartialEq, Eq, Structural)]
pub enum DownloadAction {
    /// Ask the server for the address of the peer.
    LookUp,
    /// Connect to the peer.
    Connect(AddressSource),
    /// Send the request for the upload.
    SendRequest,
    /// Wait for the peer to ask for the transfer, for 60 seconds.
    AwaitTransfer,
    /// Wait for the connection with the token, for 30 seconds.
    AwaitFile { token: u32 },
    /// Connect to the peer for the file with the token.
    ConnectForFile { source: AddressSource, token: u32 },
    /// Receive the file.
    Receive { token: u32, size: u64 },
    /// The file is received on the side.
    Spawned { token: u32, size: u64 },
    /// The download waits in the peer's queue: register it.
    Pend { token: u32 },
    /// The download failed. Where it came from the queue and had got that far, the failure
    /// is reported, under the token.
    Fail { failure: Failure, report: Option<u32> },
    /// The file is here.
    Complete { bytes: u64 },
    /// Nothing: the event does not belong here.
    Nothing,
}

/// What becomes of the progress that is kept. The reason of a failure is added to it.
#[derive(Debug, Clone, Copy, PartialEq, Eq, Structural)]
pub enum Mark {
    Keep,
    Fail,
    Queue,
    Transfer { total: u64 },
    Complete { bytes: u64 },
}

/// Ending in failure.
pub open spec fn fails(failure: Failure, report: Option<u32>) -> (Phase, Mark, DownloadAction) {
    (Phase::Ended, Mark::Fail, DownloadAction::Fail { failure, report })
}

/// With the file connection there, a queue download is done and the file is received on
/// the side; a direct one receives it.
pub open spec fn receives(mode: DownloadMode, token: u32, size: u64) -> (
    Phase,
    Mark,
    DownloadAction,
) {
    match mode {
        DownloadMode::Queue => (Phase::Ended, Mark::Keep, DownloadAction::Spawned { token, size }),
        DownloadMode::Direct => (
            Phase::Receiving { token },
            Mark::Keep,
            DownloadAction::Receive { token, size },
        ),
    }
}

/// The course of a download: from the phase and what happened to the next phase, what
/// becomes of the progress, and what to do. `known` says whether the request came with an
/// address of the peer.
pub open spec fn course(mode: DownloadMode, known: bool, phase: Phase, event: DownloadEvent) -> (
    Phase,
    Mark,
    DownloadAction,
) {
    match (phase, event) {
        (Phase::Start, DownloadEvent::Stored(stored)) => {
            if stored {
                (Phase::Requesting, Mark::Keep, DownloadAction::SendRequest)
            } else if known {
                (
                    Phase::Connecting,
                    Mark::Keep,
                    DownloadAction::Connect(AddressSource::Given),
                )
            } else {
                (Phase::LookingUp, Mark::Keep, DownloadAction::LookUp)
            }
        },
        (Phase::LookingUp, DownloadEvent::Address { has_ip, port }) => {
            if port > 0 {
                (
                    Phase::Connecting,
                    Mark::Keep,
                    DownloadAction::Connect(AddressSource::LookedUp),
                )
            } else {
                fails(Failure::NoAddress, None)
            }
        },
        (Phase::LookingUp, DownloadEvent::Failed) => fails(Failure::NoAddress, None),
        (Phase::Connecting, DownloadEvent::Done) => (
            Phase::Requesting,
            Mark::Keep,
            DownloadAction::SendRequest,
        ),
        (Phase::Connecting, DownloadEvent::Failed) => fails(Failure::Connect, None),
        (Phase::Requesting, DownloadEvent::Done) => (
            Phase::Negotiating,
            Mark::Keep,
            DownloadAction::AwaitTransfer,
        ),
        (Phase::Requesting, DownloadEvent::Failed) => fails(Failure::Request, None),
        (Phase::Negotiating, DownloadEvent::Allowed { size, token }) => (
            Phase::AwaitingFile { token, size },
            Mark::Transfer { total: size },
            DownloadAction::AwaitFile { token },
        ),
        (Phase::Negotiating, DownloadEvent::Queued { token }) => (
            Phase::Ended,
            Mark::Queue,
            DownloadAction::Pend { token },
        ),
        (Phase::Negotiating, DownloadEvent::Denied) => fails(
            Failure::Denied,
            match mode {
                DownloadMode::Queue => Some(0),
                DownloadMode::Direct => None,
            },
        ),
        (Phase::Negotiating, DownloadEvent::Failed) => fails(Failure::Negotiation, None),
        (Phase::AwaitingFile { token, size }, DownloadEvent::Done) => receives(mode, token, size),
        (Phase::AwaitingFile { token, size }, DownloadEvent::Failed) => match mode {
            DownloadMode::Queue => if known {
                (
                    Phase::Proactive { token, size },
                    Mark::Keep,
                    DownloadAction::ConnectForFile { source: AddressSource::Given, token },
                )
            } else {
                (Phase::LookingUpAgain { token, size }, Mark::Keep, DownloadAction::LookUp)
            },
            DownloadMode::Direct => fails(Failure::FileConnection, None),
        },
        (Phase::LookingUpAgain { token, size }, DownloadEvent::Address { has_ip, port }) => {
            if has_ip && port > 0 {
                (
                    Phase::Proactive { token, size },
                    Mark::Keep,
                    DownloadAction::ConnectForFile { source: AddressSource::LookedUp, token },
                )
            } else {
                fails(Failure::AnyFileConnection, Some(token))
            }
        },
        (Phase::LookingUpAgain { token, size }, DownloadEvent::Failed) => fails(
            Failure::AnyFileConnection,
            Some(token),
        ),
        (Phase::Proactive { token, size }, DownloadEvent::Done) => receives(mode, token, size),
        (Phase::Proactive { token, size }, DownloadEvent::Failed) => fails(
            Failure::AnyFileConnection,
            Some(token),
        ),
        (Phase::Receiving { token }, DownloadEvent::Received(bytes)) => (
            Phase::Ended,
            Mark::Complete { bytes },
            DownloadAction::Complete { bytes },
        ),
        (Phase::Receiving { token }, DownloadEvent::Failed) => fails(Failure::Transfer, None),
        _ => (phase, Mark::Keep, DownloadAction::Nothing),
    }
}

fn failing(failure: Failure, report: Option<u32>) -> (r: (Phase, Mark, DownloadAction))
    ensures
        r == fails(failure, report),
{
    (Phase::Ended, Mark::Fail, DownloadAction::Fail { failure, report })
}

fn receiving(mode: DownloadMode, token: u32, size: u64) -> (r: (Phase, Mark, DownloadAction))
    ensures
        r == receives(mode, token, size),
{
    match mode {
        DownloadMode::Queue => (Phase::Ended, Mark::Keep, DownloadAction::Spawned { token, size }),
        DownloadMode::Direct => (
            Phase::Receiving { token },
            Mark::Keep,
            DownloadAction::Receive { token, size },
        ),
    }
}

/// Decides the next step of a download.
pub fn download_step(mode: DownloadMode, known: bool, phase: Phase, event: DownloadEvent) -> (r: (
    Phase,
    Mark,
    DownloadAction,
))
    ensures
        r == course(mode, known, phase, event),
        phase == Phase::LookingUp ==> (event matches DownloadEvent::Address { has_ip, port } ==> (
        port > 0 ==> r.0 == Phase::Connecting && r.2 == DownloadAction::Connect(
            AddressSource::LookedUp,
        ))),
{
    match (phase, event) {
        (Phase::Start, DownloadEvent::Stored(stored)) => {
            if stored {
                (Phase::Requesting, Mark::Keep, DownloadAction::SendRequest)
            } else if known {
                (
                    Phase::Connecting,
                    Mark::Keep,
                    DownloadAction::Connect(AddressSource::Given),
                )
            } else {
                (Phase::LookingUp, Mark::Keep, DownloadAction::LookUp)
            }
        },
        (Phase::LookingUp, DownloadEvent::Address { has_ip, port }) => {
            if port > 0 {
                (
                    Phase::Connecting,
                    Mark::Keep,
                    DownloadAction::Connect(AddressSource::LookedUp),
                )
            } else {
                failing(Failure::NoAddress, None)
            }
        },
        (Phase::LookingUp, DownloadEvent::Failed) => failing(Failure::NoAddress, None),
        (Phase::Connecting, DownloadEvent::Done) => (
            Phase::Requesting,
            Mark::Keep,
            DownloadAction::SendRequest,
        ),
        (Phase::Connecting, DownloadEvent::Failed) => failing(Failure::Connect, None),
        (Phase::Requesting, DownloadEvent::Done) => (
            Phase::Negotiating,
            Mark::Keep,
            DownloadAction::AwaitTransfer,
        ),
        (Phase::Requesting, DownloadEvent::Failed) => failing(Failure::Request, None),
        (Phase::Negotiating, DownloadEvent::Allowed { size, token }) => (
            Phase::AwaitingFile { token, size },
            Mark::Transfer { total: size },
            DownloadAction::AwaitFile { token },
        ),
        (Phase::Negotiating, DownloadEvent::Queued { token }) => (
            Phase::Ended,
            Mark::Queue,
            DownloadAction::Pend { token },
        ),
        (Phase::Negotiating, DownloadEvent::Denied) => match mode {
            DownloadMode::Queue => failing(Failure::Denied, Some(0)),
            DownloadMode::Direct => failing(Failure::Denied, None),
        },
        (Phase::Negotiating, DownloadEvent::Failed) => failing(Failure::Negotiation, None),
        (Phase::AwaitingFile { token, size }, DownloadEvent::Done) => receiving(mode, token, size),
        (Phase::AwaitingFile { token, size }, DownloadEvent::Failed) => match mode {
            DownloadMode::Queue => {
                if known {
                    (
                        Phase::Proactive { token, size },
                        Mark::Keep,
                        DownloadAction::ConnectForFile { source: AddressSource::Given, token },
                    )
                } else {
                    (Phase::LookingUpAgain { token, size }, Mark::Keep, DownloadAction::LookUp)
                }
            },
            DownloadMode::Direct => failing(Failure::FileConnection, None),
        },
        (Phase::LookingUpAgain { token, size }, DownloadEvent::Address { has_ip, port }) => {
            if has_ip && port > 0 {
                (
                    Phase::Proactive { token, size },
                    Mark::Keep,
                    DownloadAction::ConnectForFile { source: AddressSource::LookedUp, token },
                )
            } else {
                failing(Failure::AnyFileConnection, Some(token))
            }
        },
        (Phase::LookingUpAgain { token, size }, DownloadEvent::Failed) => failing(
            Failure::AnyFileConnection,
            Some(token),
        ),
        (Phase::Proactive { token, size }, DownloadEvent::Done) => receiving(mode, token, size),
        (Phase::Proactive { token, size }, DownloadEvent::Failed) => failing(
            Failure::AnyFileConnection,
            Some(token),
        ),
        (Phase::Receiving { token }, DownloadEvent::Received(bytes)) => (
            Phase::Ended,
            Mark::Complete { bytes },
            DownloadAction::Complete { bytes },
        ),
        (Phase::Receiving { token }, DownloadEvent::Failed) => failing(Failure::Transfer, None),
        _ => (phase, Mark::Keep, DownloadAction::Nothing),
    }
}

/// How many steps a download has behind it.
pub open spec fn stage(phase: Phase) -> int {
    match phase {
        Phase::Start => 0,
        Phase::LookingUp => 1,
        Phase::Connecting => 2,
        Phase::Requesting => 3,
        Phase::Negotiating => 4,
        Phase::AwaitingFile { .. } => 5,
        Phase::LookingUpAgain { .. } => 6,
        Phase::Proactive { .. } => 7,
        Phase::Receiving { .. } => 8,
        Phase::Ended => 9,
    }
}

/// Downloads end: every event that belongs to its phase brings the download further.
pub proof fn law_downloads_end(
    mode: DownloadMode,
    known: bool,
    phase: Phase,
    event: DownloadEvent,
)
    ensures
        course(mode, known, phase, event).2 == DownloadAction::Nothing || stage(phase) < stage(
            course(mode, known, phase, event).0,
        ) <= 9,
        phase == Phase::Ended ==> course(mode, known, phase, event) == (
            Phase::Ended,
            Mark::Keep,
            DownloadAction::Nothing,
        ),
{
}

/// A failure is always marked on the progress that is kept, and only a failure is; it ends
/// the download.
pub proof fn law_failures_are_marked(
    mode: DownloadMode,
    known: bool,
    phase: Phase,
    event: DownloadEvent,
)
    ensures
        ({
            let (next, mark, action) = course(mode, known, phase, event);
            &&& mark == Mark::Fail <==> action is Fail
            &&& action is Fail ==> next == Phase::Ended
        }),
{
}

/// A direct download never reports to the queue.
pub proof fn law_direct_downloads_do_not_report(
    known: bool,
    phase: Phase,
    event: DownloadEvent,
)
    requires
        !(phase is LookingUpAgain),
        !(phase is Proactive),
    ensures
        ({
            let (next, mark, action) = course(DownloadMode::Direct, known, phase, event);
            &&& action matches DownloadAction::Fail { failure, report } ==> report is None
            &&& !(next is LookingUpAgain) && !(next is Proactive)
            &&& !(action is Spawned)
        }),
{
}

/// Whether a request came with an address of the peer.
pub fn has_address(peer_ip: &str, peer_port: u32) -> (r: bool)
    ensures
        r == (peer_ip@.len() > 0 && peer_port > 0),
{
    !peer_ip.is_empty() && peer_port > 0
}

/// Whether a peer can be connected to at an address as it stands; else the server is asked.
pub fn is_direct_address(peer_ip: &str, peer_port: u32) -> (r: bool)
    ensures
        r == (peer_port > 0 && peer_ip@.len() > 0 && peer_ip@ != "0.0.0.0"@),
{
    peer_port > 0 && !peer_ip.is_empty() && !same_text(peer_ip, "0.0.0.0")
}

/// Whether an address that the server gave can be connected to.
pub fn is_available(ip: &str, port: u32) -> (r: bool)
    ensures
        r == !(port == 0 || ip@.len() == 0),
{
    !(port == 0 || ip.is_empty())
}

/// The reason that is given for a failure, with the detail of the error or of the peer.
pub open spec fn reason_of(failure: Failure, detail: Seq<char>) -> Seq<char> {
    match failure {
        Failure::NoAddress => "No stored P connection and cannot get peer address"@,
        Failure::Connect => "Failed to connect to peer: "@ + detail,
        Failure::Request => "Failed to send QueueUpload: "@ + detail,
        Failure::Negotiation => "Negotiation failed: "@ + detail,
        Failure::Denied => detail,
        Failure::FileConnection => "Failed to get F connection: "@ + detail,
        Failure::AnyFileConnection => "Failed to establish F connection: "@ + detail,
        Failure::Transfer => "File transfer failed: "@ + detail,
    }
}

/// Puts a reason together.
fn with_prefix(prefix: &str, detail: &str) -> (r: String)
    ensures
        r@ == prefix@ + detail@,
{
    let mut r = prefix.to_owned();
    push_text(&mut r, detail);
    r
}

/// Gives the reason for a failure.
pub fn failure_reason(failure: Failure, detail: &str) -> (r: String)
    ensures
        r@ == reason_of(failure, detail@),
{
    match failure {
        Failure::NoAddress => "No stored P connection and cannot get peer address".to_owned(),
        Failure::Connect => with_prefix("Failed to connect to peer: ", detail),
        Failure::Request => with_prefix("Failed to send QueueUpload: ", detail),
        Failure::Negotiation => with_prefix("Negotiation failed: ", detail),
        Failure::Denied => detail.to_owned(),
        Failure::FileConnection => with_prefix("Failed to get F connection: ", detail),
        Failure::AnyFileConnection => with_prefix("Failed to establish F connection: ", detail),
        Failure::Transfer => with_prefix("File transfer failed: ", detail),
    }
}

/// The change of the progress that a mark stands for.
pub open spec fn change_of(mark: Mark, reason: Seq<char>) -> StatusChangeView {
    match mark {
        Mark::Keep => StatusChangeView::Keep,
        Mark::Fail => StatusChangeView::Become(StatusView::Failed(reason)),
        Mark::Queue => StatusChangeView::Become(StatusView::Queued),
        Mark::Transfer { total } => StatusChangeView::Transfer { total },
        Mark::Complete { bytes } => StatusChangeView::Complete { bytes },
    }
}

/// Gives the change of the progress that a mark stands for.
pub fn mark_change(mark: Mark, reason: &str) -> (c: StatusChange)
    ensures
        c@ == change_of(mark, reason@),
{
    match mark {
        Mark::Keep => StatusChange::Keep,
        Mark::Fail => StatusChange::Become(DownloadStatus::Failed(reason.to_owned())),
        Mark::Queue => StatusChange::Become(DownloadStatus::Queued),
        Mark::Transfer { total } => StatusChange::Transfer { total },
        Mark::Complete { bytes } => StatusChange::Complete { bytes },
    }
}

// ---------------------------------------------------------------------------
// Laws of the course
// ---------------------------------------------------------------------------
/// Where the server gives an address with a port, the peer is connected to at that address,
/// whatever the download is for; and it is said that there is no address only where the
/// server gave none or one without a port.
pub proof fn law_looked_up_address_is_connected_to(
    mode: DownloadMode,
    known: bool,
    has_ip: bool,
    port: u32,
    phase: Phase,
    event: DownloadEvent,
    report: Option<u32>,
)
    ensures
        port > 0 ==> course(
            mode,
            known,
            Phase::LookingUp,
            DownloadEvent::Address { has_ip, port },
        ) == (
            Phase::Connecting,
            Mark::Keep,
            DownloadAction::Connect(AddressSource::LookedUp),
        ),
        course(mode, known, phase, event).2 == (DownloadAction::Fail {
            failure: Failure::NoAddress,
            report,
        }) ==> phase == Phase::LookingUp && (event == DownloadEvent::Failed || (
        event matches DownloadEvent::Address { has_ip: _, port: p } && p == 0)),
{
}

/// Where all goes well, a download gets its file. Whether there is a connection to the peer
/// already, its address came with the request or the server is asked for it: once the peer
/// is connected to, has the request, allows the transfer and brings the file connection, the
/// file is received, under the token and with the size that the peer allowed. A download of
/// the queue is done with that; a direct one is complete with the bytes that were received.
pub proof fn law_good_download_gets_its_file(
    mode: DownloadMode,
    known: bool,
    stored: bool,
    has_ip: bool,
    port: u32,
    size: u64,
    token: u32,
    bytes: u64,
)
    requires
        port > 0,
    ensures
        ({
            let begun = course(mode, known, Phase::Start, DownloadEvent::Stored(stored));
            let located = if stored || known {
                begun
            } else {
                course(mode, known, begun.0, DownloadEvent::Address { has_ip, port })
            };
            let connected = if stored {
                located
            } else {
                course(mode, known, located.0, DownloadEvent::Done)
            };
            let asked = course(mode, known, connected.0, DownloadEvent::Done);
            let allowed = course(mode, known, asked.0, DownloadEvent::Allowed { size, token });
            let last = course(mode, known, allowed.0, DownloadEvent::Done);
            &&& !stored && !known ==> begun.2 == DownloadAction::LookUp && located.2
                == DownloadAction::Connect(AddressSource::LookedUp)
            &&& !stored && known ==> begun.2 == DownloadAction::Connect(AddressSource::Given)
            &&& connected.2 == DownloadAction::SendRequest
            &&& asked.2 == DownloadAction::AwaitTransfer
            &&& allowed.2 == (DownloadAction::AwaitFile { token })
            &&& allowed.1 == (Mark::Transfer { total: size })
            &&& mode == DownloadMode::Queue ==> last.2 == (DownloadAction::Spawned {
                token,
                size,
            }) && last.0 == Phase::Ended
            &&& mode == DownloadMode::Direct ==> last.2 == (DownloadAction::Receive {
                token,
                size,
            }) && course(mode, known, last.0, DownloadEvent::Received(bytes)) == (
                Phase::Ended,
                Mark::Complete { bytes },
                DownloadAction::Complete { bytes },
            )
            &&& begun.1 == Mark::Keep && located.1 == Mark::Keep && connected.1 == Mark::Keep
            &&& asked.1 == Mark::Keep && last.1 == Mark::Keep
        }),
{
}

/// A download of the queue whose file connection does not come makes the connection itself:
/// to the address that came with the request, or else to the one that the server gives. It
/// keeps its token and its size. A direct download gives up.
pub proof fn law_missing_file_connection_is_made(
    known: bool,
    token: u32,
    size: u64,
    port: u32,
)
    requires
        port > 0,
    ensures
        ({
            let mode = DownloadMode::Queue;
            let missed = course(
                mode,
                known,
                Phase::AwaitingFile { token, size },
                DownloadEvent::Failed,
            );
            let located = if known {
                missed
            } else {
                course(mode, known, missed.0, DownloadEvent::Address { has_ip: true, port })
            };
            let made = course(mode, known, located.0, DownloadEvent::Done);
            &&& !known ==> missed.2 == DownloadAction::LookUp
            &&& located.2 == (DownloadAction::ConnectForFile {
                source: if known {
                    AddressSource::Given
                } else {
                    AddressSource::LookedUp
                },
                token,
            })
            &&& made.2 == (DownloadAction::Spawned { token, size })
            &&& made.0 == Phase::Ended
        }),
        course(
            DownloadMode::Direct,
            known,
            Phase::AwaitingFile { token, size },
            DownloadEvent::Failed,
        ).2 == (DownloadAction::Fail { failure: Failure::FileConnection, report: None }),
{
}

/// A transfer that the peer queues waits under the token of the peer, whatever the download
/// is for, and is kept as queued.
pub proof fn law_queued_transfer_waits(mode: DownloadMode, known: bool, token: u32)
    ensures
        course(mode, known, Phase::Negotiating, DownloadEvent::Queued { token }) == (
            Phase::Ended,
            Mark::Queue,
            DownloadAction::Pend { token },
        ),
{
}

/// Each failure has its cause, and each cause its failure.
pub proof fn law_failures_have_their_causes(
    mode: DownloadMode,
    known: bool,
    phase: Phase,
    event: DownloadEvent,
)
    ensures
        ({
            let action = course(mode, known, phase, event).2;
            let lost = event == DownloadEvent::Failed;
            let fails_as = |f: Failure|
                action matches DownloadAction::Fail { failure, report } && failure == f;
            &&& fails_as(Failure::NoAddress) <==> phase == Phase::LookingUp && (lost || (
            event matches DownloadEvent::Address { port, .. } && port == 0))
            &&& fails_as(Failure::Connect) <==> phase == Phase::Connecting && lost
            &&& fails_as(Failure::Request) <==> phase == Phase::Requesting && lost
            &&& fails_as(Failure::Negotiation) <==> phase == Phase::Negotiating && lost
            &&& fails_as(Failure::Denied) <==> phase == Phase::Negotiating && event
                == DownloadEvent::Denied
            &&& fails_as(Failure::FileConnection) <==> phase is AwaitingFile && lost && mode
                == DownloadMode::Direct
            &&& fails_as(Failure::AnyFileConnection) <==> (phase is LookingUpAgain && (lost || (
            event matches DownloadEvent::Address { has_ip, port } && (!has_ip || port == 0)))) || (
            phase is Proactive && lost)
            &&& fails_as(Failure::Transfer) <==> phase is Receiving && lost
        }),
{
}

/// A failure of a queue download is reported where the peer denied the transfer, without a
/// token, and where the connection for the file could not be had, under the token of the
/// transfer. No other failure is reported.
pub proof fn law_reports_of_failures(known: bool, phase: Phase, event: DownloadEvent)
    ensures
        course(DownloadMode::Queue, known, phase, event).2 matches DownloadAction::Fail {
            failure,
            report,
        } ==> {
            &&& failure == Failure::Denied ==> report == Some(0u32)
            &&& failure == Failure::AnyFileConnection ==> match phase {
                Phase::LookingUpAgain { token, size } => report == Some(token),
                Phase::Proactive { token, size } => report == Some(token),
                _ => false,
            }
            &&& failure != Failure::Denied && failure != Failure::AnyFileConnection
                ==> report is None
        },
{
}

/// Each phase takes the events that belong to it, and no others: another event changes
/// nothing.
pub proof fn law_events_belong_to_phases(
    mode: DownloadMode,
    known: bool,
    phase: Phase,
    event: DownloadEvent,
)
    ensures
        course(mode, known, phase, event).2 != DownloadAction::Nothing <==> match phase {
            Phase::Start => event is Stored,
            Phase::LookingUp => event is Address || event == DownloadEvent::Failed,
            Phase::LookingUpAgain { .. } => event is Address || event == DownloadEvent::Failed,
            Phase::Negotiating => event is Allowed || event is Queued || event
                == DownloadEvent::Denied || event == DownloadEvent::Failed,
            Phase::Receiving { .. } => event is Received || event == DownloadEvent::Failed,
            Phase::Ended => false,
            _ => event == DownloadEvent::Done || event == DownloadEvent::Failed,
        },
        course(mode, known, phase, event).2 == DownloadAction::Nothing ==> course(
            mode,
            known,
            phase,
            event,
        ).0 == phase && course(mode, known, phase, event).1 == Mark::Keep,
{
}

/// The progress that is kept is marked by what the peer said and by what was received: as
/// queued where the peer queued the transfer, as a transfer of the size that the peer
/// allowed, and as complete with the bytes that came.
pub proof fn law_marks_tell_what_happened(
    mode: DownloadMode,
    known: bool,
    phase: Phase,
    event: DownloadEvent,
)
    ensures
        ({
            let mark = course(mode, known, phase, event).1;
            &&& mark == Mark::Queue <==> phase == Phase::Negotiating && event is Queued
            &&& mark is Transfer <==> phase == Phase::Negotiating && event is Allowed
            &&& mark is Complete <==> phase is Receiving && event is Received
            &&& mark matches Mark::Transfer { total } ==> (event matches DownloadEvent::Allowed {
                size,
                token,
            } && total == size)
            &&& mark matches Mark::Complete { bytes } ==> event == DownloadEvent::Received(bytes)
        }),
{
}

/// What is kept of a download after a mark: a failure keeps the bytes and the size and has
/// its reason, a queued one keeps both, a transfer has the size that was allowed, and a
/// complete download has the bytes that came. Without a mark nothing changes.
pub proof fn law_progress_after_a_mark(
    p: ProgressView,
    reason: Seq<char>,
    total: u64,
    bytes: u64,
)
    ensures
        changed(p, change_of(Mark::Keep, reason)) == p,
        ({
            let failed = changed(p, change_of(Mark::Fail, reason));
            &&& failed.status == StatusView::Failed(reason)
            &&& failed.total_bytes == p.total_bytes
            &&& failed.downloaded_bytes == p.downloaded_bytes
        }),
        ({
            let queued = changed(p, change_of(Mark::Queue, reason));
            &&& queued.status == StatusView::Queued
            &&& queued.total_bytes == p.total_bytes
            &&& queued.downloaded_bytes == p.downloaded_bytes
        }),
        ({
            let on = changed(p, change_of(Mark::Transfer { total }, reason));
            &&& on.status == StatusView::InProgress
            &&& on.total_bytes == total
            &&& on.downloaded_bytes == p.downloaded_bytes
        }),
        ({
            let here = changed(p, change_of(Mark::Complete { bytes }, reason));
            &&& here.status == StatusView::Completed
            &&& here.total_bytes == p.total_bytes
            &&& here.downloaded_bytes == bytes
        }),
{
}

/// The reason for a failure ends with its detail, but for a missing address, which has none.
/// What the peer said when it denied the transfer is the reason as it stands, and any other
/// failure says more than the detail.
pub proof fn law_reasons_hold_the_detail(failure: Failure, detail: Seq<char>)
    ensures
        failure != Failure::NoAddress ==> detail.is_suffix_of(reason_of(failure, detail)),
        failure == Failure::Denied ==> reason_of(failure, detail) == detail,
        failure != Failure::NoAddress && failure != Failure::Denied ==> reason_of(
            failure,
            detail,
        ).len() > detail.len(),
        reason_of(Failure::NoAddress, detail).len() > 0,
{
    reveal_strlit("No stored P connection and cannot get peer address");
    reveal_strlit("Failed to connect to peer: ");
    reveal_strlit("Failed to send QueueUpload: ");
    reveal_strlit("Negotiation failed: ");
    reveal_strlit("Failed to get F connection: ");
    reveal_strlit("Failed to establish F connection: ");
    reveal_strlit("File transfer failed: ");
    let r = reason_of(failure, detail);
    if failure != Failure::NoAddress {
        assert(r.subrange(r.len() - detail.len(), r.len() as int) =~= detail);
    }
}

/// The progress that a name has is that of the entry with the name.
pub proof fn law_progress_is_that_of_the_file(d: Downloads, i: int)
    requires
        d.well_formed(),
        0 <= i < d.entries().len(),
    ensures
        d.progress(d.entries()[i].filename@) == Some(d.entries()[i]@),
{
    lemma_lookup_at(d.entries(), i);
}

/// Each failure is told in its own words, before the detail.
pub proof fn law_failures_are_told_apart(detail: Seq<char>)
    ensures
        reason_of(Failure::NoAddress, detail)
            == "No stored P connection and cannot get peer address"@,
        "Failed to connect to peer: "@.is_prefix_of(reason_of(Failure::Connect, detail)),
        "Failed to send QueueUpload: "@.is_prefix_of(reason_of(Failure::Request, detail)),
        "Negotiation failed: "@.is_prefix_of(reason_of(Failure::Negotiation, detail)),
        "Failed to get F connection: "@.is_prefix_of(reason_of(Failure::FileConnection, detail)),
        "Failed to establish F connection: "@.is_prefix_of(
            reason_of(Failure::AnyFileConnection, detail),
        ),
        "File transfer failed: "@.is_prefix_of(reason_of(Failure::Transfer, detail)),
{
    lemma_prefix("Failed to connect to peer: "@, detail);
    lemma_prefix("Failed to send QueueUpload: "@, detail);
    lemma_prefix("Negotiation failed: "@, detail);
    lemma_prefix("Failed to get F connection: "@, detail);
    lemma_prefix("Failed to establish F connection: "@, detail);
    lemma_prefix("File transfer failed: "@, detail);
}

/// What stands first is a prefix.
proof fn lemma_prefix(head: Seq<char>, tail: Seq<char>)
    ensures
        head.is_prefix_of(head + tail),
{
    assert((head + tail).subrange(0, head.len() as int) =~= head);
}

} // verus!
