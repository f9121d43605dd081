use rinse::protocol::downloads::DownloadEvent::{
    Address, Allowed, Denied, Done, Failed, Queued, Stored,
};
use rinse::protocol::downloads::{
    download_step, failure_reason, has_address, initiation_report, is_available,
    is_direct_address, mark_change, resumed_completion, transfer_change, AddressSource, DownloadAction, DownloadEvent,
    DownloadMode, DownloadStatus, Downloads, Failure, Mark, PendingDownload, PendingDownloads,
    Phase, StatusChange,
};

fn pending(token: u32, item_id: Option<i64>) -> PendingDownload {
    PendingDownload {
        username: "you".to_string(),
        filename: "f".to_string(),
        filesize: 10,
        transfer_token: token,
        output_path: "out".to_string(),
        item_id,
        queue_id: Some(2),
        list_id: Some(3),
    }
}

#[test]
fn queue_downloads_report_their_own_ids() {
    let t = initiation_report(1, 2, Some(3), 4, Ok(5));
    assert_eq!((t.item_id, t.queue_id, t.list_id, t.transfer_token), (1, 2, Some(3), 4));
    assert_eq!(t.result, Ok(5));
    let t = initiation_report(1, 2, None, 4, Err("broken".to_string()));
    assert_eq!((t.list_id, t.result), (None, Err("broken".to_string())));
}

#[test]
fn downloads_are_kept_by_name() {
    let mut downloads = Downloads::new();
    assert!(downloads.get("f").is_none());
    downloads.start("f", 10);
    downloads.start("g", 20);
    downloads.apply("f", &StatusChange::Transfer { total: 11 });
    let f = downloads.get("f").unwrap();
    assert_eq!((f.total_bytes, f.downloaded_bytes), (11, 0));
    assert_eq!(f.status, DownloadStatus::InProgress);
    assert_eq!(downloads.get("g").unwrap().status, DownloadStatus::Pending);
    downloads.apply("f", &StatusChange::Complete { bytes: 11 });
    let f = downloads.get("f").unwrap();
    assert_eq!((f.downloaded_bytes, f.status), (11, DownloadStatus::Completed));
    downloads.apply("h", &StatusChange::Complete { bytes: 1 });
    assert!(downloads.get("h").is_none());
    assert_eq!(downloads.all().len(), 2);
    downloads.start("f", 12);
    assert_eq!(downloads.all().len(), 2);
    assert_eq!(downloads.get("f").unwrap().status, DownloadStatus::Pending);
    downloads.apply("f", &StatusChange::Keep);
    assert_eq!(downloads.get("f").unwrap().total_bytes, 12);
}

#[test]
fn queued_downloads_are_resumed_by_their_token() {
    let mut downloads = Downloads::new();
    downloads.start("f", 10);
    downloads.apply("f", &StatusChange::Become(DownloadStatus::Queued));
    let mut waiting = PendingDownloads::new();
    waiting.register(pending(7, Some(1)));
    assert!(waiting.resume(&mut downloads, 8).is_none());
    assert_eq!(downloads.get("f").unwrap().status, DownloadStatus::Queued);
    let resumed = waiting.resume(&mut downloads, 7).unwrap();
    assert_eq!(resumed.filename, "f");
    assert_eq!(downloads.get("f").unwrap().status, DownloadStatus::InProgress);
    assert!(waiting.resume(&mut downloads, 7).is_none());
}

#[test]
fn ends_of_resumed_downloads_are_reported_to_the_queue() {
    let complete = resumed_completion(&pending(7, Some(1)), Ok(10)).unwrap();
    assert_eq!((complete.item_id, complete.queue_id, complete.list_id), (1, 2, Some(3)));
    assert_eq!(complete.transfer_token, 7);
    assert_eq!(complete.result, Ok(10));
    assert!(resumed_completion(&pending(7, None), Ok(10)).is_none());
    let mut lost = pending(7, Some(1));
    lost.queue_id = None;
    assert!(resumed_completion(&lost, Err("x".to_string())).is_none());
}

#[test]
fn ends_of_transfers_change_the_progress() {
    assert!(matches!(transfer_change(&Ok(5)), StatusChange::Complete { bytes: 5 }));
    assert!(matches!(
        transfer_change(&Err("x".to_string())),
        StatusChange::Become(DownloadStatus::Failed(reason)) if reason == "x"
    ));
}

/// Runs a download through events and returns what was done, with the last phase.
fn run(mode: DownloadMode, known: bool, events: &[DownloadEvent]) -> (Vec<DownloadAction>, Vec<Mark>, Phase) {
    let mut phase = Phase::Start;
    let mut actions = Vec::new();
    let mut marks = Vec::new();
    for event in events {
        let (next, mark, action) = download_step(mode, known, phase, *event);
        phase = next;
        marks.push(mark);
        actions.push(action);
    }
    (actions, marks, phase)
}

#[test]
fn a_queue_download_that_goes_well() {
    let (actions, marks, phase) = run(
        DownloadMode::Queue,
        true,
        &[
            DownloadEvent::Stored(false),
            DownloadEvent::Done,
            DownloadEvent::Done,
            DownloadEvent::Allowed { size: 10, token: 7 },
            DownloadEvent::Done,
        ],
    );
    assert_eq!(
        actions,
        vec![
            DownloadAction::Connect(AddressSource::Given),
            DownloadAction::SendRequest,
            DownloadAction::AwaitTransfer,
            DownloadAction::AwaitFile { token: 7 },
            DownloadAction::Spawned { token: 7, size: 10 },
        ]
    );
    assert_eq!(marks[3], Mark::Transfer { total: 10 });
    assert_eq!(phase, Phase::Ended);
}

#[test]
fn a_direct_download_that_goes_well() {
    let (actions, marks, phase) = run(
        DownloadMode::Direct,
        false,
        &[
            DownloadEvent::Stored(false),
            DownloadEvent::Address { has_ip: true, port: 1 },
            DownloadEvent::Done,
            DownloadEvent::Done,
            DownloadEvent::Allowed { size: 10, token: 7 },
            DownloadEvent::Done,
            DownloadEvent::Received(10),
        ],
    );
    assert_eq!(actions[0], DownloadAction::LookUp);
    assert_eq!(actions[1], DownloadAction::Connect(AddressSource::LookedUp));
    assert_eq!(actions[5], DownloadAction::Receive { token: 7, size: 10 });
    assert_eq!(actions[6], DownloadAction::Complete { bytes: 10 });
    assert_eq!(marks[6], Mark::Complete { bytes: 10 });
    assert_eq!(phase, Phase::Ended);
}

#[test]
fn stored_connections_are_used() {
    let (actions, _, _) = run(DownloadMode::Queue, false, &[DownloadEvent::Stored(true)]);
    assert_eq!(actions, vec![DownloadAction::SendRequest]);
}

fn failure_after(mode: DownloadMode, known: bool, events: &[DownloadEvent]) -> (Failure, Option<u32>) {
    let (actions, marks, phase) = run(mode, known, events);
    assert_eq!(marks.last(), Some(&Mark::Fail));
    assert_eq!(phase, Phase::Ended);
    match actions.last() {
        Some(DownloadAction::Fail { failure, report }) => (*failure, *report),
        other => panic!("{:?}", other),
    }
}

#[test]
fn downloads_fail_for_their_reasons() {
    let queue = DownloadMode::Queue;
    let direct = DownloadMode::Direct;
    let allowed = Allowed { size: 10, token: 7 };
    assert_eq!(failure_after(queue, false, &[Stored(false), Failed]), (Failure::NoAddress, None));
    assert_eq!(
        failure_after(queue, false, &[Stored(false), Address { has_ip: true, port: 0 }]),
        (Failure::NoAddress, None)
    );
    assert_eq!(failure_after(queue, true, &[Stored(false), Failed]), (Failure::Connect, None));
    assert_eq!(failure_after(queue, true, &[Stored(true), Failed]), (Failure::Request, None));
    assert_eq!(failure_after(queue, true, &[Stored(true), Done, Failed]), (Failure::Negotiation, None));
    assert_eq!(failure_after(queue, true, &[Stored(true), Done, Denied]), (Failure::Denied, Some(0)));
    assert_eq!(failure_after(direct, true, &[Stored(true), Done, Denied]), (Failure::Denied, None));
    assert_eq!(
        failure_after(direct, true, &[Stored(true), Done, allowed, Failed]),
        (Failure::FileConnection, None)
    );
    assert_eq!(
        failure_after(direct, true, &[Stored(true), Done, allowed, Done, Failed]),
        (Failure::Transfer, None)
    );
    assert_eq!(
        failure_after(queue, true, &[Stored(true), Done, allowed, Failed, Failed]),
        (Failure::AnyFileConnection, Some(7))
    );
    assert_eq!(
        failure_after(queue, false, &[Stored(true), Done, allowed, Failed, Failed]),
        (Failure::AnyFileConnection, Some(7))
    );
    assert_eq!(
        failure_after(
            queue,
            false,
            &[Stored(true), Done, allowed, Failed, Address { has_ip: false, port: 5 }]
        ),
        (Failure::AnyFileConnection, Some(7))
    );
}

#[test]
fn queue_downloads_connect_for_the_file_themselves() {
    let allowed = Allowed { size: 10, token: 7 };
    let (actions, _, _) = run(
        DownloadMode::Queue,
        false,
        &[Stored(true), Done, allowed, Failed, Address { has_ip: true, port: 5 }, Done],
    );
    assert_eq!(actions[3], DownloadAction::LookUp);
    assert_eq!(
        actions[4],
        DownloadAction::ConnectForFile { source: AddressSource::LookedUp, token: 7 }
    );
    assert_eq!(actions[5], DownloadAction::Spawned { token: 7, size: 10 });
    let (actions, _, _) = run(DownloadMode::Queue, true, &[Stored(true), Done, allowed, Failed]);
    assert_eq!(
        actions[3],
        DownloadAction::ConnectForFile { source: AddressSource::Given, token: 7 }
    );
}

#[test]
fn queued_downloads_are_registered() {
    let (actions, marks, phase) =
        run(DownloadMode::Queue, true, &[Stored(true), Done, Queued { token: 7 }]);
    assert_eq!(actions[2], DownloadAction::Pend { token: 7 });
    assert_eq!(marks[2], Mark::Queue);
    assert_eq!(phase, Phase::Ended);
}

#[test]
fn events_out_of_place_do_nothing() {
    let step = download_step(DownloadMode::Queue, true, Phase::Ended, DownloadEvent::Done);
    assert_eq!(step, (Phase::Ended, Mark::Keep, DownloadAction::Nothing));
    let step = download_step(DownloadMode::Queue, true, Phase::Start, DownloadEvent::Denied);
    assert_eq!(step, (Phase::Start, Mark::Keep, DownloadAction::Nothing));
}

#[test]
fn addresses_are_looked_at() {
    assert!(has_address("1.2.3.4", 1));
    assert!(!has_address("", 1));
    assert!(!has_address("1.2.3.4", 0));
    assert!(is_direct_address("1.2.3.4", 1));
    assert!(!is_direct_address("0.0.0.0", 1));
    assert!(!is_direct_address("", 1));
    assert!(is_available("1.2.3.4", 1));
    assert!(!is_available("", 1));
    assert!(!is_available("1.2.3.4", 0));
}

#[test]
fn failures_are_put_into_words() {
    assert_eq!(
        failure_reason(Failure::NoAddress, "x"),
        "No stored P connection and cannot get peer address"
    );
    assert_eq!(failure_reason(Failure::Connect, "x"), "Failed to connect to peer: x");
    assert_eq!(failure_reason(Failure::Request, "x"), "Failed to send QueueUpload: x");
    assert_eq!(failure_reason(Failure::Negotiation, "x"), "Negotiation failed: x");
    assert_eq!(failure_reason(Failure::Denied, "x"), "x");
    assert_eq!(failure_reason(Failure::FileConnection, "x"), "Failed to get F connection: x");
    assert_eq!(failure_reason(Failure::AnyFileConnection, "x"), "Failed to establish F connection: x");
    assert_eq!(failure_reason(Failure::Transfer, "x"), "File transfer failed: x");
}

#[test]
fn marks_stand_for_changes() {
    assert!(matches!(mark_change(Mark::Keep, "x"), StatusChange::Keep));
    assert!(matches!(
        mark_change(Mark::Fail, "x"),
        StatusChange::Become(DownloadStatus::Failed(reason)) if reason == "x"
    ));
    assert!(matches!(mark_change(Mark::Queue, "x"), StatusChange::Become(DownloadStatus::Queued)));
    assert!(matches!(mark_change(Mark::Transfer { total: 3 }, "x"), StatusChange::Transfer { total: 3 }));
    assert!(matches!(mark_change(Mark::Complete { bytes: 3 }, "x"), StatusChange::Complete { bytes: 3 }));
}
