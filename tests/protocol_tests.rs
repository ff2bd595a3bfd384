use pf8_bridge::error::{failure_message, ErrorKind, Stage};
use pf8_bridge::protocol::{
    kind_label, react, Control, HostCall, OperationKind, ProgressSnapshot, SinkEvent,
};

fn progress(bytes: u64, total: Option<u64>, files: usize, total_files: Option<usize>) -> SinkEvent {
    SinkEvent::Progress(ProgressSnapshot {
        current_file: "f".to_string(),
        processed_bytes: bytes,
        total_bytes: total,
        processed_files: files,
        total_files,
    })
}

#[test]
fn labels_of_directions() {
    assert_eq!(kind_label(OperationKind::Pack), "Pack");
    assert_eq!(kind_label(OperationKind::Unpack), "Unpack");
}

#[test]
fn forwards_when_not_cancelled() {
    let r = react(false, SinkEvent::Started(OperationKind::Unpack));
    assert_eq!(r.action, Control::Continue);
    assert_eq!(r.call, Some(HostCall::Started("Unpack".to_string())));
    let r = react(false, SinkEvent::EntryStarted("a".to_string()));
    assert_eq!(r.call, Some(HostCall::EntryStarted("a".to_string())));
    let r = react(false, SinkEvent::EntryFinished("a".to_string()));
    assert_eq!(r.call, Some(HostCall::EntryFinished("a".to_string())));
    let r = react(false, SinkEvent::Warning("w".to_string()));
    assert_eq!(r.call, Some(HostCall::Warning("w".to_string())));
    let r = react(false, SinkEvent::Finished);
    assert_eq!(r.call, Some(HostCall::Finished));
}

#[test]
fn progress_arguments() {
    let r = react(false, progress(100, Some(400), 2, Some(9)));
    assert_eq!(r.action, Control::Continue);
    assert_eq!(
        r.call,
        Some(HostCall::Progress {
            file: "f".to_string(),
            processed_bytes: 100,
            total_bytes: 400,
            processed_files: 2,
            total_files: 9,
        })
    );
}

#[test]
fn progress_unknown_totals_and_wide_counts() {
    let r = react(false, progress(u64::MAX, None, (1usize << 32) + 5, None));
    assert_eq!(
        r.call,
        Some(HostCall::Progress {
            file: "f".to_string(),
            processed_bytes: -1,
            total_bytes: 0,
            processed_files: 5,
            total_files: 0,
        })
    );
}

#[test]
fn cancelled_checkpoints_abort() {
    let events = vec![
        SinkEvent::Started(OperationKind::Pack),
        SinkEvent::EntryStarted("a".to_string()),
        progress(1, None, 1, None),
        SinkEvent::EntryFinished("a".to_string()),
    ];
    for e in events {
        let r = react(true, e);
        assert_eq!(r.action, Control::Abort);
        assert_eq!(r.call, None);
    }
}

#[test]
fn cancelled_warning_and_finish_pass() {
    let r = react(true, SinkEvent::Warning("w".to_string()));
    assert_eq!(r.action, Control::Continue);
    assert_eq!(r.call, Some(HostCall::Warning("w".to_string())));
    let r = react(true, SinkEvent::Finished);
    assert_eq!(r.action, Control::Continue);
    assert_eq!(r.call, Some(HostCall::Finished));
}

#[test]
fn cancellation_stops_run_before_all_files() {
    let n = 5;
    let mut run = vec![SinkEvent::Started(OperationKind::Unpack)];
    for i in 0..n {
        let name = format!("f{}", i);
        run.push(SinkEvent::EntryStarted(name.clone()));
        for c in 0..4u64 {
            run.push(progress(c, Some(4), i, Some(n)));
        }
        run.push(SinkEvent::EntryFinished(name));
    }
    run.push(SinkEvent::Finished);
    let set_at = 8;
    let mut finished = 0;
    let mut aborted = false;
    for (i, e) in run.into_iter().enumerate() {
        let is_finish = matches!(e, SinkEvent::EntryFinished(_));
        let r = react(i >= set_at, e);
        if r.action == Control::Abort {
            aborted = true;
            assert_eq!(i, set_at);
            break;
        }
        if is_finish {
            finished += 1;
        }
    }
    assert!(aborted);
    assert!(finished < n);
}

#[test]
fn failure_messages() {
    assert_eq!(
        failure_message(Stage::Create, ErrorKind::Io, "disk full"),
        "Failed to create archive: disk full"
    );
    assert_eq!(
        failure_message(Stage::Extract, ErrorKind::Corrupt, "bad"),
        "Failed to extract archive: bad"
    );
    assert_eq!(
        failure_message(Stage::Read, ErrorKind::NotFound, "x"),
        "Failed to read archive: x"
    );
    assert_eq!(
        failure_message(Stage::Open, ErrorKind::Io, ""),
        "Failed to open archive: "
    );
    assert_eq!(
        failure_message(Stage::Extract, ErrorKind::Cancelled, "whatever"),
        "Operation cancelled"
    );
}
