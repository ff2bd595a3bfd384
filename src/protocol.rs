use vstd::prelude::*;
use vstd::string::StringExecFns;

verus! {

/// Which direction a run is going.
#[derive(PartialEq, Eq, Structural, Clone, Copy, Debug)]
pub enum OperationKind {
    /// Files are packed into a container.
    Pack,
    /// A container is unpacked into a directory.
    Unpack,
}

/// Whether a sink call should let the run go on.
#[derive(PartialEq, Eq, Structural, Clone, Copy, Debug)]
pub enum Control {
    Continue,
    Abort,
}

/// A progress snapshot, as the engine reports it at a checkpoint.
#[derive(Debug, PartialEq, Eq)]
pub struct ProgressSnapshot {
    /// Path of the entry being processed.
    pub current_file: String,
    /// Bytes processed so far in this run.
    pub processed_bytes: u64,
    /// Bytes the run will process, where known.
    pub total_bytes: Option<u64>,
    /// Files processed so far.
    pub processed_files: usize,
    /// Files the run will process, where known.
    pub total_files: Option<usize>,
}

/// One call that the engine makes on the sink.
#[derive(Debug, PartialEq, Eq)]
pub enum SinkEvent {
    Started(OperationKind),
    EntryStarted(String),
    Progress(ProgressSnapshot),
    EntryFinished(String),
    Warning(String),
    Finished,
}

/// What the host's callback object is handed for an event. The host takes
/// signed 64-bit byte counts and signed 32-bit file counts; an unknown
/// total is reported as zero.
#[derive(Debug, PartialEq, Eq)]
pub enum HostCall {
    Started(String),
    EntryStarted(String),
    Progress {
        file: String,
        processed_bytes: i64,
        total_bytes: i64,
        processed_files: i32,
        total_files: i32,
    },
    EntryFinished(String),
    Warning(String),
    Finished,
}

/// The sink's answer to one event: the control action returned to the
/// engine, and the call to forward to the host, if any.
#[derive(Debug, PartialEq, Eq)]
pub struct Reaction {
    pub action: Control,
    pub call: Option<HostCall>,
}

/// The name by which the host knows a direction.
pub open spec fn kind_name(k: OperationKind) -> Seq<char> {
    match k {
        OperationKind::Pack => "Pack"@,
        OperationKind::Unpack => "Unpack"@,
    }
}

/// Events at which a cancellation request is honoured. Warnings and the
/// final notice are always passed on.
pub open spec fn is_checkpoint(e: SinkEvent) -> bool {
    match e {
        SinkEvent::Warning(_) | SinkEvent::Finished => false,
        _ => true,
    }
}

/// The control action owed for an event while the token reads `cancelled`.
pub open spec fn action_for(cancelled: bool, e: SinkEvent) -> Control {
    if cancelled && is_checkpoint(e) {
        Control::Abort
    } else {
        Control::Continue
    }
}

/// `c` is the host call that forwards `e`.
pub open spec fn forwards(e: SinkEvent, c: HostCall) -> bool {
    match (e, c) {
        (SinkEvent::Started(k), HostCall::Started(s)) => s@ == kind_name(k),
        (SinkEvent::EntryStarted(n), HostCall::EntryStarted(s)) => s@ == n@,
        (SinkEvent::EntryFinished(n), HostCall::EntryFinished(s)) => s@ == n@,
        (SinkEvent::Warning(n), HostCall::Warning(s)) => s@ == n@,
        (SinkEvent::Finished, HostCall::Finished) => true,
        (
            SinkEvent::Progress(p),
            HostCall::Progress {
                file,
                processed_bytes,
                total_bytes,
                processed_files,
                total_files,
            },
        ) => {
            &&& file@ == p.current_file@
            &&& processed_bytes == p.processed_bytes as i64
            &&& total_bytes == (match p.total_bytes {
                Some(t) => t,
                None => 0,
            }) as i64
            &&& processed_files == p.processed_files as i32
            &&& total_files == (match p.total_files {
                Some(t) => t,
                None => 0,
            }) as i32
        },
        _ => false,
    }
}

/// The name by which the host knows a direction.
pub fn kind_label(k: OperationKind) -> (r: String)
    ensures
        r@ == kind_name(k),
{
    match k {
        OperationKind::Pack => String::from_str("Pack"),
        OperationKind::Unpack => String::from_str("Unpack"),
    }
}

/// Decides the sink's answer to `event` while the cancellation token reads
/// `cancelled`: at a checkpoint a set token aborts the run and nothing is
/// forwarded; otherwise the event is forwarded to the host and the run goes on.
pub fn react(cancelled: bool, event: SinkEvent) -> (r: Reaction)
    ensures
        r.action == action_for(cancelled, event),
        r.action == Control::Abort ==> r.call is None,
        r.action == Control::Continue ==> (r.call matches Some(c) && forwards(event, c)),
{
    if cancelled {
        match event {
            SinkEvent::Warning(_) => {},
            SinkEvent::Finished => {},
            _ => {
                return Reaction { action: Control::Abort, call: None };
            },
        }
    }
    let call = match event {
        SinkEvent::Started(k) => HostCall::Started(kind_label(k)),
        SinkEvent::EntryStarted(n) => HostCall::EntryStarted(n),
        SinkEvent::Progress(p) => {
            let total_bytes: u64 = match p.total_bytes {
                Some(t) => t,
                None => 0,
            };
            let total_files: usize = match p.total_files {
                Some(t) => t,
                None => 0,
            };
            HostCall::Progress {
                file: p.current_file,
                processed_bytes: p.processed_bytes as i64,
                total_bytes: total_bytes as i64,
                processed_files: p.processed_files as i32,
                total_files: total_files as i32,
            }
        },
        SinkEvent::EntryFinished(n) => HostCall::EntryFinished(n),
        SinkEvent::Warning(n) => HostCall::Warning(n),
        SinkEvent::Finished => HostCall::Finished,
    };
    Reaction { action: Control::Continue, call: Some(call) }
}

/// Position of the first event of `run` that is answered with `Abort`, when
/// the token reads `flags[i]` at event `i`; `run.len()` if none is.
pub open spec fn first_abort(run: Seq<SinkEvent>, flags: Seq<bool>) -> int
    decreases run.len(),
{
    if run.len() == 0 || flags.len() == 0 {
        run.len() as int
    } else if action_for(flags[0], run[0]) == Control::Abort {
        0
    } else {
        1 + first_abort(run.drop_first(), flags.drop_first())
    }
}

/// Cancellation latency: once the token is set (and stays set) at event `k`,
/// the run is aborted no later than the first checkpoint at or after `k`.
/// In particular a run of several entries stops before the last entry is
/// reported finished.
pub proof fn lemma_cancellation_latency(run: Seq<SinkEvent>, flags: Seq<bool>, k: int, m: int)
    requires
        flags.len() == run.len(),
        0 <= k <= m < run.len(),
        forall|i: int| k <= i < flags.len() ==> #[trigger] flags[i],
        is_checkpoint(run[m]),
    ensures
        first_abort(run, flags) <= m,
    decreases run.len(),
{
    if action_for(flags[0], run[0]) != Control::Abort {
        assert(m > 0);
        let k2 = if k > 0 {
            k - 1
        } else {
            0
        };
        let r2 = run.drop_first();
        let f2 = flags.drop_first();
        assert forall|i: int| k2 <= i < f2.len() implies #[trigger] f2[i] by {
            assert(f2[i] == flags[i + 1]);
        }
        assert(r2[m - 1] == run[m]);
        lemma_cancellation_latency(r2, f2, k2, m - 1);
    }
}

} // verus!
