use vstd::prelude::*;
use vstd::string::StringExecFns;

verus! {

/// The kinds of failure that an archive operation reports.
#[derive(PartialEq, Eq, Structural, Clone, Copy, Debug)]
pub enum ErrorKind {
    /// A path that the operation needs does not exist.
    NotFound,
    /// The entry table breaks one of its structural invariants.
    Corrupt,
    /// Reading or writing failed.
    Io,
    /// The run was stopped by a cancellation request; not a fault.
    Cancelled,
}

/// The step of a host request that failed.
#[derive(PartialEq, Eq, Structural, Clone, Copy, Debug)]
pub enum Stage {
    Create,
    Extract,
    Read,
    Open,
}

/// The verb by which a message names a stage.
pub open spec fn stage_verb(stage: Stage) -> Seq<char> {
    match stage {
        Stage::Create => "create"@,
        Stage::Extract => "extract"@,
        Stage::Read => "read"@,
        Stage::Open => "open"@,
    }
}

/// The message the host is given for a failure: a cancellation is reported
/// as such, any other failure with its stage and the engine's own words.
pub open spec fn failure_text(stage: Stage, kind: ErrorKind, detail: Seq<char>) -> Seq<char> {
    if kind == ErrorKind::Cancelled {
        "Operation cancelled"@
    } else {
        "Failed to "@ + stage_verb(stage) + " archive: "@ + detail
    }
}

/// The message the host is given when `stage` fails with `kind`; `detail`
/// is the engine's description of the failure.
pub fn failure_message(stage: Stage, kind: ErrorKind, detail: &str) -> (r: String)
    ensures
        r@ == failure_text(stage, kind, detail@),
{
    if kind == ErrorKind::Cancelled {
        return String::from_str("Operation cancelled");
    }
    let mut out = String::from_str("Failed to ");
    let verb = match stage {
        Stage::Create => "create",
        Stage::Extract => "extract",
        Stage::Read => "read",
        Stage::Open => "open",
    };
    out.append(verb);
    out.append(" archive: ");
    out.append(detail);
    out
}

} // verus!
