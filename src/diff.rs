use vstd::prelude::*;

verus! {

/// How a candidate file compares with its destination.
pub enum DiffStatus {
    NoChanges,
    NewFile,
    /// The destination differs; the payload is the difference as text.
    Changed(Vec<u8>),
    Failed,
}

/// The outcome of a comparison, without its payload.
#[derive(Clone, Copy, PartialEq, Eq, Structural, Debug)]
pub enum DiffKind {
    NoChanges,
    NewFile,
    Changed,
    Failed,
}

impl DiffStatus {
    pub open spec fn kind(&self) -> DiffKind {
        match self {
            DiffStatus::NoChanges => DiffKind::NoChanges,
            DiffStatus::NewFile => DiffKind::NewFile,
            DiffStatus::Changed(_) => DiffKind::Changed,
            DiffStatus::Failed => DiffKind::Failed,
        }
    }
}

/// How a faithful comparison of `staged` with the destination's content
/// (`None` where the destination does not exist) comes out.
pub open spec fn compares_as(staged: Seq<u8>, dest: Option<Seq<u8>>) -> DiffKind {
    match dest {
        None => DiffKind::NewFile,
        Some(d) => if d == staged {
            DiffKind::NoChanges
        } else {
            DiffKind::Changed
        },
    }
}

/// Classifies a comparison. A destination that does not exist is a new file,
/// whatever else is known; otherwise the line-diff tool's exit status
/// decides: 0 is no change, 1 is a change whose text is the tool's output,
/// and 2, any other status or no status at all is a failure.
pub fn diff_outcome(dest_exists: bool, code: Option<i32>, output: Vec<u8>) -> (r: DiffStatus)
    ensures
        !dest_exists ==> r is NewFile,
        dest_exists ==> match code {
            Some(0) => r is NoChanges,
            Some(1) => r is Changed && r->Changed_0@ == output@,
            _ => r is Failed,
        },
{
    if !dest_exists {
        return DiffStatus::NewFile;
    }
    match code {
        Some(0) => DiffStatus::NoChanges,
        Some(1) => DiffStatus::Changed(output),
        _ => DiffStatus::Failed,
    }
}

} // verus!
