//! The job lifecycle: `Created → Running → {Completed, Failed, Timeout,
//! FailedSubmission}`, with `Queued` for jobs accepted by an external
//! scheduler and `VirtualQueue` for jobs deferred by the concurrency
//! cap.  Transitions are one-way and nothing leaves a terminal state.

use vstd::prelude::*;

verus! {

/// One job's lifecycle state.
#[derive(Clone, Copy, Debug, PartialEq, Eq, Structural)]
pub enum Status {
    Created,
    Queued,
    Running,
    Completed,
    Failed,
    Timeout,
    FailedSubmission,
    VirtualQueue,
}

/// The display name of a status, as the structured log records it.
pub open spec fn status_str(s: Status) -> Seq<char> {
    match s {
        Status::Created => "Created"@,
        Status::Queued => "Queued"@,
        Status::Running => "Running"@,
        Status::Completed => "Completed"@,
        Status::Failed => "Failed"@,
        Status::Timeout => "Timeout"@,
        Status::FailedSubmission => "FailedSubmission"@,
        Status::VirtualQueue => "VirtualQueue"@,
    }
}

/// A terminal status: no transition ever leaves it.
pub open spec fn is_terminal(s: Status) -> bool {
    s == Status::Completed || s == Status::Failed || s == Status::Timeout
        || s == Status::FailedSubmission
}

/// The permitted transitions: a created job starts running (locally),
/// is accepted by an external scheduler, or is deferred to the virtual
/// queue; a queued or deferred job starts running; a running job ends
/// in exactly one terminal state.
pub open spec fn can_transition(a: Status, b: Status) -> bool {
    ||| (a == Status::Created && (b == Status::Running || b == Status::Queued || b
        == Status::VirtualQueue || b == Status::FailedSubmission))
    ||| (a == Status::Queued && b == Status::Running)
    ||| (a == Status::VirtualQueue && (b == Status::Running || b == Status::Queued))
    ||| (a == Status::Running && is_terminal(b))
}

/// Status transitions are monotonic: a terminal state admits no
/// further transition, so no run resumes after it ended.
pub proof fn lemma_terminal_is_final(a: Status, b: Status)
    ensures
        is_terminal(a) ==> !can_transition(a, b),
{
}

impl Status {
    /// The status name, as recorded in the structured log.
    pub fn as_str(&self) -> (r: String)
        ensures
            r@ == status_str(*self),
    {
        match self {
            Status::Created => String::from_str("Created"),
            Status::Queued => String::from_str("Queued"),
            Status::Running => String::from_str("Running"),
            Status::Completed => String::from_str("Completed"),
            Status::Failed => String::from_str("Failed"),
            Status::Timeout => String::from_str("Timeout"),
            Status::FailedSubmission => String::from_str("FailedSubmission"),
            Status::VirtualQueue => String::from_str("VirtualQueue"),
        }
    }

    /// Whether this status ends the job's run.
    pub fn is_finished(&self) -> (r: bool)
        ensures
            r == is_terminal(*self),
    {
        match self {
            Status::Completed => true,
            Status::Failed => true,
            Status::Timeout => true,
            Status::FailedSubmission => true,
            _ => false,
        }
    }
}

/// The exit code the timeout wrapper yields when it kills the process.
pub const TIMEOUT_SENTINEL: i32 = 124;

/// What a finished local process means for the job: no exit code at
/// all is a failed submission, exit zero is success, the timeout
/// sentinel under an applied timeout wrapper is a timeout, and any
/// other exit code is a failure.
pub open spec fn exit_status(exit_code: Option<i32>, timeout_applied: bool) -> Status {
    match exit_code {
        None => Status::FailedSubmission,
        Some(c) => if c == 0 {
            Status::Completed
        } else if c == TIMEOUT_SENTINEL && timeout_applied {
            Status::Timeout
        } else {
            Status::Failed
        },
    }
}

/// Classifies the outcome of a local process: the terminal status a
/// run ends in, always a legal transition out of `Running`.
pub fn classify_exit(exit_code: Option<i32>, timeout_applied: bool) -> (r: Status)
    ensures
        r == exit_status(exit_code, timeout_applied),
        is_terminal(r),
        can_transition(Status::Running, r),
{
    match exit_code {
        None => Status::FailedSubmission,
        Some(c) => {
            if c == 0 {
                Status::Completed
            } else if c == TIMEOUT_SENTINEL && timeout_applied {
                Status::Timeout
            } else {
                Status::Failed
            }
        },
    }
}

} // verus!
