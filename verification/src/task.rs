//! Task records: the four-state status cycle and the task data type.

use vstd::prelude::*;

verus! {

/// The lifecycle status of a task. User action cycles it through
/// NotStarted -> InProgress -> Complete -> Overdue -> NotStarted.
#[derive(Clone, Copy, Debug, PartialEq, Eq, Structural)]
pub enum Status {
    NotStarted,
    InProgress,
    Complete,
    Overdue,
}

/// The successor of a status in the four-step cycle.
pub open spec fn spec_next_status(s: Status) -> Status {
    match s {
        Status::NotStarted => Status::InProgress,
        Status::InProgress => Status::Complete,
        Status::Complete => Status::Overdue,
        Status::Overdue => Status::NotStarted,
    }
}

/// Advances a status one step in the cycle.
pub fn next_status(s: Status) -> (r: Status)
    ensures
        r == spec_next_status(s),
{
    match s {
        Status::NotStarted => Status::InProgress,
        Status::InProgress => Status::Complete,
        Status::Complete => Status::Overdue,
        Status::Overdue => Status::NotStarted,
    }
}

/// The status cycle has period four: advancing any status four times
/// returns it unchanged.
pub proof fn lemma_status_cycle_period_four(s: Status)
    ensures
        spec_next_status(spec_next_status(spec_next_status(spec_next_status(s)))) == s,
{
}

/// The numeric tag a status is stored under in the persisted form.
pub open spec fn spec_status_code(s: Status) -> nat {
    match s {
        Status::NotStarted => 0,
        Status::InProgress => 1,
        Status::Complete => 2,
        Status::Overdue => 3,
    }
}

/// The status stored under a numeric tag, if the tag is in range.
pub open spec fn spec_status_of_code(n: nat) -> Option<Status> {
    if n == 0 {
        Some(Status::NotStarted)
    } else if n == 1 {
        Some(Status::InProgress)
    } else if n == 2 {
        Some(Status::Complete)
    } else if n == 3 {
        Some(Status::Overdue)
    } else {
        None
    }
}

/// Decoding the code of a status yields that status back.
pub proof fn lemma_status_code_round_trip(s: Status)
    ensures
        spec_status_of_code(spec_status_code(s)) == Some(s),
{
}

/// The code of the status stored under a tag is that tag.
pub proof fn lemma_status_of_code_inverse(n: nat)
    ensures
        spec_status_of_code(n) matches Some(st) ==> spec_status_code(st) == n,
{
}

/// The numeric tag of a status, as stored in the persisted form.
pub fn status_code(s: Status) -> (r: u64)
    ensures
        r as nat == spec_status_code(s),
{
    match s {
        Status::NotStarted => 0,
        Status::InProgress => 1,
        Status::Complete => 2,
        Status::Overdue => 3,
    }
}

/// The status stored under a numeric tag, if the tag is in range.
pub fn status_of_code(n: u64) -> (r: Option<Status>)
    ensures
        r == spec_status_of_code(n as nat),
{
    if n == 0 {
        Some(Status::NotStarted)
    } else if n == 1 {
        Some(Status::InProgress)
    } else if n == 2 {
        Some(Status::Complete)
    } else if n == 3 {
        Some(Status::Overdue)
    } else {
        None
    }
}

/// The display label of a status.
pub fn status_label(s: Status) -> (r: &'static str)
    ensures
        s == Status::NotStarted ==> r@ == "Not Started"@,
        s == Status::InProgress ==> r@ == "In Progress"@,
        s == Status::Complete ==> r@ == "Complete"@,
        s == Status::Overdue ==> r@ == "Overdue"@,
{
    match s {
        Status::NotStarted => "Not Started",
        Status::InProgress => "In Progress",
        Status::Complete => "Complete",
        Status::Overdue => "Overdue",
    }
}

/// One unit of work. `created` holds the creation instant as timestamp
/// text with a zone offset; `duration_secs` is the span in seconds from
/// creation until the task is due. The due instant is always derived as
/// `created + duration_secs` at display time, never stored.
#[derive(Debug)]
pub struct Task {
    pub created: String,
    pub duration_secs: u64,
    pub title: String,
    pub description: String,
    pub status: Status,
}

/// The mathematical model of a task: its text fields as character
/// sequences, with the duration and status as values.
#[verifier::ext_equal]
pub ghost struct TaskView {
    pub created: Seq<char>,
    pub duration_secs: u64,
    pub title: Seq<char>,
    pub description: Seq<char>,
    pub status: Status,
}

impl View for Task {
    type V = TaskView;

    open spec fn view(&self) -> TaskView {
        TaskView {
            created: self.created@,
            duration_secs: self.duration_secs,
            title: self.title@,
            description: self.description@,
            status: self.status,
        }
    }
}

} // verus!
