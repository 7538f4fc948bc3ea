use vstd::prelude::*;

verus! {

/// The lifecycle of every asynchronously computed entity. Terminal states are
/// final: there is no retry transition.
#[derive(Debug, Copy, Clone, PartialEq, Eq, Structural)]
pub enum Status {
    Queued,
    Running,
    Completed,
    Failed,
}

impl Status {
    pub open spec fn is_terminal(self) -> bool {
        self is Completed || self is Failed
    }

    /// Whether a worker-reported transition from `self` to `to` is accepted:
    /// forward steps only, and a repeated terminal report is a no-op rather
    /// than an error. A queued item may report a terminal state directly:
    /// confirmation of a cheap operation can arrive without an observed
    /// running phase.
    pub open spec fn can_step(self, to: Status) -> bool {
        ||| (self is Queued && !(to is Queued))
        ||| (self is Running && (to is Completed || to is Failed))
        ||| (self.is_terminal() && to == self)
    }

    pub fn terminal(&self) -> (r: bool)
        ensures
            r == self.is_terminal(),
    {
        match self {
            Status::Completed => true,
            Status::Failed => true,
            _ => false,
        }
    }

    pub fn step_allowed(&self, to: &Status) -> (r: bool)
        ensures
            r == self.can_step(*to),
    {
        match self {
            Status::Queued => !(*to == Status::Queued),
            Status::Running => *to == Status::Completed || *to == Status::Failed,
            Status::Completed => *to == Status::Completed,
            Status::Failed => *to == Status::Failed,
        }
    }
}

} // verus!
