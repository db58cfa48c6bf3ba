use vstd::prelude::*;

verus! {

/// Largest number of tasks one run accepts. With 32-bit durations,
/// priorities and weights, 2^15 tasks keep every start time in 64 bits, the
/// unclamped energy below 2^127, and a sweep's `sweep_factor * N * N`
/// proposals in 64 bits.
pub const MAX_TASKS: usize = 32768;

/// One unit of work.
#[derive(Clone, Debug)]
pub struct Task {
    /// Unique identifier.
    pub uid: String,
    /// Length of the work, in minutes; positive in a well-formed task.
    pub duration: u32,
    /// Importance weight: higher is more important.
    pub priority: u32,
    /// The site the task must run at.
    pub location: u32,
}

/// A concrete placement on the timeline, in minutes from the schedule's start.
#[derive(Clone, Copy, Debug, PartialEq, Eq, Structural)]
pub struct TimeSlot {
    pub timestamp: u64,
    pub duration: u32,
}

impl Task {
    pub fn new(uid: String, duration: u32, priority: u32, location: u32) -> (r: Task)
        ensures
            r.uid == uid,
            r.duration == duration,
            r.priority == priority,
            r.location == location,
    {
        Task { uid, duration, priority, location }
    }
}

} // verus!
