use vstd::prelude::*;
use crate::task::{Task, TimeSlot, MAX_TASKS};
use crate::perm::is_permutation;

verus! {

/// The task placed at position `k` of the placement order.
pub open spec fn placed(tasks: Seq<Task>, state: Seq<usize>, k: int) -> Task {
    tasks[state[k] as int]
}

/// Total duration of the tasks placed before position `k` at location `loc`.
pub open spec fn load_before(tasks: Seq<Task>, state: Seq<usize>, k: int, loc: u32) -> int
    decreases k,
{
    if k <= 0 {
        0
    } else {
        load_before(tasks, state, k - 1, loc) + if placed(tasks, state, k - 1).location == loc {
            placed(tasks, state, k - 1).duration as int
        } else {
            0
        }
    }
}

/// Start time of the task at position `k`: its location's timeline is busy
/// with every task placed there earlier, and the task takes the next free
/// minute.
pub open spec fn start_of(tasks: Seq<Task>, state: Seq<usize>, k: int) -> int {
    load_before(tasks, state, k, placed(tasks, state, k).location)
}

/// End time of the task at position `k`.
pub open spec fn completion_of(tasks: Seq<Task>, state: Seq<usize>, k: int) -> int {
    start_of(tasks, state, k) + placed(tasks, state, k).duration
}

/// The state fits the task list: same length, a permutation, within bounds.
pub open spec fn valid_input(tasks: Seq<Task>, state: Seq<usize>) -> bool {
    &&& tasks.len() <= MAX_TASKS
    &&& state.len() == tasks.len()
    &&& is_permutation(state)
}

/// `cal` is the calendar that placing `tasks` in the order `state` yields:
/// one entry per position, carrying that task's identifier, its start and its
/// own duration.
pub open spec fn is_materialization(tasks: Seq<Task>, state: Seq<usize>, cal: Seq<(String, TimeSlot)>) -> bool {
    &&& cal.len() == state.len()
    &&& forall|k: int| 0 <= k < cal.len() ==> {
        &&& (#[trigger] cal[k]).0 == placed(tasks, state, k).uid
        &&& cal[k].1.duration == placed(tasks, state, k).duration
        &&& cal[k].1.timestamp as int == start_of(tasks, state, k)
    }
}

/// The load before position `k` is at most `k` full-length tasks.
pub proof fn lemma_load_bounded(tasks: Seq<Task>, state: Seq<usize>, k: int, loc: u32)
    requires
        valid_input(tasks, state),
        0 <= k <= state.len(),
    ensures
        0 <= load_before(tasks, state, k, loc) <= k * 0xffff_ffff,
    decreases k,
{
    if k > 0 {
        lemma_load_bounded(tasks, state, k - 1, loc);
        assert(state[k - 1] < tasks.len());
    }
}

/// Loads only grow along the placement order.
pub proof fn lemma_load_monotone(tasks: Seq<Task>, state: Seq<usize>, a: int, b: int, loc: u32)
    requires
        0 <= a <= b,
    ensures
        load_before(tasks, state, a, loc) <= load_before(tasks, state, b, loc),
    decreases b - a,
{
    if a < b {
        lemma_load_monotone(tasks, state, a, b - 1, loc);
    }
}

/// Tasks at one location never overlap: a task placed later at the same
/// location starts no earlier than the end of every task placed before it.
pub proof fn lemma_no_overlap_at_location(tasks: Seq<Task>, state: Seq<usize>, a: int, b: int)
    requires
        0 <= a < b <= state.len(),
        placed(tasks, state, a).location == placed(tasks, state, b).location,
    ensures
        completion_of(tasks, state, a) <= start_of(tasks, state, b),
{
    let loc = placed(tasks, state, b).location;
    lemma_load_monotone(tasks, state, a + 1, b, loc);
}

/// Start and end times fit comfortably in 64 bits.
pub proof fn lemma_times_bounded(tasks: Seq<Task>, state: Seq<usize>, k: int)
    requires
        valid_input(tasks, state),
        0 <= k < state.len(),
    ensures
        0 <= start_of(tasks, state, k),
        completion_of(tasks, state, k) <= MAX_TASKS * 0xffff_ffff,
{
    lemma_load_bounded(tasks, state, k, placed(tasks, state, k).location);
    assert(state[k] < tasks.len());
    assert(k * 0xffff_ffff + 0xffff_ffff <= MAX_TASKS * 0xffff_ffff) by (nonlinear_arith)
        requires k + 1 <= MAX_TASKS;
}

/// Expands a candidate state into a calendar. Positions are visited in the
/// order of `state`; each task starts when every task placed earlier at its
/// location has finished, so no two tasks at one location overlap.
pub fn spread_tasks(tasks: &Vec<Task>, state: &Vec<usize>) -> (r: Vec<(String, TimeSlot)>)
    requires
        valid_input(tasks@, state@),
    ensures
        is_materialization(tasks@, state@, r@),
{
    let mut cal: Vec<(String, TimeSlot)> = Vec::new();
    let n = state.len();
    let mut k: usize = 0;
    while k < n
        invariant
            valid_input(tasks@, state@),
            n == state@.len(),
            k <= n,
            cal@.len() == k,
            forall|m: int| 0 <= m < k ==> {
                &&& (#[trigger] cal@[m]).0 == placed(tasks@, state@, m).uid
                &&& cal@[m].1.duration == placed(tasks@, state@, m).duration
                &&& cal@[m].1.timestamp as int == start_of(tasks@, state@, m)
            },
        decreases n - k,
    {
        let task = &tasks[state[k]];
        let loc = task.location;
        let mut start: u64 = 0;
        let mut m: usize = 0;
        while m < k
            invariant
                valid_input(tasks@, state@),
                n == state@.len(),
                m <= k < n,
                loc == placed(tasks@, state@, k as int).location,
                start as int == load_before(tasks@, state@, m as int, loc),
            decreases k - m,
        {
            let other = &tasks[state[m]];
            proof {
                lemma_load_bounded(tasks@, state@, m as int + 1, loc);
                assert((m + 1) * 0xffff_ffff <= MAX_TASKS * 0xffff_ffff) by (nonlinear_arith)
                    requires m + 1 <= MAX_TASKS;
            }
            if other.location == loc {
                start = start + other.duration as u64;
            }
            m = m + 1;
        }
        let slot = TimeSlot { timestamp: start, duration: task.duration };
        cal.push((task.uid.clone(), slot));
        k = k + 1;
    }
    cal
}

} // verus!
