use vstd::prelude::*;
use crate::task::{Task, TimeSlot, MAX_TASKS};
use crate::calendar::{placed, completion_of, valid_input, spread_tasks, lemma_times_bounded};

verus! {

/// Weights of the energy's penalty terms. There is no location-conflict
/// term: the materializer never lets two tasks at one location overlap, so
/// such a term would always be zero.
#[derive(Clone, Copy, Debug, PartialEq, Eq, Structural)]
pub struct EnergyWeights {
    /// Weight of the priority-weighted completion times.
    pub priority: u32,
    /// Weight of the makespan (the end of the last task).
    pub makespan: u32,
}

/// Sum over the first `k` positions of priority times completion time.
pub open spec fn weighted_completion(tasks: Seq<Task>, state: Seq<usize>, k: int) -> int
    decreases k,
{
    if k <= 0 {
        0
    } else {
        weighted_completion(tasks, state, k - 1)
            + placed(tasks, state, k - 1).priority * completion_of(tasks, state, k - 1)
    }
}

/// Latest completion time among the first `k` positions.
pub open spec fn makespan(tasks: Seq<Task>, state: Seq<usize>, k: int) -> int
    decreases k,
{
    if k <= 0 {
        0
    } else {
        let c = completion_of(tasks, state, k - 1);
        let before = makespan(tasks, state, k - 1);
        if c > before { c } else { before }
    }
}

/// The unclamped score: one, plus the weighted penalty terms. It is always
/// at least one, so the acceptance rule never divides by zero.
pub open spec fn raw_energy(tasks: Seq<Task>, state: Seq<usize>, w: EnergyWeights) -> int {
    1 + w.priority * weighted_completion(tasks, state, state.len() as int)
        + w.makespan * makespan(tasks, state, state.len() as int)
}

/// The score of a candidate state; lower is better. Scores beyond 64 bits
/// are all equal to `u64::MAX`.
pub open spec fn energy_of(tasks: Seq<Task>, state: Seq<usize>, w: EnergyWeights) -> u64 {
    let e = raw_energy(tasks, state, w);
    if e > u64::MAX { u64::MAX } else { e as u64 }
}

/// Largest completion time a valid input can produce.
pub open spec fn completion_cap() -> int {
    MAX_TASKS * 0xffff_ffff
}

/// Largest single term of the weighted completion sum.
pub open spec fn term_cap() -> int {
    0xffff_ffff * completion_cap()
}

/// Energy is strictly positive for every input.
pub proof fn lemma_energy_positive(tasks: Seq<Task>, state: Seq<usize>, w: EnergyWeights)
    requires
        valid_input(tasks, state),
    ensures
        energy_of(tasks, state, w) >= 1,
{
    lemma_terms_nonnegative(tasks, state, state.len() as int);
    let wc = weighted_completion(tasks, state, state.len() as int);
    let mk = makespan(tasks, state, state.len() as int);
    assert(w.priority * wc >= 0) by (nonlinear_arith)
        requires wc >= 0;
    assert(w.makespan * mk >= 0) by (nonlinear_arith)
        requires mk >= 0;
}

proof fn lemma_terms_nonnegative(tasks: Seq<Task>, state: Seq<usize>, k: int)
    requires
        valid_input(tasks, state),
        0 <= k <= state.len(),
    ensures
        weighted_completion(tasks, state, k) >= 0,
        makespan(tasks, state, k) >= 0,
    decreases k,
{
    if k > 0 {
        lemma_terms_nonnegative(tasks, state, k - 1);
        lemma_times_bounded(tasks, state, k - 1);
        let p = placed(tasks, state, k - 1).priority as int;
        let c = completion_of(tasks, state, k - 1);
        assert(p * c >= 0) by (nonlinear_arith)
            requires p >= 0, c >= 0;
    }
}

/// Scores a candidate state: materializes it and sums the weighted penalty
/// terms, clamped to 64 bits.
pub fn compute_energy(tasks: &Vec<Task>, state: &Vec<usize>, weights: EnergyWeights) -> (r: u64)
    requires
        valid_input(tasks@, state@),
    ensures
        r == energy_of(tasks@, state@, weights),
        r >= 1,
{
    let cal = spread_tasks(tasks, state);
    let n = state.len();
    let mut acc: u128 = 0;
    let mut latest: u64 = 0;
    let mut k: usize = 0;
    while k < n
        invariant
            valid_input(tasks@, state@),
            crate::calendar::is_materialization(tasks@, state@, cal@),
            n == state@.len(),
            k <= n,
            acc as int == weighted_completion(tasks@, state@, k as int),
            acc as int <= k * term_cap(),
            latest as int == makespan(tasks@, state@, k as int),
            latest as int <= completion_cap(),
        decreases n - k,
    {
        proof {
            lemma_times_bounded(tasks@, state@, k as int);
        }
        let slot: TimeSlot = cal[k].1;
        let end: u64 = slot.timestamp + slot.duration as u64;
        let p: u32 = tasks[state[k]].priority;
        proof {
            let pi = p as int;
            let ei = end as int;
            assert(pi * ei <= term_cap()) by (nonlinear_arith)
                requires 0 <= pi <= 0xffff_ffff, 0 <= ei <= completion_cap(), completion_cap() == MAX_TASKS * 0xffff_ffff, term_cap() == 0xffff_ffff * completion_cap();
            assert((k + 1) * term_cap() == k * term_cap() + term_cap()) by (nonlinear_arith);
            assert((k + 1) * term_cap() <= MAX_TASKS * term_cap()) by (nonlinear_arith)
                requires k + 1 <= MAX_TASKS, term_cap() >= 0;
        }
        acc = acc + p as u128 * end as u128;
        if end > latest {
            latest = end;
        }
        k = k + 1;
    }
    proof {
        lemma_energy_positive(tasks@, state@, weights);
        let wp = weights.priority as int;
        let wm = weights.makespan as int;
        let a = acc as int;
        let l = latest as int;
        assert(n * term_cap() <= MAX_TASKS * term_cap()) by (nonlinear_arith)
            requires n <= MAX_TASKS, term_cap() >= 0;
        assert(wp * a <= 0xffff_ffff * (MAX_TASKS * term_cap())) by (nonlinear_arith)
            requires 0 <= wp <= 0xffff_ffff, 0 <= a <= MAX_TASKS * term_cap();
        assert(wm * l <= 0xffff_ffff * completion_cap()) by (nonlinear_arith)
            requires 0 <= wm <= 0xffff_ffff, 0 <= l <= completion_cap();
    }
    let raw: u128 = 1 + weights.priority as u128 * acc + weights.makespan as u128 * latest as u128;
    if raw > u64::MAX as u128 {
        u64::MAX
    } else {
        raw as u64
    }
}

} // verus!
