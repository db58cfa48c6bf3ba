use vstd::prelude::*;
use vstd::set_lib::{set_int_range, lemma_int_range, lemma_len_subset, lemma_subset_equality};
use crate::task::Task;
use crate::perm::{is_permutation, identity_seq};
use crate::calendar::{valid_input, load_before, start_of, completion_of, placed};
use crate::energy::{EnergyWeights, weighted_completion, makespan, energy_of};

verus! {

/// No two tasks share a location.
pub open spec fn locations_distinct(tasks: Seq<Task>) -> bool {
    forall|a: int, b: int| 0 <= a < tasks.len() && 0 <= b < tasks.len() && a != b
        ==> #[trigger] tasks[a].location != #[trigger] tasks[b].location
}

/// Sum of `g` over the values of `s`.
pub open spec fn seq_sum(s: Seq<usize>, g: spec_fn(usize) -> int) -> int
    decreases s.len(),
{
    if s.len() == 0 {
        0
    } else {
        seq_sum(s.drop_last(), g) + g(s.last())
    }
}

/// Largest value of `g` over the values of `s`, and zero for an empty `s`.
pub open spec fn seq_max(s: Seq<usize>, g: spec_fn(usize) -> int) -> int
    decreases s.len(),
{
    if s.len() == 0 {
        0
    } else {
        let a = seq_max(s.drop_last(), g);
        let b = g(s.last());
        if b > a { b } else { a }
    }
}

/// Priority times duration of task `i`.
pub open spec fn work_weight(tasks: Seq<Task>) -> spec_fn(usize) -> int {
    |i: usize| tasks[i as int].priority * tasks[i as int].duration
}

/// Duration of task `i`.
pub open spec fn length_of(tasks: Seq<Task>) -> spec_fn(usize) -> int {
    |i: usize| tasks[i as int].duration as int
}

proof fn lemma_remove_splits(s: Seq<usize>, g: spec_fn(usize) -> int, p: int)
    requires
        0 <= p < s.len(),
    ensures
        seq_sum(s, g) == seq_sum(s.remove(p), g) + g(s[p]),
        seq_max(s, g) == ({
            let a = seq_max(s.remove(p), g);
            let b = g(s[p]);
            if b > a { b } else { a }
        }),
    decreases s.len(),
{
    if p == s.len() - 1 {
        assert(s.remove(p) =~= s.drop_last());
    } else {
        let d = s.drop_last();
        lemma_remove_splits(d, g, p);
        assert(s.remove(p).drop_last() =~= d.remove(p));
        assert(s.remove(p).last() == s.last());
    }
}

/// Every index below the length occurs in a permutation.
proof fn lemma_permutation_contains(s: Seq<usize>, v: int)
    requires
        is_permutation(s),
        0 <= v < s.len(),
    ensures
        exists|k: int| 0 <= k < s.len() && s[k] == v,
{
    let n = s.len() as int;
    let t = s.map_values(|x: usize| x as int);
    assert(t.no_duplicates()) by {
        assert forall|a: int, b: int| 0 <= a < t.len() && 0 <= b < t.len() && a != b implies t[a] != t[b] by {
            assert(s[a] != s[b]);
        }
    }
    t.unique_seq_to_set();
    lemma_int_range(0, n);
    assert(t.to_set().subset_of(set_int_range(0, n))) by {
        assert forall|x: int| t.to_set().contains(x) implies set_int_range(0, n).contains(x) by {
            let k = choose|k: int| 0 <= k < t.len() && t[k] == x;
            assert(s[k] < n);
        }
    }
    lemma_len_subset(t.to_set(), set_int_range(0, n));
    lemma_subset_equality(t.to_set(), set_int_range(0, n));
    assert(set_int_range(0, n).contains(v));
    assert(t.to_set().contains(v));
    let k = choose|k: int| 0 <= k < t.len() && t[k] == v;
    assert(s[k] == v);
}

/// Sums and maxima over a permutation equal those over the identity.
proof fn lemma_permutation_reorders(s: Seq<usize>, g: spec_fn(usize) -> int)
    requires
        is_permutation(s),
    ensures
        seq_sum(s, g) == seq_sum(identity_seq(s.len()), g),
        seq_max(s, g) == seq_max(identity_seq(s.len()), g),
    decreases s.len(),
{
    let n = s.len() as int;
    if n > 0 {
        lemma_permutation_contains(s, n - 1);
        let p = choose|k: int| 0 <= k < s.len() && s[k] == n - 1;
        let r = s.remove(p);
        assert(r.len() == n - 1);
        assert forall|k: int| 0 <= k < r.len() implies (#[trigger] r[k] as int) < r.len() by {
            let o = if k < p { k } else { k + 1 };
            assert(r[k] == s[o]);
            assert(o != p);
        }
        assert forall|a: int, b: int| 0 <= a < r.len() && 0 <= b < r.len() && a != b implies #[trigger] r[a] != #[trigger] r[b] by {
            let oa = if a < p { a } else { a + 1 };
            let ob = if b < p { b } else { b + 1 };
            assert(r[a] == s[oa]);
            assert(r[b] == s[ob]);
        }
        lemma_permutation_reorders(r, g);
        lemma_remove_splits(s, g, p);
        assert(identity_seq(s.len()).drop_last() =~= identity_seq(r.len()));
    }
}

proof fn lemma_no_load_before(tasks: Seq<Task>, state: Seq<usize>, k: int, j: int)
    requires
        valid_input(tasks, state),
        locations_distinct(tasks),
        0 <= j <= k < state.len(),
    ensures
        load_before(tasks, state, j, placed(tasks, state, k).location) == 0,
    decreases j,
{
    if j > 0 {
        lemma_no_load_before(tasks, state, k, j - 1);
        assert(state[j - 1] != state[k]);
        assert(state[j - 1] < tasks.len() && state[k] < tasks.len());
    }
}

proof fn lemma_terms_as_sums(tasks: Seq<Task>, state: Seq<usize>, k: int)
    requires
        valid_input(tasks, state),
        locations_distinct(tasks),
        0 <= k <= state.len(),
    ensures
        weighted_completion(tasks, state, k) == seq_sum(state.take(k), work_weight(tasks)),
        makespan(tasks, state, k) == seq_max(state.take(k), length_of(tasks)),
    decreases k,
{
    if k > 0 {
        lemma_terms_as_sums(tasks, state, k - 1);
        lemma_no_load_before(tasks, state, k - 1, k - 1);
        assert(start_of(tasks, state, k - 1) == 0);
        assert(completion_of(tasks, state, k - 1) == placed(tasks, state, k - 1).duration);
        assert(state.take(k).drop_last() =~= state.take(k - 1));
        assert(state.take(k).last() == state[k - 1]);
    }
}

/// When no two tasks share a location, every task starts at zero and the
/// energy does not depend on the order: each state scores what the identity
/// ordering scores.
pub proof fn lemma_energy_order_free(tasks: Seq<Task>, state: Seq<usize>, w: EnergyWeights)
    requires
        valid_input(tasks, state),
        locations_distinct(tasks),
    ensures
        energy_of(tasks, state, w) == energy_of(tasks, identity_seq(tasks.len()), w),
{
    let n = tasks.len() as int;
    let id = identity_seq(tasks.len());
    assert(is_permutation(id));
    lemma_terms_as_sums(tasks, state, n);
    lemma_terms_as_sums(tasks, id, n);
    assert(state.take(n) =~= state);
    assert(id.take(n) =~= id);
    lemma_permutation_reorders(state, work_weight(tasks));
    lemma_permutation_reorders(state, length_of(tasks));
}

} // verus!
