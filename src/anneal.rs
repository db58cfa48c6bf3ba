use vstd::prelude::*;
use rand::rngs::StdRng;
use crate::task::{Task, TimeSlot, MAX_TASKS};
use crate::perm::{identity_seq, identity_state, permute_state, swapped};
use crate::calendar::{valid_input, is_materialization, spread_tasks};
use crate::energy::{EnergyWeights, energy_of, compute_energy, lemma_energy_positive};
use crate::random::{seeded_source, draw_below};
use crate::reorder::{locations_distinct, lemma_energy_order_free};

verus! {

/// A temperature, written as the fraction `num / den`.
#[derive(Clone, Copy, Debug, PartialEq, Eq, Structural)]
pub struct Temperature {
    pub num: u32,
    pub den: u32,
}

/// The knobs of one optimization run.
#[derive(Clone, Copy, Debug, PartialEq, Eq, Structural)]
pub struct AnnealConfig {
    /// Temperature of the first stage; stage `k` runs at this divided by `k`.
    pub initial_temperature: Temperature,
    /// Number of cooling stages.
    pub stages: u32,
    /// Each sweep makes this many times `N * N` proposals, `N` the task count.
    pub sweep_factor: u32,
    /// Weights of the energy's terms.
    pub weights: EnergyWeights,
    /// Seed of the random source.
    pub seed: u64,
}

impl AnnealConfig {
    /// Ten stages cooling from 1/5, `N * N` proposals per sweep, unit weights.
    pub fn standard(seed: u64) -> (r: AnnealConfig)
        ensures
            r.initial_temperature == (Temperature { num: 1, den: 5 }),
            r.stages == 10,
            r.sweep_factor == 1,
            r.weights == (EnergyWeights { priority: 1, makespan: 1 }),
            r.seed == seed,
    {
        AnnealConfig {
            initial_temperature: Temperature { num: 1, den: 5 },
            stages: 10,
            sweep_factor: 1,
            weights: EnergyWeights { priority: 1, makespan: 1 },
            seed,
        }
    }
}

/// Why a task list is refused before any optimization starts.
#[derive(Clone, Copy, Debug, PartialEq, Eq, Structural)]
pub enum ScheduleError {
    /// More than `MAX_TASKS` tasks.
    TooManyTasks,
    /// The initial temperature has a zero denominator.
    InvalidTemperature,
    /// Some task has a zero duration.
    NonPositiveDuration,
    /// Two tasks share an identifier.
    DuplicateId,
}

/// A worsening move whose `Δ / (E·T)` has at least this many whole units is
/// rejected outright: its acceptance probability is below `exp(-40)`.
pub const MAX_WHOLE_UNITS: u128 = 40;

/// Longest run of draws used to sample `exp(-x)` for `x` at most one.
pub const SERIES_LIMIT: u128 = 64;

/// Draws `true` with probability `exp(-c / d)`, for `c <= d`: successive
/// draws succeed with probabilities `x`, `x / 2`, `x / 3`, ... until one
/// fails, and the number of the failing draw is odd with probability
/// `exp(-x)`. With `c` zero the first draw fails and the result is `true`.
fn bernoulli_exp_unit(rng: &mut StdRng, c: u128, d: u128) -> (r: bool)
    requires
        0 < d <= 0x1_0000_0000_0000_0000_0000_0000,
        c <= d,
    ensures
        c == 0 ==> r,
{
    let mut j: u128 = 1;
    while j <= SERIES_LIMIT
        invariant
            1 <= j <= SERIES_LIMIT + 1,
            0 < d <= 0x1_0000_0000_0000_0000_0000_0000,
            c == 0 ==> j == 1,
        decreases SERIES_LIMIT + 1 - j,
    {
        proof {
            assert(0 < d * j <= 0x1_0000_0000_0000_0000_0000_0000 * 64) by (nonlinear_arith)
                requires 0 < d <= 0x1_0000_0000_0000_0000_0000_0000, 1 <= j <= 64;
        }
        let u = draw_below(rng, d * j);
        if u >= c {
            break;
        }
        j = j + 1;
    }
    j % 2 == 1
}

/// The Metropolis test for a move that raises the energy by `delta > 0` from
/// `energy`, at temperature `t_num / t_den`: accepted with probability
/// `exp(-delta / (energy * T))`. It never passes at temperature zero, nor
/// when `delta / (energy * T)` reaches `MAX_WHOLE_UNITS`.
fn boltzmann_accept(rng: &mut StdRng, delta: u64, energy: u64, t_num: u32, t_den: u64) -> (r: bool)
    requires
        energy > 0,
        t_den > 0,
    ensures
        r ==> boltzmann_admits(delta as int, energy as int, t_num, t_den),
{
    if t_num == 0 {
        return false;
    }
    proof {
        let x = delta as int;
        let y = t_den as int;
        assert(x * y <= 0xffff_ffff_ffff_ffff * 0xffff_ffff_ffff_ffff) by (nonlinear_arith)
            requires 0 <= x <= 0xffff_ffff_ffff_ffff, 0 <= y <= 0xffff_ffff_ffff_ffff;
        let e = energy as int;
        let t = t_num as int;
        assert(0 < e * t <= 0x1_0000_0000_0000_0000_0000_0000) by (nonlinear_arith)
            requires 0 < e <= 0xffff_ffff_ffff_ffff, 0 < t <= 0xffff_ffff;
    }
    let a: u128 = delta as u128 * t_den as u128;
    let b: u128 = energy as u128 * t_num as u128;
    let whole = a / b;
    if whole >= MAX_WHOLE_UNITS {
        return false;
    }
    proof {
        vstd::arithmetic::div_mod::lemma_fundamental_div_mod(a as int, b as int);
        let q = whole as int;
        let bi = b as int;
        assert(bi * q + bi <= MAX_WHOLE_UNITS * bi) by (nonlinear_arith)
            requires q < MAX_WHOLE_UNITS, bi > 0;
        assert((energy as int) * (t_num as int) == bi);
        assert(MAX_WHOLE_UNITS * (energy as int) * (t_num as int) == MAX_WHOLE_UNITS * bi) by (nonlinear_arith)
            requires (energy as int) * (t_num as int) == bi;
    }
    let mut k: u128 = 0;
    while k < whole
        invariant
            k <= whole,
        decreases whole - k,
    {
        if !bernoulli_exp_unit(rng, 1, 1) {
            return false;
        }
        k = k + 1;
    }
    bernoulli_exp_unit(rng, a % b, b)
}

/// A worsening move of size `delta` from `energy` may pass the Boltzmann
/// test at temperature `t_num / t_den`: the temperature is positive and
/// `delta / (energy * T)` is below `MAX_WHOLE_UNITS`.
pub open spec fn boltzmann_admits(delta: int, energy: int, t_num: u32, t_den: u64) -> bool {
    &&& t_num > 0
    &&& delta * t_den < MAX_WHOLE_UNITS * energy * t_num
}

/// The Metropolis rule: a move that does not raise the energy is accepted;
/// a worsening one only if its Boltzmann test, drawn by the caller, passed.
pub fn metropolis_accept(current: u64, proposed: u64, boltzmann_passed: bool) -> (r: bool)
    ensures
        r == (proposed <= current || boltzmann_passed),
{
    proposed <= current || boltzmann_passed
}

/// The outcome of one proposal `d = (i, j, passed)` from state `s` with
/// energy `e`: the transposition of `i` and `j` is kept when it does not
/// raise the energy or when its Boltzmann test passed; otherwise the state
/// and energy stay as they were.
pub open spec fn step_result(
    tasks: Seq<Task>,
    s: Seq<usize>,
    e: u64,
    d: (usize, usize, bool),
    w: EnergyWeights,
) -> (Seq<usize>, u64) {
    let p = swapped(s, d.0 as int, d.1 as int);
    let pe = energy_of(tasks, p, w);
    if pe <= e || d.2 { (p, pe) } else { (s, e) }
}

/// The proposal `d` can occur from state `s` with energy `e` at temperature
/// `t_num / t_den`: two distinct positions, and a passed Boltzmann test only
/// for a worsening move that the test admits.
pub open spec fn draw_fits(
    tasks: Seq<Task>,
    s: Seq<usize>,
    e: u64,
    d: (usize, usize, bool),
    t_num: u32,
    t_den: u64,
    w: EnergyWeights,
) -> bool {
    &&& d.0 < s.len()
    &&& d.1 < s.len()
    &&& d.0 != d.1
    &&& d.2 ==> {
        let pe = energy_of(tasks, swapped(s, d.0 as int, d.1 as int), w);
        pe > e && boltzmann_admits(pe - e, e as int, t_num, t_den)
    }
}

/// State and energy after the proposals of `draws`, taken in order.
pub open spec fn chain(
    tasks: Seq<Task>,
    s: Seq<usize>,
    e: u64,
    draws: Seq<(usize, usize, bool)>,
    w: EnergyWeights,
) -> (Seq<usize>, u64)
    decreases draws.len(),
{
    if draws.len() == 0 {
        (s, e)
    } else {
        let prev = chain(tasks, s, e, draws.drop_last(), w);
        step_result(tasks, prev.0, prev.1, draws.last(), w)
    }
}

/// Each proposal of `draws` fits the state the earlier ones led to.
pub open spec fn chain_fits(
    tasks: Seq<Task>,
    s: Seq<usize>,
    e: u64,
    draws: Seq<(usize, usize, bool)>,
    t_num: u32,
    t_den: u64,
    w: EnergyWeights,
) -> bool
    decreases draws.len(),
{
    if draws.len() == 0 {
        true
    } else {
        let prev = chain(tasks, s, e, draws.drop_last(), w);
        chain_fits(tasks, s, e, draws.drop_last(), t_num, t_den, w)
            && draw_fits(tasks, prev.0, prev.1, draws.last(), t_num, t_den, w)
    }
}

/// `r` is what a sweep of `iterations` proposals from `s` (energy `e`) at
/// temperature `t_num / t_den` can end in: the Metropolis chain of some
/// fitting proposals. A state shorter than two makes no proposal.
pub open spec fn sweep_outcome(
    tasks: Seq<Task>,
    s: Seq<usize>,
    e: u64,
    iterations: nat,
    t_num: u32,
    t_den: u64,
    w: EnergyWeights,
    r: (Seq<usize>, u64),
) -> bool {
    exists|draws: Seq<(usize, usize, bool)>| {
        &&& draws.len() == (if s.len() >= 2 { iterations } else { 0 })
        &&& chain_fits(tasks, s, e, draws, t_num, t_den, w)
        &&& #[trigger] chain(tasks, s, e, draws, w) == r
    }
}

/// The temperature `t_num / t_den` is cold for energy `e`: zero, or at
/// most `1 / (MAX_WHOLE_UNITS * e)`.
pub open spec fn is_cold(e: u64, t_num: u32, t_den: u64) -> bool {
    t_num == 0 || MAX_WHOLE_UNITS * e * t_num <= t_den
}

/// At a cold temperature no Boltzmann test passes: along a fitting chain
/// every non-worsening proposal is kept, every worsening one is rejected,
/// and the energy never rises.
pub proof fn lemma_cold_chain_never_worsens(
    tasks: Seq<Task>,
    s: Seq<usize>,
    e: u64,
    draws: Seq<(usize, usize, bool)>,
    t_num: u32,
    t_den: u64,
    w: EnergyWeights,
)
    requires
        chain_fits(tasks, s, e, draws, t_num, t_den, w),
        is_cold(e, t_num, t_den),
    ensures
        forall|k: int| 0 <= k < draws.len() ==> !(#[trigger] draws[k]).2,
        chain(tasks, s, e, draws, w).1 <= e,
    decreases draws.len(),
{
    if draws.len() > 0 {
        let rest = draws.drop_last();
        lemma_cold_chain_never_worsens(tasks, s, e, rest, t_num, t_den, w);
        let prev = chain(tasks, s, e, rest, w);
        let d = draws.last();
        if d.2 {
            let pe = energy_of(tasks, swapped(prev.0, d.0 as int, d.1 as int), w);
            let delta = pe - prev.1;
            let cur = prev.1 as int;
            let ei = e as int;
            let tn = t_num as int;
            let td = t_den as int;
            assert(false) by (nonlinear_arith)
                requires
                    delta >= 1,
                    tn > 0,
                    td >= 0,
                    0 <= cur <= ei,
                    delta * td < MAX_WHOLE_UNITS * cur * tn,
                    MAX_WHOLE_UNITS * ei * tn <= td;
        }
        assert forall|k: int| 0 <= k < draws.len() implies !(#[trigger] draws[k]).2 by {
            if k < draws.len() - 1 {
                assert(draws[k] == rest[k]);
            }
        }
    }
}

proof fn lemma_chain_push(
    tasks: Seq<Task>,
    s: Seq<usize>,
    e: u64,
    draws: Seq<(usize, usize, bool)>,
    d: (usize, usize, bool),
    t_num: u32,
    t_den: u64,
    w: EnergyWeights,
)
    ensures
        chain(tasks, s, e, draws.push(d), w) == ({
            let prev = chain(tasks, s, e, draws, w);
            step_result(tasks, prev.0, prev.1, d, w)
        }),
        chain_fits(tasks, s, e, draws.push(d), t_num, t_den, w) == ({
            let prev = chain(tasks, s, e, draws, w);
            chain_fits(tasks, s, e, draws, t_num, t_den, w)
                && draw_fits(tasks, prev.0, prev.1, d, t_num, t_den, w)
        }),
{
    assert(draws.push(d).drop_last() =~= draws);
}

/// One sweep at the fixed temperature `temperature_num / temperature_den`:
/// for a state of two or more tasks, `iterations` times, proposes the
/// transposition of two distinct random positions and keeps it by the
/// Metropolis rule. Returns the state kept at the end and its energy: the
/// chain of the proposals made.
pub fn mcmc_sweep(
    tasks: &Vec<Task>,
    initial_state: Vec<usize>,
    energy: u64,
    temperature_num: u32,
    temperature_den: u64,
    iterations: u64,
    weights: EnergyWeights,
    rng: &mut StdRng,
) -> (r: (Vec<usize>, u64))
    requires
        valid_input(tasks@, initial_state@),
        energy == energy_of(tasks@, initial_state@, weights),
        temperature_den > 0,
    ensures
        valid_input(tasks@, r.0@),
        r.1 == energy_of(tasks@, r.0@, weights),
        sweep_outcome(tasks@, initial_state@, energy, iterations as nat, temperature_num, temperature_den, weights, (r.0@, r.1)),
        is_cold(energy, temperature_num, temperature_den) ==> r.1 <= energy,
{
    let n = tasks.len();
    let mut state = initial_state;
    let mut current = energy;
    let ghost mut draws: Seq<(usize, usize, bool)> = Seq::empty();
    if n < 2 {
        assert(chain(tasks@, initial_state@, energy, draws, weights) == (state@, current));
        return (state, current);
    }
    let mut it: u64 = 0;
    while it < iterations
        invariant
            n == tasks@.len(),
            n >= 2,
            valid_input(tasks@, state@),
            current == energy_of(tasks@, state@, weights),
            temperature_den > 0,
            draws.len() == it,
            it <= iterations,
            chain_fits(tasks@, initial_state@, energy, draws, temperature_num, temperature_den, weights),
            chain(tasks@, initial_state@, energy, draws, weights) == (state@, current),
        decreases iterations - it,
    {
        proof {
            lemma_energy_positive(tasks@, state@, weights);
        }
        let i = draw_below(rng, n as u128) as usize;
        let k = draw_below(rng, (n - 1) as u128) as usize;
        let j = if k >= i { k + 1 } else { k };
        let proposal = permute_state(state.clone(), i, j);
        let proposed = compute_energy(tasks, &proposal, weights);
        let passed = proposed > current
            && boltzmann_accept(rng, proposed - current, current, temperature_num, temperature_den);
        let ghost d = (i, j, passed);
        proof {
            lemma_chain_push(tasks@, initial_state@, energy, draws, d, temperature_num, temperature_den, weights);
            draws = draws.push(d);
        }
        if metropolis_accept(current, proposed, passed) {
            state = proposal;
            current = proposed;
        }
        it = it + 1;
    }
    proof {
        if is_cold(energy, temperature_num, temperature_den) {
            lemma_cold_chain_never_worsens(tasks@, initial_state@, energy, draws, temperature_num, temperature_den, weights);
        }
    }
    (state, current)
}

/// Proposals per sweep: `sweep_factor` times the square of the task count.
pub open spec fn sweep_length(config: AnnealConfig, n: nat) -> nat {
    (config.sweep_factor as int * n * n) as nat
}

/// Denominator of the temperature of stage `k` (from one): the initial
/// temperature divided by `k`.
pub open spec fn stage_den(config: AnnealConfig, k: nat) -> u64 {
    (config.initial_temperature.den as int * k) as u64
}

/// `states` traces a run on `tasks`: it starts at the identity ordering and
/// its energy, and entry `k + 1` is what a sweep at stage `k + 1`'s
/// temperature can end in from entry `k`.
pub open spec fn stages_trace(tasks: Seq<Task>, config: AnnealConfig, states: Seq<(Seq<usize>, u64)>) -> bool {
    let n = tasks.len();
    let w = config.weights;
    &&& states.len() == config.stages + 1
    &&& states[0] == (identity_seq(n), energy_of(tasks, identity_seq(n), w))
    &&& forall|k: int| 0 <= k < config.stages ==> sweep_outcome(
        tasks,
        (#[trigger] states[k]).0,
        states[k].1,
        sweep_length(config, n),
        config.initial_temperature.num,
        stage_den(config, (k + 1) as nat),
        w,
        states[k + 1],
    )
}

/// Runs the cooling stages from the identity ordering: stage `k` (from one
/// to `stages`) is a sweep at the initial temperature divided by `k`, which
/// carries on from the state the previous stage kept, with `sweep_factor`
/// times `N * N` proposals. Returns the final state. At temperature zero its
/// energy is no higher than the identity's.
pub fn anneal(tasks: &Vec<Task>, config: &AnnealConfig, rng: &mut StdRng) -> (r: Vec<usize>)
    requires
        tasks.len() <= MAX_TASKS,
        config.initial_temperature.den > 0,
    ensures
        valid_input(tasks@, r@),
        exists|states: Seq<(Seq<usize>, u64)>| #[trigger] stages_trace(tasks@, *config, states) && states.last().0 == r@,
        config.initial_temperature.num == 0 ==> energy_of(tasks@, r@, config.weights)
            <= energy_of(tasks@, identity_seq(tasks.len() as nat), config.weights),
{
    let n = tasks.len();
    let weights = config.weights;
    let mut state = identity_state(n);
    let mut energy = compute_energy(tasks, &state, weights);
    let ghost start = energy;
    proof {
        assert(n * n <= MAX_TASKS * MAX_TASKS) by (nonlinear_arith)
            requires n <= MAX_TASKS;
        assert(config.sweep_factor * (n * n) <= 0xffff_ffff * (MAX_TASKS * MAX_TASKS)) by (nonlinear_arith)
            requires n * n <= MAX_TASKS * MAX_TASKS;
    }
    let iterations: u64 = config.sweep_factor as u64 * (n as u64 * n as u64);
    proof {
        let f = config.sweep_factor as int;
        let m = n as int;
        assert(f * (m * m) == f * m * m) by (nonlinear_arith);
    }
    let num = config.initial_temperature.num;
    let den = config.initial_temperature.den as u64;
    let ghost mut states: Seq<(Seq<usize>, u64)> = seq![(state@, energy)];
    let mut k: u64 = 1;
    while k <= config.stages as u64
        invariant
            1 <= k <= config.stages as u64 + 1,
            den == config.initial_temperature.den,
            den > 0,
            num == config.initial_temperature.num,
            weights == config.weights,
            valid_input(tasks@, state@),
            energy == energy_of(tasks@, state@, weights),
            start == energy_of(tasks@, identity_seq(n as nat), weights),
            num == 0 ==> energy <= start,
            iterations as nat == sweep_length(*config, n as nat),
            states.len() == k,
            states[0] == (identity_seq(n as nat), start),
            states.last() == (state@, energy),
            forall|j: int| 0 <= j < k - 1 ==> sweep_outcome(
                tasks@,
                (#[trigger] states[j]).0,
                states[j].1,
                sweep_length(*config, n as nat),
                num,
                stage_den(*config, (j + 1) as nat),
                weights,
                states[j + 1],
            ),
        decreases config.stages as u64 + 1 - k,
    {
        proof {
            assert(den * k <= 0xffff_ffff * 0x1_0000_0000) by (nonlinear_arith)
                requires 0 < den <= 0xffff_ffff, 1 <= k <= 0x1_0000_0000;
            assert(den * k > 0) by (nonlinear_arith)
                requires 0 < den, 1 <= k;
        }
        let (next, e) = mcmc_sweep(tasks, state, energy, num, den * k, iterations, weights, rng);
        proof {
            let old_states = states;
            states = states.push((next@, e));
            assert forall|j: int| 0 <= j < k implies sweep_outcome(
                tasks@,
                (#[trigger] states[j]).0,
                states[j].1,
                sweep_length(*config, n as nat),
                num,
                stage_den(*config, (j + 1) as nat),
                weights,
                states[j + 1],
            ) by {
                if j < k - 1 {
                    assert(states[j] == old_states[j]);
                    assert(states[j + 1] == old_states[j + 1]);
                } else {
                    assert(states[j] == old_states.last());
                }
            }
        }
        state = next;
        energy = e;
        k = k + 1;
    }
    assert(stages_trace(tasks@, *config, states));
    state
}

/// Some task has a zero duration.
pub open spec fn has_empty_task(tasks: Seq<Task>) -> bool {
    exists|k: int| 0 <= k < tasks.len() && (#[trigger] tasks[k]).duration == 0
}

/// Two tasks share an identifier.
pub open spec fn has_duplicate_ids(tasks: Seq<Task>) -> bool {
    exists|a: int, b: int| 0 <= a < b < tasks.len() && (#[trigger] tasks[a]).uid@ == (#[trigger] tasks[b]).uid@
}

/// Whether some task has a zero duration.
pub fn find_empty_task(tasks: &Vec<Task>) -> (r: bool)
    ensures
        r == has_empty_task(tasks@),
{
    let mut k: usize = 0;
    while k < tasks.len()
        invariant
            k <= tasks@.len(),
            forall|m: int| 0 <= m < k ==> (#[trigger] tasks@[m]).duration != 0,
        decreases tasks.len() - k,
    {
        if tasks[k].duration == 0 {
            return true;
        }
        k = k + 1;
    }
    false
}

/// Whether two tasks share an identifier.
pub fn find_duplicate_id(tasks: &Vec<Task>) -> (r: bool)
    ensures
        r == has_duplicate_ids(tasks@),
{
    let n = tasks.len();
    let mut b: usize = 0;
    while b < n
        invariant
            n == tasks@.len(),
            b <= n,
            forall|x: int, y: int| 0 <= x < y < b ==> (#[trigger] tasks@[x]).uid@ != (#[trigger] tasks@[y]).uid@,
        decreases n - b,
    {
        let mut a: usize = 0;
        while a < b
            invariant
                n == tasks@.len(),
                a <= b < n,
                forall|x: int, y: int| 0 <= x < y < b ==> (#[trigger] tasks@[x]).uid@ != (#[trigger] tasks@[y]).uid@,
                forall|x: int| 0 <= x < a ==> (#[trigger] tasks@[x]).uid@ != tasks@[b as int].uid@,
            decreases b - a,
        {
            if tasks[a].uid == tasks[b].uid {
                return true;
            }
            a = a + 1;
        }
        b = b + 1;
    }
    false
}

/// The error `schedule` reports for a task list and configuration, if any,
/// checked in this order: size, temperature, durations, identifiers.
pub open spec fn input_error(tasks: Seq<Task>, config: AnnealConfig) -> Option<ScheduleError> {
    if tasks.len() > MAX_TASKS {
        Some(ScheduleError::TooManyTasks)
    } else if config.initial_temperature.den == 0 {
        Some(ScheduleError::InvalidTemperature)
    } else if has_empty_task(tasks) {
        Some(ScheduleError::NonPositiveDuration)
    } else if has_duplicate_ids(tasks) {
        Some(ScheduleError::DuplicateId)
    } else {
        None
    }
}

/// `cal` materializes the final state `s` of a run on `tasks`: a valid
/// permutation reached through the cooling stages of `config`, which at
/// temperature zero scores no worse than the identity.
pub open spec fn outcome_of(tasks: Seq<Task>, config: AnnealConfig, s: Seq<usize>, cal: Seq<(String, TimeSlot)>) -> bool {
    &&& valid_input(tasks, s)
    &&& is_materialization(tasks, s, cal)
    &&& exists|states: Seq<(Seq<usize>, u64)>| #[trigger] stages_trace(tasks, config, states) && states.last().0 == s
    &&& config.initial_temperature.num == 0 ==> energy_of(tasks, s, config.weights)
        <= energy_of(tasks, identity_seq(tasks.len()), config.weights)
}

/// When no two tasks share a location, the state a run ends in scores no
/// worse than the identity ordering it started from.
pub proof fn lemma_distinct_locations_no_worse(
    tasks: Seq<Task>,
    config: AnnealConfig,
    s: Seq<usize>,
    cal: Seq<(String, TimeSlot)>,
)
    requires
        outcome_of(tasks, config, s, cal),
        locations_distinct(tasks),
    ensures
        energy_of(tasks, s, config.weights) <= energy_of(tasks, identity_seq(tasks.len()), config.weights),
{
    lemma_energy_order_free(tasks, s, config.weights);
}

/// Schedules `tasks`: checks the input, anneals from the identity ordering
/// with a random source seeded by `config.seed`, and materializes the final
/// state. The calendar holds one slot per task, in placement order, with the
/// task's own duration and no overlap at any location. An empty task list
/// gives an empty calendar.
pub fn schedule(tasks: &Vec<Task>, config: &AnnealConfig) -> (r: Result<Vec<(String, TimeSlot)>, ScheduleError>)
    ensures
        r is Err <==> input_error(tasks@, *config) is Some,
        r is Err ==> input_error(tasks@, *config) == Some(r->Err_0),
        r is Ok ==> exists|s: Seq<usize>| #[trigger] outcome_of(tasks@, *config, s, r->Ok_0@),
        tasks.len() == 0 && config.initial_temperature.den > 0 ==> r is Ok && r->Ok_0@.len() == 0,
{
    if tasks.len() > MAX_TASKS {
        return Err(ScheduleError::TooManyTasks);
    }
    if config.initial_temperature.den == 0 {
        return Err(ScheduleError::InvalidTemperature);
    }
    if find_empty_task(tasks) {
        return Err(ScheduleError::NonPositiveDuration);
    }
    if find_duplicate_id(tasks) {
        return Err(ScheduleError::DuplicateId);
    }
    let mut rng = seeded_source(config.seed);
    let state = anneal(tasks, config, &mut rng);
    let cal = spread_tasks(tasks, &state);
    let ghost produced = cal@;
    let r: Result<Vec<(String, TimeSlot)>, ScheduleError> = Ok(cal);
    assert(r->Ok_0@ == produced);
    assert(outcome_of(tasks@, *config, state@, r->Ok_0@));
    r
}

} // verus!
