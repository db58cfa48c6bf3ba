use melon_scheduler::anneal::{
    anneal, find_duplicate_id, find_empty_task, mcmc_sweep, metropolis_accept, schedule,
    AnnealConfig, ScheduleError, Temperature,
};
use melon_scheduler::calendar::spread_tasks;
use melon_scheduler::energy::{compute_energy, EnergyWeights};
use melon_scheduler::perm::{identity_state, permute_state};
use melon_scheduler::task::{Task, TimeSlot, MAX_TASKS};
use rand::rngs::StdRng;
use rand::SeedableRng;

fn task(uid: &str, duration: u32, priority: u32, location: u32) -> Task {
    Task::new(uid.to_string(), duration, priority, location)
}

fn unit_weights() -> EnergyWeights {
    EnergyWeights { priority: 1, makespan: 1 }
}

fn frozen_config(seed: u64) -> AnnealConfig {
    let mut c = AnnealConfig::standard(seed);
    c.initial_temperature = Temperature { num: 0, den: 1 };
    c
}

fn is_permutation(s: &[usize]) -> bool {
    let mut seen = vec![false; s.len()];
    for &v in s {
        if v >= s.len() || seen[v] {
            return false;
        }
        seen[v] = true;
    }
    true
}

fn pair_tasks() -> Vec<Task> {
    vec![task("A", 60, 5, 1), task("B", 120, 1, 1)]
}

#[test]
fn identity_state_counts_up() {
    assert_eq!(identity_state(4), vec![0, 1, 2, 3]);
    assert!(identity_state(0).is_empty());
}

#[test]
fn permute_state_swaps_two_positions() {
    assert_eq!(permute_state(vec![0, 1, 2, 3], 1, 3), vec![0, 3, 2, 1]);
    assert_eq!(permute_state(vec![2, 0, 1], 2, 0), vec![1, 0, 2]);
}

#[test]
fn permute_state_leaves_short_states_alone() {
    assert_eq!(permute_state(vec![], 0, 0), Vec::<usize>::new());
    assert_eq!(permute_state(vec![0], 0, 0), vec![0]);
}

#[test]
fn permute_state_always_moves() {
    let s = vec![3, 0, 2, 1];
    for i in 0..4 {
        for j in 0..4 {
            if i != j {
                let r = permute_state(s.clone(), i, j);
                assert_ne!(r, s);
                assert!(is_permutation(&r));
            }
        }
    }
}

#[test]
fn repeated_perturbations_keep_a_permutation() {
    let mut s = identity_state(7);
    let moves = [(0, 6), (3, 4), (2, 5), (6, 1), (4, 0), (5, 2)];
    for (i, j) in moves {
        s = permute_state(s, i, j);
        assert!(is_permutation(&s));
    }
}

#[test]
fn spread_tasks_packs_each_location() {
    let tasks = vec![task("a", 30, 1, 1), task("b", 45, 1, 2), task("c", 10, 1, 1)];
    let cal = spread_tasks(&tasks, &vec![2, 0, 1]);
    assert_eq!(cal.len(), 3);
    assert_eq!(cal[0], ("c".to_string(), TimeSlot { timestamp: 0, duration: 10 }));
    assert_eq!(cal[1], ("a".to_string(), TimeSlot { timestamp: 10, duration: 30 }));
    assert_eq!(cal[2], ("b".to_string(), TimeSlot { timestamp: 0, duration: 45 }));
}

#[test]
fn spread_tasks_keeps_durations_and_avoids_overlap() {
    let tasks = vec![
        task("a", 30, 1, 1),
        task("b", 45, 2, 2),
        task("c", 10, 3, 1),
        task("d", 5, 4, 1),
        task("e", 70, 5, 2),
    ];
    let state = vec![3, 1, 4, 0, 2];
    let cal = spread_tasks(&tasks, &state);
    for (k, (uid, slot)) in cal.iter().enumerate() {
        assert_eq!(uid, &tasks[state[k]].uid);
        assert_eq!(slot.duration, tasks[state[k]].duration);
    }
    for a in 0..cal.len() {
        for b in 0..cal.len() {
            if a != b && tasks[state[a]].location == tasks[state[b]].location {
                let (sa, sb) = (cal[a].1, cal[b].1);
                let ea = sa.timestamp + sa.duration as u64;
                let eb = sb.timestamp + sb.duration as u64;
                assert!(ea <= sb.timestamp || eb <= sa.timestamp);
            }
        }
    }
}

#[test]
fn energy_exact_values() {
    let tasks = pair_tasks();
    // A ends at 60, B at 180: 1 + (5 * 60 + 1 * 180) + 180.
    assert_eq!(compute_energy(&tasks, &vec![0, 1], unit_weights()), 661);
    // B ends at 120, A at 180: 1 + (1 * 120 + 5 * 180) + 180.
    assert_eq!(compute_energy(&tasks, &vec![1, 0], unit_weights()), 1201);
    let w = EnergyWeights { priority: 2, makespan: 0 };
    assert_eq!(compute_energy(&tasks, &vec![0, 1], w), 961);
}

#[test]
fn energy_of_empty_list_is_one() {
    assert_eq!(compute_energy(&vec![], &vec![], unit_weights()), 1);
}

#[test]
fn energy_clamps_at_u64_max() {
    let tasks: Vec<Task> = (0..40)
        .map(|k| task(&format!("t{}", k), u32::MAX, u32::MAX, 0))
        .collect();
    let state = identity_state(40);
    let w = EnergyWeights { priority: u32::MAX, makespan: u32::MAX };
    assert_eq!(compute_energy(&tasks, &state, w), u64::MAX);
}

#[test]
fn cold_sweep_never_worsens() {
    let tasks = vec![task("a", 30, 1, 1), task("b", 45, 9, 1), task("c", 10, 3, 1)];
    let mut rng = StdRng::seed_from_u64(21);
    let state = identity_state(3);
    let energy = compute_energy(&tasks, &state, unit_weights());
    // Temperature 1 / (40 * energy): no worsening move can pass.
    let den = 40 * energy;
    let (next, e) = mcmc_sweep(&tasks, state, energy, 1, den, 30, unit_weights(), &mut rng);
    assert!(e <= energy);
    assert_eq!(e, compute_energy(&tasks, &next, unit_weights()));
}

#[test]
fn single_task_sweep_keeps_state() {
    let tasks = vec![task("a", 30, 1, 1)];
    let mut rng = StdRng::seed_from_u64(2);
    let energy = compute_energy(&tasks, &vec![0], unit_weights());
    assert_eq!(mcmc_sweep(&tasks, vec![0], energy, 1, 5, 10, unit_weights(), &mut rng), (vec![0], energy));
}

#[test]
fn frozen_sweep_never_worsens() {
    let tasks = vec![
        task("a", 30, 1, 1),
        task("b", 45, 9, 1),
        task("c", 10, 3, 1),
        task("d", 5, 4, 2),
        task("e", 70, 2, 2),
    ];
    let mut rng = StdRng::seed_from_u64(7);
    let mut state = identity_state(5);
    let mut energy = compute_energy(&tasks, &state, unit_weights());
    for _ in 0..20 {
        let (next, e) = mcmc_sweep(&tasks, state, energy, 0, 1, 5, unit_weights(), &mut rng);
        assert!(e <= energy);
        assert!(is_permutation(&next));
        assert_eq!(e, compute_energy(&tasks, &next, unit_weights()));
        state = next;
        energy = e;
    }
}

#[test]
fn hot_sweep_reports_the_energy_of_its_state() {
    let tasks = vec![task("a", 30, 1, 1), task("b", 45, 9, 1), task("c", 10, 3, 1)];
    let mut rng = StdRng::seed_from_u64(11);
    let state = identity_state(3);
    let energy = compute_energy(&tasks, &state, unit_weights());
    let (next, e) = mcmc_sweep(&tasks, state, energy, 1000, 1, 50, unit_weights(), &mut rng);
    assert!(is_permutation(&next));
    assert_eq!(e, compute_energy(&tasks, &next, unit_weights()));
}

#[test]
fn anneal_returns_a_permutation() {
    let tasks = vec![task("a", 30, 1, 1), task("b", 45, 9, 1), task("c", 10, 3, 2)];
    let mut rng = StdRng::seed_from_u64(3);
    let s = anneal(&tasks, &AnnealConfig::standard(3), &mut rng);
    assert!(is_permutation(&s));
    assert_eq!(s.len(), 3);
}

#[test]
fn frozen_anneal_is_no_worse_than_identity() {
    let tasks = vec![
        task("a", 30, 1, 1),
        task("b", 45, 9, 1),
        task("c", 10, 3, 1),
        task("d", 5, 4, 1),
    ];
    let mut rng = StdRng::seed_from_u64(5);
    let s = anneal(&tasks, &frozen_config(5), &mut rng);
    let start = compute_energy(&tasks, &identity_state(4), unit_weights());
    assert!(compute_energy(&tasks, &s, unit_weights()) <= start);
}

#[test]
fn schedule_two_tasks_at_one_location() {
    let cal = schedule(&pair_tasks(), &AnnealConfig::standard(42)).unwrap();
    assert_eq!(cal.len(), 2);
    let total: u64 = cal.iter().map(|(_, s)| s.duration as u64).sum();
    assert_eq!(total, 180);
    let (a, b) = (cal[0].1, cal[1].1);
    assert!(a.timestamp + a.duration as u64 <= b.timestamp || b.timestamp + b.duration as u64 <= a.timestamp);
    let mut uids: Vec<&str> = cal.iter().map(|(u, _)| u.as_str()).collect();
    uids.sort();
    assert_eq!(uids, vec!["A", "B"]);
}

#[test]
fn schedule_frozen_puts_high_priority_first() {
    let cal = schedule(&pair_tasks(), &frozen_config(1)).unwrap();
    assert_eq!(cal[0], ("A".to_string(), TimeSlot { timestamp: 0, duration: 60 }));
    assert_eq!(cal[1], ("B".to_string(), TimeSlot { timestamp: 60, duration: 120 }));
}

#[test]
fn schedule_is_deterministic_for_a_seed() {
    let tasks = vec![
        task("a", 30, 1, 1),
        task("b", 45, 9, 1),
        task("c", 10, 3, 1),
        task("d", 5, 4, 2),
        task("e", 70, 2, 2),
        task("f", 15, 7, 1),
    ];
    let first = schedule(&tasks, &AnnealConfig::standard(99)).unwrap();
    let second = schedule(&tasks, &AnnealConfig::standard(99)).unwrap();
    assert_eq!(first, second);
}

#[test]
fn schedule_distinct_locations_starts_everything_at_zero() {
    let tasks = vec![task("a", 60, 1, 1), task("b", 60, 9, 2), task("c", 60, 3, 3)];
    let cal = schedule(&tasks, &AnnealConfig::standard(8)).unwrap();
    assert_eq!(cal.len(), 3);
    for (_, slot) in &cal {
        assert_eq!(slot.timestamp, 0);
        assert_eq!(slot.duration, 60);
    }
}

#[test]
fn schedule_empty_input() {
    assert_eq!(schedule(&vec![], &AnnealConfig::standard(0)), Ok(vec![]));
}

#[test]
fn schedule_rejects_zero_duration() {
    let tasks = vec![task("a", 60, 1, 1), task("b", 0, 1, 1)];
    assert_eq!(schedule(&tasks, &AnnealConfig::standard(0)), Err(ScheduleError::NonPositiveDuration));
    assert!(find_empty_task(&tasks));
    assert!(!find_empty_task(&pair_tasks()));
}

#[test]
fn schedule_rejects_duplicate_ids() {
    let tasks = vec![task("a", 60, 1, 1), task("b", 10, 1, 1), task("a", 5, 2, 2)];
    assert_eq!(schedule(&tasks, &AnnealConfig::standard(0)), Err(ScheduleError::DuplicateId));
    assert!(find_duplicate_id(&tasks));
    assert!(!find_duplicate_id(&pair_tasks()));
}

#[test]
fn schedule_rejects_bad_temperature() {
    let mut c = AnnealConfig::standard(0);
    c.initial_temperature = Temperature { num: 1, den: 0 };
    assert_eq!(schedule(&pair_tasks(), &c), Err(ScheduleError::InvalidTemperature));
}

#[test]
fn schedule_rejects_too_many_tasks() {
    let tasks: Vec<Task> = (0..MAX_TASKS + 1)
        .map(|k| task(&format!("t{}", k), 1, 1, 0))
        .collect();
    assert_eq!(schedule(&tasks, &AnnealConfig::standard(0)), Err(ScheduleError::TooManyTasks));
}

#[test]
fn standard_config_values() {
    let c = AnnealConfig::standard(12);
    assert_eq!(c.initial_temperature, Temperature { num: 1, den: 5 });
    assert_eq!(c.stages, 10);
    assert_eq!(c.sweep_factor, 1);
    assert_eq!(c.weights, unit_weights());
    assert_eq!(c.seed, 12);
}

#[test]
fn metropolis_rule() {
    assert!(metropolis_accept(10, 9, false));
    assert!(metropolis_accept(10, 10, false));
    assert!(!metropolis_accept(10, 11, false));
    assert!(metropolis_accept(10, 11, true));
}
