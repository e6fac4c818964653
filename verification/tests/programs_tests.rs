use rand::{Rng, SeedableRng};
use ysos::fish::{fish_step, next_pause, worker_rng, FishAction, FISH_ROUNDS};
use ysos::dinner::{chopsticks, chopsticks_asymmetric, chopsticks_ordered, dinner_strategy, Waiter};
use ysos::mq::SharedQueue;

#[test]
fn chopstick_orders() {
    assert_eq!(chopsticks(4), (4, 0));
    assert_eq!(chopsticks_asymmetric(0), (1, 0));
    assert_eq!(chopsticks_asymmetric(1), (1, 2));
    assert_eq!(chopsticks_asymmetric(4), (0, 4));
    assert_eq!(chopsticks_ordered(4), (0, 4));
    assert_eq!(chopsticks_ordered(2), (2, 3));
}

#[test]
fn the_waiter_hands_out_pairs() {
    let mut w = Waiter::new();
    assert!(w.ask_server_for_cho(0));
    assert_eq!(w.used, [true, true, false, false, false]);
    assert!(!w.ask_server_for_cho(1));
    assert!(!w.ask_server_for_cho(4));
    assert!(w.ask_server_for_cho(2));
    w.release_cho(0);
    assert_eq!(w.used, [false, false, true, true, false]);
    assert!(w.ask_server_for_cho(4));
    assert!(!w.ask_server_for_cho(3));
}

#[test]
fn the_shared_buffer_is_last_in_first_out() {
    let mut q = SharedQueue::new();
    q.push(1);
    q.push(2);
    q.push(3);
    assert_eq!(q.head(), 3);
    assert_eq!(q.pop(), 3);
    q.push(9);
    assert_eq!(q.pop(), 9);
    assert_eq!(q.pop(), 2);
    assert_eq!(q.pop(), 1);
    assert_eq!(q.head(), 0);
}

#[test]
fn fish_pauses_are_below_ten_and_follow_the_seed() {
    let mut rng = worker_rng(1_700_000_000);
    let mut same = rand_chacha::ChaCha20Rng::seed_from_u64(1_700_000_000u64);
    for _ in 0..50 {
        let d = next_pause(&mut rng);
        assert!((0..10).contains(&d));
        assert_eq!(d as u64, same.gen::<u64>() % 10);
    }
}

/// Runs the three fish workers under a scheduler that tries them in the
/// order given by `pick`, and returns what they print.
fn run_fish(pick: impl Fn(usize) -> usize) -> String {
    let mut sems = [0u32, 1, 0, 0, 0, 0, 0, 0];
    let mut state = [(0u8, 0u8); 3];
    let mut done = [false; 3];
    let mut first = 0u8;
    let mut out = String::new();
    let symbols = ['>', '<', '_'];
    let mut tick = 0usize;
    while !done.iter().all(|d| *d) {
        let mut moved = false;
        for k in 0..3 {
            let w = (pick(tick) + k) % 3;
            if done[w] {
                continue;
            }
            let (round, pc) = state[w];
            let (nround, npc, nfirst, act) = fish_step(w as u8, round, pc, first);
            match act {
                FishAction::Wait(i) => {
                    if sems[i as usize] == 0 {
                        continue;
                    }
                    sems[i as usize] -= 1;
                }
                FishAction::Signal(i) => sems[i as usize] += 1,
                FishAction::Print => out.push(symbols[w]),
                FishAction::Pause => {}
                FishAction::Exit => {
                    done[w] = true;
                    moved = true;
                    break;
                }
            }
            first = nfirst;
            state[w] = (nround, npc);
            moved = true;
            break;
        }
        assert!(moved, "the workers are stuck");
        tick += 1;
    }
    out
}

#[test]
fn fish_rounds_print_a_fish_each() {
    for seed in 0..6usize {
        let out = run_fish(|t| (t * (seed + 1) + seed / 2) % 3);
        assert_eq!(out.len(), 4 * FISH_ROUNDS as usize);
        for round in out.as_bytes().chunks(4) {
            assert!(round == b"><>_" || round == b"<><_", "{}", out);
        }
    }
}

#[test]
fn fish_step_exits_after_the_last_round() {
    assert_eq!(fish_step(0, FISH_ROUNDS, 3, 1), (FISH_ROUNDS, 3, 1, FishAction::Exit));
    assert_eq!(fish_step(0, 0, 2, 0), (0, 3, 1, FishAction::Print));
    assert_eq!(fish_step(1, 0, 2, 0), (0, 3, 2, FishAction::Print));
    assert_eq!(fish_step(1, 0, 2, 1), (0, 3, 1, FishAction::Print));
    assert_eq!(fish_step(2, 4, 1, 2), (4, 2, 0, FishAction::Print));
    assert_eq!(fish_step(2, 4, 3, 0), (5, 0, 0, FishAction::Signal(0)));
    assert_eq!(fish_step(0, 0, 6, 2), (0, 7, 2, FishAction::Wait(4)));
    assert_eq!(fish_step(0, 0, 6, 1), (0, 8, 1, FishAction::Print));
    assert_eq!(fish_step(1, 0, 6, 2), (0, 8, 2, FishAction::Print));
    assert_eq!(fish_step(0, 9, 11, 1), (10, 0, 1, FishAction::Wait(6)));
}

#[test]
fn waiter_never_feeds_neighbours_together() {
    let mut w = Waiter::new();
    let mut eating = [false; 5];
    let script: [(usize, bool); 12] = [
        (0, true), (1, true), (4, true), (2, true), (0, false), (4, true),
        (3, true), (2, false), (3, true), (1, true), (4, false), (3, true),
    ];
    for (i, ask) in script {
        if ask && !eating[i] {
            eating[i] = w.ask_server_for_cho(i);
        } else if !ask && eating[i] {
            w.release_cho(i);
            eating[i] = false;
        }
        for j in 0..5 {
            assert!(!(eating[j] && eating[(j + 1) % 5]));
            assert_eq!(w.used[j], eating[j] || eating[(j + 4) % 5]);
        }
    }
    assert_eq!(eating, [false, true, false, true, false]);
}

#[test]
fn dinner_strategy_from_the_typed_line() {
    assert_eq!(dinner_strategy(" 2\n"), Some(2));
    assert_eq!(dinner_strategy("4"), Some(4));
    assert_eq!(dinner_strategy("1\r\n"), Some(1));
    assert_eq!(dinner_strategy("5"), None);
    assert_eq!(dinner_strategy("12"), None);
    assert_eq!(dinner_strategy(""), None);
}

/// Whether, with philosophers holding their first chopsticks as in `mask`,
/// every philosopher waits for a chopstick someone else holds.
fn all_blocked(order: fn(usize) -> (usize, usize), mask: u32) -> Option<bool> {
    let holds = |i: usize| mask & (1 << i) != 0;
    let mut owner = [None; 5];
    for i in 0..5 {
        if holds(i) {
            let c = order(i).0;
            if owner[c].is_some() {
                return None;
            }
            owner[c] = Some(i);
        }
    }
    Some((0..5).all(|i| {
        let want = if holds(i) { order(i).1 } else { order(i).0 };
        owner[want].is_some()
    }))
}

#[test]
fn only_the_plain_order_can_deadlock() {
    assert_eq!(all_blocked(chopsticks, 0b11111), Some(true));
    for mask in 0..32u32 {
        assert_ne!(all_blocked(chopsticks_asymmetric, mask), Some(true));
        assert_ne!(all_blocked(chopsticks_ordered, mask), Some(true));
    }
}
