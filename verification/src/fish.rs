//! The fish program: three workers print `>`, `<` and `_` in rounds that
//! eight semaphores order, so that each round shows `><>_` or `<><_` (the
//! arrow that came first is printed again after the other). The two arrow
//! workers sleep a random number of ticks below ten, drawn from a ChaCha
//! generator seeded with the start time, before each round. The shared
//! `first` flag records which arrow came first in a round.
use vstd::prelude::*;
use rand::{Rng, SeedableRng};
use rand_chacha::ChaCha20Rng;

verus! {

#[verifier::external_type_specification]
#[verifier::external_body]
pub struct ExChaCha20Rng(ChaCha20Rng);

/// The generator seeded with `seed` after it has handed out `k` numbers.
pub uninterp spec fn chacha_after(seed: u64, k: nat) -> ChaCha20Rng;

/// The number that the generator seeded with `seed` hands out after `k`
/// others.
pub uninterp spec fn chacha_u64(seed: u64, k: nat) -> u64;

/// `SeedableRng::seed_from_u64` for `ChaCha20Rng`: the generator of `seed`,
/// before any draw.
#[verifier::external_body]
fn rng_from_seed(seed: u64) -> (r: ChaCha20Rng)
    ensures
        r == chacha_after(seed, 0),
{
    ChaCha20Rng::seed_from_u64(seed)
}

/// `Rng::gen::<u64>`: the next number of a generator seeded with `seed` that
/// has handed out `k` numbers; the generator moves on by one.
#[verifier::external_body]
fn rng_next_u64(rng: &mut ChaCha20Rng, seed: u64, k: u64) -> (r: u64)
    requires
        *old(rng) == chacha_after(seed, k as nat),
    ensures
        r == chacha_u64(seed, k as nat),
        *final(rng) == chacha_after(seed, k as nat + 1),
{
    rng.gen::<u64>()
}

/// A worker's generator, with the seed it was made from and the number of
/// draws taken from it so far.
pub struct WorkerRng {
    rng: ChaCha20Rng,
    seed: u64,
    draws: u64,
}

impl WorkerRng {
    /// The generator is the seeded one after `draws` draws.
    pub closed spec fn wf(&self) -> bool {
        self.rng == chacha_after(self.seed, self.draws as nat)
    }

    pub closed spec fn seed_spec(&self) -> u64 {
        self.seed
    }

    pub closed spec fn draws_spec(&self) -> u64 {
        self.draws
    }

    /// The seed.
    pub fn seed(&self) -> (s: u64)
        ensures
            s == self.seed_spec(),
    {
        self.seed
    }

    /// The number of draws taken.
    pub fn draws(&self) -> (n: u64)
        ensures
            n == self.draws_spec(),
    {
        self.draws
    }
}

/// The generator of a worker that started at `timestamp` seconds: the
/// timestamp taken as an unsigned word is the seed.
pub fn worker_rng(timestamp: i64) -> (r: WorkerRng)
    ensures
        r.wf(),
        r.seed_spec() == timestamp as u64,
        r.draws_spec() == 0,
{
    let seed = timestamp as u64;
    WorkerRng { rng: rng_from_seed(seed), seed, draws: 0 }
}

/// The next pause of a worker, in ticks: the generator's next number modulo
/// ten.
pub fn next_pause(rng: &mut WorkerRng) -> (d: i64)
    requires
        old(rng).wf(),
        old(rng).draws_spec() < u64::MAX,
    ensures
        final(rng).wf(),
        final(rng).seed_spec() == old(rng).seed_spec(),
        final(rng).draws_spec() == old(rng).draws_spec() + 1,
        d == chacha_u64(old(rng).seed_spec(), old(rng).draws_spec() as nat) % 10,
{
    let r = rng_next_u64(&mut rng.rng, rng.seed, rng.draws) % 10;
    rng.draws = rng.draws + 1;
    r as i64
}

/// The number of rounds each worker runs.
pub const FISH_ROUNDS: u8 = 10;

/// What a worker does at one step of its round.
#[derive(Clone, Copy, Debug, PartialEq, Eq, Structural)]
pub enum FishAction {
    /// Sleep for the worker's next pause.
    Pause,
    /// Wait on the semaphore of this index.
    Wait(u8),
    /// Signal the semaphore of this index.
    Signal(u8),
    /// Print the worker's symbol.
    Print,
    /// All rounds are done: the worker exits.
    Exit,
}

/// The step of worker `worker` (0 prints `>`, 1 prints `<`, 2 prints `_`) at
/// position `pc` of its round, when the shared flag reads `first`: the next
/// position, the flag afterwards, and the action. A position of 0 after the
/// last step begins the next round.
pub open spec fn fish_step_spec(worker: u8, pc: u8, first: u8) -> (u8, u8, FishAction) {
    if worker == 2 {
        if pc == 0 {
            (1, first, FishAction::Wait(5))
        } else if pc == 1 {
            (2, 0, FishAction::Print)
        } else if pc == 2 {
            (3, first, FishAction::Signal(6))
        } else {
            (0, first, FishAction::Signal(0))
        }
    } else {
        let me: u8 = if worker == 0 { 1 } else { 2 };
        if pc == 0 {
            (1, first, FishAction::Pause)
        } else if pc == 1 {
            (2, first, FishAction::Wait(1))
        } else if pc == 2 {
            (3, if first == 0 { me } else { first }, FishAction::Print)
        } else if pc == 3 {
            (4, first, FishAction::Signal(1))
        } else if pc == 4 {
            (5, first, FishAction::Signal(if worker == 0 { 3 } else { 2 }))
        } else if pc == 5 {
            (6, first, FishAction::Wait(if worker == 0 { 2 } else { 3 }))
        } else if pc == 6 {
            if (first == 2) == (worker == 0) {
                (7, first, FishAction::Wait(4))
            } else {
                (8, first, FishAction::Print)
            }
        } else if pc == 7 {
            (11, first, FishAction::Signal(7))
        } else if pc == 8 {
            (9, first, FishAction::Signal(4))
        } else if pc == 9 {
            (10, first, FishAction::Wait(7))
        } else if pc == 10 {
            (11, first, FishAction::Signal(5))
        } else {
            (0, first, FishAction::Wait(if worker == 0 { 6 } else { 0 }))
        }
    }
}

/// The number of positions in a round of worker `worker`.
pub open spec fn fish_round_len(worker: u8) -> u8 {
    if worker == 2 { 4 } else { 12 }
}

/// The step of a worker in round `round` (see `fish_step_spec`); once all
/// rounds are done the worker exits and nothing changes.
pub fn fish_step(worker: u8, round: u8, pc: u8, first: u8) -> (r: (u8, u8, u8, FishAction))
    requires
        worker < 3,
        pc < fish_round_len(worker),
        round <= FISH_ROUNDS,
    ensures
        round == FISH_ROUNDS ==> r == (round, pc, first, FishAction::Exit),
        round < FISH_ROUNDS ==> ({
            let (npc, nfirst, act) = fish_step_spec(worker, pc, first);
            &&& r == (if npc == 0 { (round + 1) as u8 } else { round }, npc, nfirst, act)
        }),
{
    if round == FISH_ROUNDS {
        return (round, pc, first, FishAction::Exit);
    }
    let (npc, nfirst, act): (u8, u8, FishAction) = if worker == 2 {
        if pc == 0 {
            (1, first, FishAction::Wait(5))
        } else if pc == 1 {
            (2, 0, FishAction::Print)
        } else if pc == 2 {
            (3, first, FishAction::Signal(6))
        } else {
            (0, first, FishAction::Signal(0))
        }
    } else {
        let me: u8 = if worker == 0 { 1 } else { 2 };
        if pc == 0 {
            (1, first, FishAction::Pause)
        } else if pc == 1 {
            (2, first, FishAction::Wait(1))
        } else if pc == 2 {
            (3, if first == 0 { me } else { first }, FishAction::Print)
        } else if pc == 3 {
            (4, first, FishAction::Signal(1))
        } else if pc == 4 {
            (5, first, FishAction::Signal(if worker == 0 { 3 } else { 2 }))
        } else if pc == 5 {
            (6, first, FishAction::Wait(if worker == 0 { 2 } else { 3 }))
        } else if pc == 6 {
            if (first == 2) == (worker == 0) {
                (7, first, FishAction::Wait(4))
            } else {
                (8, first, FishAction::Print)
            }
        } else if pc == 7 {
            (11, first, FishAction::Signal(7))
        } else if pc == 8 {
            (9, first, FishAction::Signal(4))
        } else if pc == 9 {
            (10, first, FishAction::Wait(7))
        } else if pc == 10 {
            (11, first, FishAction::Signal(5))
        } else {
            (0, first, FishAction::Wait(if worker == 0 { 6 } else { 0 }))
        }
    };
    let nround: u8 = if npc == 0 { round + 1 } else { round };
    (nround, npc, nfirst, act)
}

/// A step stays within the worker's round and names one of the eight
/// semaphores; the flag is set only from 0, by the arrow worker that got there
/// first, to its own mark, and cleared only by the `_` worker.
pub proof fn law_fish_step_well_formed(worker: u8, pc: u8, first: u8)
    requires
        worker < 3,
        pc < fish_round_len(worker),
    ensures
        fish_step_spec(worker, pc, first).0 < fish_round_len(worker),
        fish_step_spec(worker, pc, first).2 matches FishAction::Wait(k) ==> k < 8,
        fish_step_spec(worker, pc, first).2 matches FishAction::Signal(k) ==> k < 8,
        fish_step_spec(worker, pc, first).1 != first ==> (worker == 2 && fish_step_spec(worker, pc, first).1 == 0)
            || (worker < 2 && first == 0 && fish_step_spec(worker, pc, first).1 == worker + 1),
{
}

/// The three workers together, as values: each worker's position in its
/// round, the eight semaphores' counts, the shared flag, and the block of
/// symbols printed since the last `_` (coded: 0 none, 1 `>`, 2 `<`, 3 `><`,
/// 4 `<>`, 5 `><>`, 6 `<><`, 7 anything else).
pub struct FishState {
    pub p0: int,
    pub p1: int,
    pub p2: int,
    pub sems: (int, int, int, int, int, int, int, int),
    pub first: int,
    pub block: int,
}

/// The text of a block code.
pub open spec fn block_text(code: int) -> Seq<char> {
    if code == 0 {
        Seq::empty()
    } else if code == 1 {
        seq!['>']
    } else if code == 2 {
        seq!['<']
    } else if code == 3 {
        seq!['>', '<']
    } else if code == 4 {
        seq!['<', '>']
    } else if code == 5 {
        seq!['>', '<', '>']
    } else {
        seq!['<', '>', '<']
    }
}

/// The symbol worker `w` prints.
pub open spec fn fish_symbol(w: int) -> char {
    if w == 0 { '>' } else if w == 1 { '<' } else { '_' }
}

/// The block after arrow worker `w` prints: 7 when it is no longer the start
/// of `><>` or `<><`.
pub open spec fn append_arrow(code: int, w: int) -> int {
    if code == 0 {
        if w == 0 { 1 } else { 2 }
    } else if code == 1 && w == 1 {
        3
    } else if code == 2 && w == 0 {
        4
    } else if code == 3 && w == 0 {
        5
    } else if code == 4 && w == 1 {
        6
    } else {
        7
    }
}

pub open spec fn sems_are(
    t: (int, int, int, int, int, int, int, int),
    a0: int,
    a1: int,
    a2: int,
    a3: int,
    a4: int,
    a5: int,
    a6: int,
    a7: int,
) -> bool {
    t == (a0, a1, a2, a3, a4, a5, a6, a7)
}

pub open spec fn sem_of(t: (int, int, int, int, int, int, int, int), k: int) -> int {
    if k == 0 { t.0 } else if k == 1 { t.1 } else if k == 2 { t.2 } else if k == 3 { t.3 }
    else if k == 4 { t.4 } else if k == 5 { t.5 } else if k == 6 { t.6 } else { t.7 }
}

pub open spec fn sem_set(t: (int, int, int, int, int, int, int, int), k: int, v: int) -> (int, int, int, int, int, int, int, int) {
    if k == 0 { (v, t.1, t.2, t.3, t.4, t.5, t.6, t.7) }
    else if k == 1 { (t.0, v, t.2, t.3, t.4, t.5, t.6, t.7) }
    else if k == 2 { (t.0, t.1, v, t.3, t.4, t.5, t.6, t.7) }
    else if k == 3 { (t.0, t.1, t.2, v, t.4, t.5, t.6, t.7) }
    else if k == 4 { (t.0, t.1, t.2, t.3, v, t.5, t.6, t.7) }
    else if k == 5 { (t.0, t.1, t.2, t.3, t.4, v, t.6, t.7) }
    else if k == 6 { (t.0, t.1, t.2, t.3, t.4, t.5, v, t.7) }
    else { (t.0, t.1, t.2, t.3, t.4, t.5, t.6, v) }
}

/// The start of the program: every worker at the start of its round,
/// semaphore 1 at one and the others at zero, the flag clear, nothing
/// printed.
pub open spec fn fish_start() -> FishState {
    FishState { p0: 0, p1: 0, p2: 0, sems: (0int, 1int, 0int, 0int, 0int, 0int, 0int, 0int), first: 0, block: 0 }
}

/// Worker `w` takes its next step (see `fish_step_spec`), or `None` when it
/// waits on a semaphore at zero.
pub open spec fn fish_next(s: FishState, w: int) -> Option<FishState> {
    let pc = if w == 0 { s.p0 } else if w == 1 { s.p1 } else { s.p2 };
    let (npc, nfirst, act) = fish_step_spec(w as u8, pc as u8, s.first as u8);
    let moved = if w == 0 {
        FishState { p0: npc as int, first: nfirst as int, ..s }
    } else if w == 1 {
        FishState { p1: npc as int, first: nfirst as int, ..s }
    } else {
        FishState { p2: npc as int, first: nfirst as int, ..s }
    };
    match act {
        FishAction::Wait(k) => if sem_of(s.sems, k as int) > 0 {
            Some(FishState { sems: sem_set(s.sems, k as int, sem_of(s.sems, k as int) - 1), ..moved })
        } else {
            None
        },
        FishAction::Signal(k) => Some(FishState { sems: sem_set(s.sems, k as int, sem_of(s.sems, k as int) + 1), ..moved }),
        FishAction::Print => Some(FishState { block: if w == 2 { 0 } else { append_arrow(s.block, w) }, ..moved }),
        _ => Some(moved),
    }
}

/// What worker `w` would print next is in place: `_` only after `><>` or
/// `<><`, and an arrow only where the block stays the start of one of them.
pub open spec fn fish_print_ok(s: FishState, w: int) -> bool {
    let pc = if w == 0 { s.p0 } else if w == 1 { s.p1 } else { s.p2 };
    fish_step_spec(w as u8, pc as u8, s.first as u8).2 is Print ==> if w == 2 {
        s.block == 5 || s.block == 6
    } else {
        append_arrow(s.block, w) != 7
    }
}

/// The states the three workers can reach from the start.
pub open spec fn fish_reachable(s: FishState) -> bool {
        ||| (s.p0 == 0 && s.p1 == 0 && s.p2 == 0 && sems_are(s.sems, 0, 1, 0, 0, 0, 0, 0, 0) && s.first == 0 && s.block == 0)
        ||| (s.p0 == 0 && s.p1 == 1 && s.p2 == 0 && sems_are(s.sems, 0, 1, 0, 0, 0, 0, 0, 0) && s.first == 0 && s.block == 0)
        ||| (s.p0 == 0 && s.p1 == 2 && s.p2 == 0 && sems_are(s.sems, 0, 0, 0, 0, 0, 0, 0, 0) && s.first == 0 && s.block == 0)
        ||| (s.p0 == 0 && s.p1 == 3 && s.p2 == 0 && sems_are(s.sems, 0, 0, 0, 0, 0, 0, 0, 0) && s.first == 2 && s.block == 2)
        ||| (s.p0 == 0 && s.p1 == 4 && s.p2 == 0 && sems_are(s.sems, 0, 1, 0, 0, 0, 0, 0, 0) && s.first == 2 && s.block == 2)
        ||| (s.p0 == 0 && s.p1 == 5 && s.p2 == 0 && sems_are(s.sems, 0, 1, 1, 0, 0, 0, 0, 0) && s.first == 2 && s.block == 2)
        ||| (s.p0 == 0 && s.p1 == 11 && s.p2 == 0 && sems_are(s.sems, 1, 1, 0, 0, 0, 0, 0, 0) && s.first == 0 && s.block == 0)
        ||| (s.p0 == 0 && s.p1 == 11 && s.p2 == 3 && sems_are(s.sems, 0, 1, 0, 0, 0, 0, 0, 0) && s.first == 0 && s.block == 0)
        ||| (s.p0 == 1 && s.p1 == 0 && s.p2 == 0 && sems_are(s.sems, 0, 1, 0, 0, 0, 0, 0, 0) && s.first == 0 && s.block == 0)
        ||| (s.p0 == 1 && s.p1 == 1 && s.p2 == 0 && sems_are(s.sems, 0, 1, 0, 0, 0, 0, 0, 0) && s.first == 0 && s.block == 0)
        ||| (s.p0 == 1 && s.p1 == 2 && s.p2 == 0 && sems_are(s.sems, 0, 0, 0, 0, 0, 0, 0, 0) && s.first == 0 && s.block == 0)
        ||| (s.p0 == 1 && s.p1 == 3 && s.p2 == 0 && sems_are(s.sems, 0, 0, 0, 0, 0, 0, 0, 0) && s.first == 2 && s.block == 2)
        ||| (s.p0 == 1 && s.p1 == 4 && s.p2 == 0 && sems_are(s.sems, 0, 1, 0, 0, 0, 0, 0, 0) && s.first == 2 && s.block == 2)
        ||| (s.p0 == 1 && s.p1 == 5 && s.p2 == 0 && sems_are(s.sems, 0, 1, 1, 0, 0, 0, 0, 0) && s.first == 2 && s.block == 2)
        ||| (s.p0 == 1 && s.p1 == 11 && s.p2 == 0 && sems_are(s.sems, 1, 1, 0, 0, 0, 0, 0, 0) && s.first == 0 && s.block == 0)
        ||| (s.p0 == 1 && s.p1 == 11 && s.p2 == 3 && sems_are(s.sems, 0, 1, 0, 0, 0, 0, 0, 0) && s.first == 0 && s.block == 0)
        ||| (s.p0 == 2 && s.p1 == 0 && s.p2 == 0 && sems_are(s.sems, 0, 0, 0, 0, 0, 0, 0, 0) && s.first == 0 && s.block == 0)
        ||| (s.p0 == 2 && s.p1 == 1 && s.p2 == 0 && sems_are(s.sems, 0, 0, 0, 0, 0, 0, 0, 0) && s.first == 0 && s.block == 0)
        ||| (s.p0 == 2 && s.p1 == 4 && s.p2 == 0 && sems_are(s.sems, 0, 0, 0, 0, 0, 0, 0, 0) && s.first == 2 && s.block == 2)
        ||| (s.p0 == 2 && s.p1 == 5 && s.p2 == 0 && sems_are(s.sems, 0, 0, 1, 0, 0, 0, 0, 0) && s.first == 2 && s.block == 2)
        ||| (s.p0 == 2 && s.p1 == 11 && s.p2 == 0 && sems_are(s.sems, 1, 0, 0, 0, 0, 0, 0, 0) && s.first == 0 && s.block == 0)
        ||| (s.p0 == 2 && s.p1 == 11 && s.p2 == 3 && sems_are(s.sems, 0, 0, 0, 0, 0, 0, 0, 0) && s.first == 0 && s.block == 0)
        ||| (s.p0 == 3 && s.p1 == 0 && s.p2 == 0 && sems_are(s.sems, 0, 0, 0, 0, 0, 0, 0, 0) && s.first == 1 && s.block == 1)
        ||| (s.p0 == 3 && s.p1 == 1 && s.p2 == 0 && sems_are(s.sems, 0, 0, 0, 0, 0, 0, 0, 0) && s.first == 1 && s.block == 1)
        ||| (s.p0 == 3 && s.p1 == 4 && s.p2 == 0 && sems_are(s.sems, 0, 0, 0, 0, 0, 0, 0, 0) && s.first == 2 && s.block == 4)
        ||| (s.p0 == 3 && s.p1 == 5 && s.p2 == 0 && sems_are(s.sems, 0, 0, 1, 0, 0, 0, 0, 0) && s.first == 2 && s.block == 4)
        ||| (s.p0 == 3 && s.p1 == 11 && s.p2 == 0 && sems_are(s.sems, 1, 0, 0, 0, 0, 0, 0, 0) && s.first == 1 && s.block == 1)
        ||| (s.p0 == 3 && s.p1 == 11 && s.p2 == 3 && sems_are(s.sems, 0, 0, 0, 0, 0, 0, 0, 0) && s.first == 1 && s.block == 1)
        ||| (s.p0 == 4 && s.p1 == 0 && s.p2 == 0 && sems_are(s.sems, 0, 1, 0, 0, 0, 0, 0, 0) && s.first == 1 && s.block == 1)
        ||| (s.p0 == 4 && s.p1 == 1 && s.p2 == 0 && sems_are(s.sems, 0, 1, 0, 0, 0, 0, 0, 0) && s.first == 1 && s.block == 1)
        ||| (s.p0 == 4 && s.p1 == 2 && s.p2 == 0 && sems_are(s.sems, 0, 0, 0, 0, 0, 0, 0, 0) && s.first == 1 && s.block == 1)
        ||| (s.p0 == 4 && s.p1 == 3 && s.p2 == 0 && sems_are(s.sems, 0, 0, 0, 0, 0, 0, 0, 0) && s.first == 1 && s.block == 3)
        ||| (s.p0 == 4 && s.p1 == 4 && s.p2 == 0 && sems_are(s.sems, 0, 1, 0, 0, 0, 0, 0, 0) && s.first == 1 && s.block == 3)
        ||| (s.p0 == 4 && s.p1 == 4 && s.p2 == 0 && sems_are(s.sems, 0, 1, 0, 0, 0, 0, 0, 0) && s.first == 2 && s.block == 4)
        ||| (s.p0 == 4 && s.p1 == 5 && s.p2 == 0 && sems_are(s.sems, 0, 1, 1, 0, 0, 0, 0, 0) && s.first == 1 && s.block == 3)
        ||| (s.p0 == 4 && s.p1 == 5 && s.p2 == 0 && sems_are(s.sems, 0, 1, 1, 0, 0, 0, 0, 0) && s.first == 2 && s.block == 4)
        ||| (s.p0 == 4 && s.p1 == 11 && s.p2 == 0 && sems_are(s.sems, 1, 1, 0, 0, 0, 0, 0, 0) && s.first == 1 && s.block == 1)
        ||| (s.p0 == 4 && s.p1 == 11 && s.p2 == 3 && sems_are(s.sems, 0, 1, 0, 0, 0, 0, 0, 0) && s.first == 1 && s.block == 1)
        ||| (s.p0 == 5 && s.p1 == 0 && s.p2 == 0 && sems_are(s.sems, 0, 1, 0, 1, 0, 0, 0, 0) && s.first == 1 && s.block == 1)
        ||| (s.p0 == 5 && s.p1 == 1 && s.p2 == 0 && sems_are(s.sems, 0, 1, 0, 1, 0, 0, 0, 0) && s.first == 1 && s.block == 1)
        ||| (s.p0 == 5 && s.p1 == 2 && s.p2 == 0 && sems_are(s.sems, 0, 0, 0, 1, 0, 0, 0, 0) && s.first == 1 && s.block == 1)
        ||| (s.p0 == 5 && s.p1 == 3 && s.p2 == 0 && sems_are(s.sems, 0, 0, 0, 1, 0, 0, 0, 0) && s.first == 1 && s.block == 3)
        ||| (s.p0 == 5 && s.p1 == 4 && s.p2 == 0 && sems_are(s.sems, 0, 1, 0, 1, 0, 0, 0, 0) && s.first == 1 && s.block == 3)
        ||| (s.p0 == 5 && s.p1 == 4 && s.p2 == 0 && sems_are(s.sems, 0, 1, 0, 1, 0, 0, 0, 0) && s.first == 2 && s.block == 4)
        ||| (s.p0 == 5 && s.p1 == 5 && s.p2 == 0 && sems_are(s.sems, 0, 1, 1, 1, 0, 0, 0, 0) && s.first == 1 && s.block == 3)
        ||| (s.p0 == 5 && s.p1 == 5 && s.p2 == 0 && sems_are(s.sems, 0, 1, 1, 1, 0, 0, 0, 0) && s.first == 2 && s.block == 4)
        ||| (s.p0 == 5 && s.p1 == 6 && s.p2 == 0 && sems_are(s.sems, 0, 1, 1, 0, 0, 0, 0, 0) && s.first == 1 && s.block == 3)
        ||| (s.p0 == 5 && s.p1 == 6 && s.p2 == 0 && sems_are(s.sems, 0, 1, 1, 0, 0, 0, 0, 0) && s.first == 2 && s.block == 4)
        ||| (s.p0 == 5 && s.p1 == 8 && s.p2 == 0 && sems_are(s.sems, 0, 1, 1, 0, 0, 0, 0, 0) && s.first == 2 && s.block == 6)
        ||| (s.p0 == 5 && s.p1 == 9 && s.p2 == 0 && sems_are(s.sems, 0, 1, 1, 0, 1, 0, 0, 0) && s.first == 2 && s.block == 6)
        ||| (s.p0 == 5 && s.p1 == 11 && s.p2 == 0 && sems_are(s.sems, 1, 1, 0, 1, 0, 0, 0, 0) && s.first == 1 && s.block == 1)
        ||| (s.p0 == 5 && s.p1 == 11 && s.p2 == 3 && sems_are(s.sems, 0, 1, 0, 1, 0, 0, 0, 0) && s.first == 1 && s.block == 1)
        ||| (s.p0 == 6 && s.p1 == 5 && s.p2 == 0 && sems_are(s.sems, 0, 1, 0, 1, 0, 0, 0, 0) && s.first == 1 && s.block == 3)
        ||| (s.p0 == 6 && s.p1 == 5 && s.p2 == 0 && sems_are(s.sems, 0, 1, 0, 1, 0, 0, 0, 0) && s.first == 2 && s.block == 4)
        ||| (s.p0 == 6 && s.p1 == 6 && s.p2 == 0 && sems_are(s.sems, 0, 1, 0, 0, 0, 0, 0, 0) && s.first == 1 && s.block == 3)
        ||| (s.p0 == 6 && s.p1 == 6 && s.p2 == 0 && sems_are(s.sems, 0, 1, 0, 0, 0, 0, 0, 0) && s.first == 2 && s.block == 4)
        ||| (s.p0 == 6 && s.p1 == 8 && s.p2 == 0 && sems_are(s.sems, 0, 1, 0, 0, 0, 0, 0, 0) && s.first == 2 && s.block == 6)
        ||| (s.p0 == 6 && s.p1 == 9 && s.p2 == 0 && sems_are(s.sems, 0, 1, 0, 0, 1, 0, 0, 0) && s.first == 2 && s.block == 6)
        ||| (s.p0 == 7 && s.p1 == 9 && s.p2 == 0 && sems_are(s.sems, 0, 1, 0, 0, 0, 0, 0, 0) && s.first == 2 && s.block == 6)
        ||| (s.p0 == 8 && s.p1 == 5 && s.p2 == 0 && sems_are(s.sems, 0, 1, 0, 1, 0, 0, 0, 0) && s.first == 1 && s.block == 5)
        ||| (s.p0 == 8 && s.p1 == 6 && s.p2 == 0 && sems_are(s.sems, 0, 1, 0, 0, 0, 0, 0, 0) && s.first == 1 && s.block == 5)
        ||| (s.p0 == 9 && s.p1 == 5 && s.p2 == 0 && sems_are(s.sems, 0, 1, 0, 1, 1, 0, 0, 0) && s.first == 1 && s.block == 5)
        ||| (s.p0 == 9 && s.p1 == 6 && s.p2 == 0 && sems_are(s.sems, 0, 1, 0, 0, 1, 0, 0, 0) && s.first == 1 && s.block == 5)
        ||| (s.p0 == 9 && s.p1 == 7 && s.p2 == 0 && sems_are(s.sems, 0, 1, 0, 0, 0, 0, 0, 0) && s.first == 1 && s.block == 5)
        ||| (s.p0 == 9 && s.p1 == 11 && s.p2 == 0 && sems_are(s.sems, 0, 1, 0, 0, 0, 0, 0, 1) && s.first == 1 && s.block == 5)
        ||| (s.p0 == 10 && s.p1 == 11 && s.p2 == 0 && sems_are(s.sems, 0, 1, 0, 0, 0, 0, 0, 0) && s.first == 1 && s.block == 5)
        ||| (s.p0 == 11 && s.p1 == 0 && s.p2 == 0 && sems_are(s.sems, 0, 1, 0, 0, 0, 0, 1, 0) && s.first == 0 && s.block == 0)
        ||| (s.p0 == 11 && s.p1 == 1 && s.p2 == 0 && sems_are(s.sems, 0, 1, 0, 0, 0, 0, 1, 0) && s.first == 0 && s.block == 0)
        ||| (s.p0 == 11 && s.p1 == 2 && s.p2 == 0 && sems_are(s.sems, 0, 0, 0, 0, 0, 0, 1, 0) && s.first == 0 && s.block == 0)
        ||| (s.p0 == 11 && s.p1 == 3 && s.p2 == 0 && sems_are(s.sems, 0, 0, 0, 0, 0, 0, 1, 0) && s.first == 2 && s.block == 2)
        ||| (s.p0 == 11 && s.p1 == 4 && s.p2 == 0 && sems_are(s.sems, 0, 1, 0, 0, 0, 0, 1, 0) && s.first == 2 && s.block == 2)
        ||| (s.p0 == 11 && s.p1 == 5 && s.p2 == 0 && sems_are(s.sems, 0, 1, 1, 0, 0, 0, 1, 0) && s.first == 2 && s.block == 2)
        ||| (s.p0 == 11 && s.p1 == 9 && s.p2 == 0 && sems_are(s.sems, 0, 1, 0, 0, 0, 0, 0, 1) && s.first == 2 && s.block == 6)
        ||| (s.p0 == 11 && s.p1 == 10 && s.p2 == 0 && sems_are(s.sems, 0, 1, 0, 0, 0, 0, 0, 0) && s.first == 2 && s.block == 6)
        ||| (s.p0 == 11 && s.p1 == 11 && s.p2 == 0 && sems_are(s.sems, 0, 1, 0, 0, 0, 1, 0, 0) && s.first == 1 && s.block == 5)
        ||| (s.p0 == 11 && s.p1 == 11 && s.p2 == 0 && sems_are(s.sems, 0, 1, 0, 0, 0, 1, 0, 0) && s.first == 2 && s.block == 6)
        ||| (s.p0 == 11 && s.p1 == 11 && s.p2 == 0 && sems_are(s.sems, 1, 1, 0, 0, 0, 0, 1, 0) && s.first == 0 && s.block == 0)
        ||| (s.p0 == 11 && s.p1 == 11 && s.p2 == 1 && sems_are(s.sems, 0, 1, 0, 0, 0, 0, 0, 0) && s.first == 1 && s.block == 5)
        ||| (s.p0 == 11 && s.p1 == 11 && s.p2 == 1 && sems_are(s.sems, 0, 1, 0, 0, 0, 0, 0, 0) && s.first == 2 && s.block == 6)
        ||| (s.p0 == 11 && s.p1 == 11 && s.p2 == 2 && sems_are(s.sems, 0, 1, 0, 0, 0, 0, 0, 0) && s.first == 0 && s.block == 0)
        ||| (s.p0 == 11 && s.p1 == 11 && s.p2 == 3 && sems_are(s.sems, 0, 1, 0, 0, 0, 0, 1, 0) && s.first == 0 && s.block == 0)
}

/// A block code stands for its text: an arrow that keeps the block the start
/// of a fish adds its symbol.
pub proof fn law_block_codes(code: int, w: int)
    requires
        0 <= code <= 6,
        0 <= w < 2,
        append_arrow(code, w) != 7,
    ensures
        block_text(append_arrow(code, w)) == block_text(code).push(fish_symbol(w)),
{
    assert(block_text(append_arrow(code, w)) =~= block_text(code).push(fish_symbol(w)));
}

/// Whatever order the three workers run in, what they print is a row of
/// fish, `><>_` or `<><_`: from the start, every step keeps the workers in a
/// reachable state, `_` is printed only to close `><>` or `<><`, and an arrow
/// only where the block is still the start of one of them.
#[verifier::rlimit(100)]
pub proof fn law_fish_output(s: FishState, w: int)
    requires
        fish_reachable(s),
        0 <= w < 3,
    ensures
        fish_reachable(fish_start()),
        fish_print_ok(s, w),
        fish_next(s, w) matches Some(n) ==> fish_reachable(n),
{
}

} // verus!
