//! The dining philosophers: which chopsticks each philosopher takes, in
//! which order under each strategy, and the waiter that hands out both
//! chopsticks of a philosopher at once or none.
use vstd::prelude::*;
use crate::shell::{trim, trim_spec};

verus! {

/// The number of philosophers, and of chopsticks.
pub const PHI_NUM: usize = 5;

/// The chopstick to the right of philosopher `i`.
pub open spec fn right_of(i: int) -> int {
    (i + 1) % (PHI_NUM as int)
}

/// The chopstick philosopher `i` takes first under the plain strategy.
pub open spec fn first_plain(i: int) -> int {
    i
}

/// The chopstick philosopher `i` takes first under the asymmetric strategy.
pub open spec fn first_asymmetric(i: int) -> int {
    if i % 2 == 0 {
        right_of(i)
    } else {
        i
    }
}

/// The chopstick philosopher `i` takes first under the ordered strategy.
pub open spec fn first_ordered(i: int) -> int {
    if i < right_of(i) {
        i
    } else {
        right_of(i)
    }
}

/// The two chopsticks of philosopher `i`, in the order the plain strategy
/// takes them: its own, then the next one.
pub fn chopsticks(i: usize) -> (r: (usize, usize))
    requires
        i < PHI_NUM,
    ensures
        r == (i, right_of(i as int) as usize),
        r.0 == first_plain(i as int),
{
    (i, (i + 1) % PHI_NUM)
}

/// The order of the asymmetric strategy: odd philosophers take their own
/// chopstick first, even ones the next one first.
pub fn chopsticks_asymmetric(i: usize) -> (r: (usize, usize))
    requires
        i < PHI_NUM,
    ensures
        r.0 == first_asymmetric(i as int),
        i % 2 == 1 ==> r == (i, right_of(i as int) as usize),
        i % 2 == 0 ==> r == (right_of(i as int) as usize, i),
{
    let c1 = i;
    let c2 = (i + 1) % PHI_NUM;
    if i % 2 == 0 {
        (c2, c1)
    } else {
        (c1, c2)
    }
}

/// The order of the ordered strategy: the lower-numbered chopstick first.
pub fn chopsticks_ordered(i: usize) -> (r: (usize, usize))
    requires
        i < PHI_NUM,
    ensures
        r.0 == first_ordered(i as int),
        r.0 < r.1,
        (r == (i, right_of(i as int) as usize)) || (r == (right_of(i as int) as usize, i)),
{
    let c1 = i;
    let c2 = (i + 1) % PHI_NUM;
    if c1 > c2 {
        (c2, c1)
    } else {
        (c1, c2)
    }
}

/// Under the plain strategy the philosophers' first chopsticks all differ,
/// so all of them can hold one and wait for the next: the table can
/// deadlock.
pub proof fn law_plain_can_deadlock(i: int, j: int)
    requires
        0 <= i < PHI_NUM,
        0 <= j < PHI_NUM,
        i != j,
    ensures
        first_plain(i) != first_plain(j),
{
}

/// Under the asymmetric and the ordered strategies two philosophers go for
/// the same first chopstick, so not all of them can hold a first chopstick
/// at once and a circular wait cannot form.
pub proof fn law_no_circular_wait()
    ensures
        exists|i: int, j: int|
            0 <= i < j < PHI_NUM && #[trigger] first_asymmetric(i) == #[trigger] first_asymmetric(j),
        exists|i: int, j: int|
            0 <= i < j < PHI_NUM && #[trigger] first_ordered(i) == #[trigger] first_ordered(j),
{
    assert(first_asymmetric(0) == first_asymmetric(1));
    assert(first_ordered(0) == first_ordered(4));
}

/// What the waiter knows: which chopsticks are in use.
pub struct Waiter {
    pub used: [bool; 5],
}

/// The waiter after philosopher `i` asks for its chopsticks, and whether it
/// got them: both, when both were free; else nothing changes.
pub open spec fn ask_spec(used: Seq<bool>, i: int) -> (Seq<bool>, bool) {
    let c1 = i;
    let c2 = right_of(i);
    if !used[c1] && !used[c2] {
        (used.update(c1, true).update(c2, true), true)
    } else {
        (used, false)
    }
}

/// The waiter after philosopher `i` puts its chopsticks back.
pub open spec fn release_spec(used: Seq<bool>, i: int) -> Seq<bool> {
    used.update(i, false).update(right_of(i), false)
}

impl Waiter {
    /// All chopsticks on the table.
    pub fn new() -> (w: Waiter)
        ensures
            w.used@ == seq![false, false, false, false, false],
    {
        let w = Waiter { used: [false; 5] };
        assert(w.used@ =~= seq![false, false, false, false, false]);
        w
    }

    /// Philosopher `i` asks for both its chopsticks (see `ask_spec`).
    pub fn ask_server_for_cho(&mut self, i: usize) -> (got: bool)
        requires
            i < PHI_NUM,
        ensures
            (final(self).used@, got) == ask_spec(old(self).used@, i as int),
    {
        let c1 = i;
        let c2 = (i + 1) % PHI_NUM;
        if !self.used[c1] && !self.used[c2] {
            self.used[c1] = true;
            self.used[c2] = true;
            true
        } else {
            false
        }
    }

    /// Philosopher `i` puts both its chopsticks back (see `release_spec`).
    pub fn release_cho(&mut self, i: usize)
        requires
            i < PHI_NUM,
        ensures
            final(self).used@ == release_spec(old(self).used@, i as int),
    {
        let c1 = i;
        let c2 = (i + 1) % PHI_NUM;
        self.used[c1] = false;
        self.used[c2] = false;
    }
}

/// While a philosopher eats, neither neighbour gets its chopsticks from the
/// waiter.
pub proof fn law_neighbours_wait(used: Seq<bool>, i: int)
    requires
        used.len() == PHI_NUM,
        0 <= i < PHI_NUM,
        ask_spec(used, i).1,
    ensures
        !ask_spec(ask_spec(used, i).0, right_of(i)).1,
        !ask_spec(ask_spec(used, i).0, (i + PHI_NUM - 1) % (PHI_NUM as int)).1,
{
}

/// Putting back the chopsticks just handed out restores the waiter.
pub proof fn law_release_undoes_ask(used: Seq<bool>, i: int)
    requires
        used.len() == PHI_NUM,
        0 <= i < PHI_NUM,
        ask_spec(used, i).1,
    ensures
        release_spec(ask_spec(used, i).0, i) == used,
{
    assert(release_spec(ask_spec(used, i).0, i) =~= used);
}

/// The chopstick to the left of philosopher `i`: the right one of the
/// philosopher before it.
pub open spec fn left_of(i: int) -> int {
    (i + PHI_NUM - 1) % (PHI_NUM as int)
}

/// The waiter's chopsticks agree with who is eating: a chopstick is in use
/// exactly when a philosopher beside it eats, and no two neighbours eat.
pub open spec fn waiter_consistent(used: Seq<bool>, eating: Seq<bool>) -> bool {
    &&& used.len() == PHI_NUM
    &&& eating.len() == PHI_NUM
    &&& forall|c: int| 0 <= c < PHI_NUM ==> #[trigger] used[c] == (eating[c] || eating[left_of(c)])
    &&& forall|i: int| 0 <= i < PHI_NUM ==> !(#[trigger] eating[i] && eating[right_of(i)])
}

proof fn lemma_sides(c: int)
    requires
        0 <= c < PHI_NUM,
    ensures
        right_of(c) == (if c == 4 { 0 } else { c + 1 }),
        left_of(c) == (if c == 0 { 4 } else { c - 1 }),
{
}

proof fn lemma_ask_consistent(used: Seq<bool>, eating: Seq<bool>, i: int)
    requires
        0 <= i < PHI_NUM,
        waiter_consistent(used, eating),
        !eating[i],
    ensures
        waiter_consistent(
            ask_spec(used, i).0,
            if ask_spec(used, i).1 { eating.update(i, true) } else { eating },
        ),
{
    let (u, got) = ask_spec(used, i);
    let e = if got { eating.update(i, true) } else { eating };
    lemma_sides(i);
    assert forall|c: int| 0 <= c < PHI_NUM implies #[trigger] u[c] == (e[c] || e[left_of(c)]) by {
        lemma_sides(c);
        assert(used[c] == (eating[c] || eating[left_of(c)]));
    }
    assert forall|j: int| 0 <= j < PHI_NUM implies !(#[trigger] e[j] && e[right_of(j)]) by {
        lemma_sides(j);
        assert(!(eating[j] && eating[right_of(j)]));
        assert(used[j] == (eating[j] || eating[left_of(j)]));
        assert(used[right_of(j)] == (eating[right_of(j)] || eating[left_of(right_of(j))]));
    }
}

proof fn lemma_release_consistent(used: Seq<bool>, eating: Seq<bool>, i: int)
    requires
        0 <= i < PHI_NUM,
        waiter_consistent(used, eating),
        eating[i],
    ensures
        waiter_consistent(release_spec(used, i), eating.update(i, false)),
{
    let u = release_spec(used, i);
    let e = eating.update(i, false);
    lemma_sides(i);
    assert forall|c: int| 0 <= c < PHI_NUM implies #[trigger] u[c] == (e[c] || e[left_of(c)]) by {
        lemma_sides(c);
        assert(used[c] == (eating[c] || eating[left_of(c)]));
        assert(!(eating[c] && eating[right_of(c)]));
        lemma_sides(left_of(c));
        assert(!(eating[left_of(c)] && eating[right_of(left_of(c))]));
    }
    assert forall|j: int| 0 <= j < PHI_NUM implies !(#[trigger] e[j] && e[right_of(j)]) by {
        assert(!(eating[j] && eating[right_of(j)]));
    }
}

/// The waiter keeps neighbours from eating together, whatever order the
/// philosophers ask and put back in: the table starts consistent with nobody
/// eating, and a request from a philosopher who is not eating, or a
/// putting-back from one who is, keeps it consistent, the asker eating
/// exactly when the waiter said yes.
pub proof fn law_waiter_exclusion(used: Seq<bool>, eating: Seq<bool>, i: int)
    requires
        0 <= i < PHI_NUM,
    ensures
        waiter_consistent(seq![false, false, false, false, false], seq![false, false, false, false, false]),
        waiter_consistent(used, eating) && !eating[i] ==> waiter_consistent(
            ask_spec(used, i).0,
            if ask_spec(used, i).1 { eating.update(i, true) } else { eating },
        ),
        waiter_consistent(used, eating) && eating[i] ==> waiter_consistent(
            release_spec(used, i),
            eating.update(i, false),
        ),
{
    let z = seq![false, false, false, false, false];
    assert forall|c: int| 0 <= c < PHI_NUM implies #[trigger] z[c] == (z[c] || z[left_of(c)]) by {
        lemma_sides(c);
    }
    assert forall|c: int| 0 <= c < PHI_NUM implies !(#[trigger] z[c] && z[right_of(c)]) by {
        lemma_sides(c);
    }
    if waiter_consistent(used, eating) && !eating[i] {
        lemma_ask_consistent(used, eating, i);
    }
    if waiter_consistent(used, eating) && eating[i] {
        lemma_release_consistent(used, eating, i);
    }
}

/// The strategy that the line typed at the dinner program's prompt picks:
/// `1` to `4` after trimming white space; anything else is refused.
pub fn dinner_strategy(line: &str) -> (r: Option<u8>)
    ensures
        r == (if trim_spec(line@) == seq!['1'] {
            Some(1u8)
        } else if trim_spec(line@) == seq!['2'] {
            Some(2u8)
        } else if trim_spec(line@) == seq!['3'] {
            Some(3u8)
        } else if trim_spec(line@) == seq!['4'] {
            Some(4u8)
        } else {
            None::<u8>
        }),
{
    let t = trim(line);
    let n = t.unicode_len();
    if n != 1 {
        proof {
            assert(t@.len() != 1);
        }
        return None;
    }
    let c = t.get_char(0);
    proof {
        assert(t@ =~= seq![c]);
    }
    if c == '1' {
        Some(1)
    } else if c == '2' {
        Some(2)
    } else if c == '3' {
        Some(3)
    } else if c == '4' {
        Some(4)
    } else {
        None
    }
}

/// The order in which philosophers pick up their chopsticks.
pub enum Strategy {
    /// Own chopstick, then the next one.
    Plain,
    /// Odd philosophers own first, even ones the next one first.
    Asymmetric,
    /// The lower-numbered chopstick first.
    Ordered,
}

/// The chopstick philosopher `i` takes first under strategy `st`.
pub open spec fn first_of(st: Strategy, i: int) -> int {
    match st {
        Strategy::Plain => first_plain(i),
        Strategy::Asymmetric => first_asymmetric(i),
        Strategy::Ordered => first_ordered(i),
    }
}

/// The chopstick philosopher `i` takes second under strategy `st`.
pub open spec fn second_of(st: Strategy, i: int) -> int {
    if first_of(st, i) == i { right_of(i) } else { i }
}

/// Some philosopher who holds its first chopstick holds chopstick `c`.
pub open spec fn held(st: Strategy, holding: Seq<bool>, c: int) -> bool {
    ||| holding[0] && first_of(st, 0) == c
    ||| holding[1] && first_of(st, 1) == c
    ||| holding[2] && first_of(st, 2) == c
    ||| holding[3] && first_of(st, 3) == c
    ||| holding[4] && first_of(st, 4) == c
}

/// Philosopher `i` waits: for its second chopstick if it holds its first,
/// else for its first; and someone else holds what it waits for.
pub open spec fn blocked(st: Strategy, holding: Seq<bool>, i: int) -> bool {
    if holding[i] {
        held(st, holding, second_of(st, i))
    } else {
        held(st, holding, first_of(st, i))
    }
}

/// No chopstick is held by two philosophers.
pub open spec fn owners_distinct(st: Strategy, holding: Seq<bool>) -> bool {
    forall|i: int, j: int|
        0 <= i < j < PHI_NUM && #[trigger] holding[i] && #[trigger] holding[j] ==> first_of(st, i) != first_of(
            st,
            j,
        )
}

/// A deadlock: nobody eats, each philosopher holds at most its first
/// chopstick, each chopstick has one holder, and every philosopher waits for
/// a chopstick that another holds.
pub open spec fn deadlocked(st: Strategy, holding: Seq<bool>) -> bool {
    &&& holding.len() == PHI_NUM
    &&& owners_distinct(st, holding)
    &&& blocked(st, holding, 0)
    &&& blocked(st, holding, 1)
    &&& blocked(st, holding, 2)
    &&& blocked(st, holding, 3)
    &&& blocked(st, holding, 4)
}

/// The plain strategy can deadlock: every philosopher holding its own
/// chopstick and waiting for the next. The asymmetric and the ordered
/// strategies cannot deadlock: no way of holding first chopsticks leaves
/// every philosopher waiting.
pub proof fn law_deadlock_freedom(holding: Seq<bool>)
    ensures
        deadlocked(Strategy::Plain, seq![true, true, true, true, true]),
        !deadlocked(Strategy::Asymmetric, holding),
        !deadlocked(Strategy::Ordered, holding),
{
    let all = seq![true, true, true, true, true];
    assert(owners_distinct(Strategy::Plain, all));
    if holding.len() == PHI_NUM {
        if owners_distinct(Strategy::Asymmetric, holding) {
            assert(holding[0] && holding[1] ==> first_of(Strategy::Asymmetric, 0) != first_of(Strategy::Asymmetric, 1));
        }
        if owners_distinct(Strategy::Ordered, holding) {
            assert(holding[0] && holding[4] ==> first_of(Strategy::Ordered, 0) != first_of(Strategy::Ordered, 4));
        }
    }
}

/// A philosopher whose neighbours are not eating gets both chopsticks from
/// the waiter: in particular, when nobody eats, anyone who asks eats.
pub proof fn law_waiter_progress(used: Seq<bool>, eating: Seq<bool>, i: int)
    requires
        0 <= i < PHI_NUM,
        waiter_consistent(used, eating),
        !eating[i],
        !eating[left_of(i)],
        !eating[right_of(i)],
    ensures
        ask_spec(used, i).1,
{
    lemma_sides(i);
    assert(used[i] == (eating[i] || eating[left_of(i)]));
    assert(used[right_of(i)] == (eating[right_of(i)] || eating[left_of(right_of(i))]));
    lemma_sides(right_of(i));
}

} // verus!
