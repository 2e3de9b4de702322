//! The round-robin scheduling policy, as a mathematical specification.
//!
//! The next task to run is the first `Ready` task found by scanning indices
//! `(current + 1) % n, (current + 2) % n, ...` through all `n` slots. The
//! executable scheduler in the task manager is proved to implement exactly
//! this choice; the fairness lemma below shows that repeated yields visit all
//! tasks in cyclic order.

use vstd::prelude::*;

use crate::task::TaskStatus;

verus! {

/// First `Ready` index at scan offset `off` or later (offsets run from 1 to
/// `n`, wrapping around from the slot after `cur`); `None` if no slot from
/// `off` onward is `Ready`.
pub open spec fn scan_ready(s: Seq<TaskStatus>, cur: int, off: int) -> Option<int>
    recommends
        0 <= cur < s.len(),
        1 <= off,
    decreases s.len() + 1 - off when off <= s.len() + 1
{
    if off > s.len() {
        None
    } else if s[(cur + off) % (s.len() as int)] is Ready {
        Some((cur + off) % (s.len() as int))
    } else {
        scan_ready(s, cur, off + 1)
    }
}

/// The round-robin choice: the first `Ready` task after `cur`, wrapping
/// through all slots (and ending at `cur` itself).
pub open spec fn next_task(s: Seq<TaskStatus>, cur: int) -> Option<int> {
    scan_ready(s, cur, 1)
}

/// If some slot at offset `off` or later is `Ready`, the scan finds one.
pub proof fn lemma_scan_finds(s: Seq<TaskStatus>, cur: int, off: int)
    requires
        0 <= cur < s.len(),
        1 <= off <= s.len(),
        exists|k: int|
            off <= k <= s.len() && s[#[trigger] ((cur + k) % (s.len() as int))] is Ready,
    ensures
        scan_ready(s, cur, off) is Some,
    decreases s.len() + 1 - off,
{
    if !(s[(cur + off) % (s.len() as int)] is Ready) {
        let k = choose|k: int|
            off <= k <= s.len() && s[#[trigger] ((cur + k) % (s.len() as int))] is Ready;
        assert(off + 1 <= k <= s.len());
        lemma_scan_finds(s, cur, off + 1);
    }
}

/// The scheduler state is mid-run: one task (the current one) is `Running`
/// and every other task is `Ready`.
pub open spec fn all_ready_but_current(s: Seq<TaskStatus>, cur: int) -> bool {
    &&& 0 <= cur < s.len()
    &&& s[cur] is Running
    &&& forall|i: int| 0 <= i < s.len() && i != cur ==> (#[trigger] s[i]) is Ready
}

/// Effect of one voluntary yield on the status sequence and current index:
/// the current task becomes `Ready`, the round-robin choice over the updated
/// sequence becomes `Running` and current.
pub open spec fn one_yield(s: Seq<TaskStatus>, cur: int) -> (Seq<TaskStatus>, int)
    recommends
        all_ready_but_current(s, cur),
{
    let s1 = s.update(cur, TaskStatus::Ready);
    let nxt = next_task(s1, cur).unwrap();
    (s1.update(nxt, TaskStatus::Running), nxt)
}

/// State after `k` consecutive yields.
pub open spec fn after_yields(s: Seq<TaskStatus>, cur: int, k: nat) -> (Seq<TaskStatus>, int)
    decreases k,
{
    if k == 0 {
        (s, cur)
    } else {
        let (s1, c1) = one_yield(s, cur);
        after_yields(s1, c1, (k - 1) as nat)
    }
}

/// One yield from an all-ready state hands the processor to the next slot in
/// cyclic order, `(cur + 1) % n`, and re-establishes the all-ready shape.
pub proof fn lemma_yield_step(s: Seq<TaskStatus>, cur: int)
    requires
        all_ready_but_current(s, cur),
    ensures
        one_yield(s, cur).1 == (cur + 1) % (s.len() as int),
        all_ready_but_current(one_yield(s, cur).0, (cur + 1) % (s.len() as int)),
        one_yield(s, cur).0.len() == s.len(),
{
    let n = s.len() as int;
    let s1 = s.update(cur, TaskStatus::Ready);
    assert(s1[(cur + 1) % n] is Ready);
    assert(scan_ready(s1, cur, 1) == Some((cur + 1) % n));
}

/// Round-robin fairness: with `n` tasks all ready (besides the running one),
/// `k` consecutive yields starting from task `cur` leave task
/// `(cur + k) % n` running; so the tasks are visited in the cyclic order
/// `(cur + 1) % n, (cur + 2) % n, ...`.
pub proof fn lemma_round_robin_fairness(s: Seq<TaskStatus>, cur: int, k: nat)
    requires
        all_ready_but_current(s, cur),
    ensures
        after_yields(s, cur, k).1 == (cur + k) % (s.len() as int),
        all_ready_but_current(after_yields(s, cur, k).0, (cur + k) % (s.len() as int)),
        after_yields(s, cur, k).0.len() == s.len(),
    decreases k,
{
    let n = s.len() as int;
    if k == 0 {
        assert(cur % n == cur) by {
            vstd::arithmetic::div_mod::lemma_small_mod(cur as nat, n as nat);
        }
    } else {
        lemma_yield_step(s, cur);
        let (s1, c1) = one_yield(s, cur);
        lemma_round_robin_fairness(s1, c1, (k - 1) as nat);
        assert(((cur + 1) % n + (k - 1)) % n == (cur + k) % n) by {
            vstd::arithmetic::div_mod::lemma_add_mod_noop(cur + 1, k - 1, n);
            vstd::arithmetic::div_mod::lemma_add_mod_noop(cur, 1, n);
            vstd::arithmetic::div_mod::lemma_mod_twice(cur + 1, n);
            vstd::arithmetic::div_mod::lemma_add_mod_noop((cur + 1) % n, k - 1, n);
            vstd::arithmetic::div_mod::lemma_mod_twice(cur + 1 + (k - 1), n);
        }
    }
}

/// Stepping a wrapped index: incrementing `a` steps `a % n` cyclically.
pub proof fn lemma_mod_step(a: int, n: int)
    requires
        n > 0,
        a >= 0,
    ensures
        (a + 1) % n == if (a % n) + 1 == n {
            0int
        } else {
            (a % n) + 1
        },
{
    let q = a / n;
    let r = a % n;
    vstd::arithmetic::div_mod::lemma_fundamental_div_mod(a, n);
    if r + 1 == n {
        assert(a + 1 == (q + 1) * n) by (nonlinear_arith)
            requires
                a == q * n + r,
                r + 1 == n,
        ;
        vstd::arithmetic::div_mod::lemma_mod_multiples_basic(q + 1, n);
    } else {
        assert(a + 1 == n * q + (r + 1)) by (nonlinear_arith)
            requires
                a == q * n + r,
        ;
        vstd::arithmetic::div_mod::lemma_mod_multiples_vanish(q, r + 1, n);
        vstd::arithmetic::div_mod::lemma_small_mod((r + 1) as nat, n as nat);
    }
}

} // verus!
