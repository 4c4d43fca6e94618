//! Runtime model of the elaborated code.
//!
//! The generated implementations execute a mutually recursive call graph:
//! each participant's method adds its own contribution and calls the next
//! participant on the child of its node, a linked structure whose depth
//! drives the logical recursion.  This module gives that execution a
//! mathematical meaning (`eval_direct`, the uncapped mutual recursion), and
//! verifies the two execution disciplines the elaboration emits: the bounded
//! rank chain, which computes the direct result whenever the static fuel
//! budget covers the data and otherwise fails with the recursion limit, and
//! the trampoline, whose lazily installed, write-once slot table extends the
//! bounded chain to data of any depth.

use vstd::prelude::*;

verus! {

broadcast use {vstd::std_specs::vec::group_vec_axioms, vstd::seq::group_seq_axioms};

/// A node of the linked structure the cyclic call graph walks.
pub struct Node {
    pub value: u64,
    pub child: Option<Box<Node>>,
}

/// The number of dependency edges below a node.
pub open spec fn chain_len(n: Node) -> nat
    decreases n,
{
    match n.child {
        Option::None => 0,
        Option::Some(c) => 1 + chain_len(*c),
    }
}

/// One participant group at runtime: per participant, in cycle order, the
/// contribution its method adds to the value of the node it is called on.
pub struct CycleProgram {
    pub offsets: Vec<u64>,
}

/// The participant called after `side`.
pub open spec fn next_side(side: int, k: int) -> int {
    if side + 1 == k {
        0
    } else {
        side + 1
    }
}

/// The uncapped mutual recursion: what a call of participant `side` on a
/// node means, with no rank machinery at all.
pub open spec fn eval_direct(offsets: Seq<u64>, side: int, n: Node) -> int
    decreases n,
{
    n.value + offsets[side] + match n.child {
        Option::None => 0int,
        Option::Some(c) => eval_direct(offsets, next_side(side, offsets.len() as int), *c),
    }
}

/// The direct result is never negative.
pub proof fn lemma_eval_direct_nonneg(offsets: Seq<u64>, side: int, n: Node)
    requires
        0 <= side < offsets.len(),
    ensures
        eval_direct(offsets, side, n) >= 0,
    decreases n,
{
    match n.child {
        Option::None => {},
        Option::Some(c) => {
            lemma_eval_direct_nonneg(offsets, next_side(side, offsets.len() as int), *c);
        },
    }
}

/// A runtime failure of the elaborated code.
#[derive(Clone, Copy, Debug, PartialEq, Eq, Structural)]
pub enum RuntimeError {
    /// Bounded mode: the logical recursion exceeded the static fuel budget.
    RecursionLimitExceeded,
    /// Unbounded mode: a sentinel slot was read before any registration.
    TrampolineUnset,
}

/// The bounded rank chain: each dependency edge consumes one fuel unit, and
/// the sentinel at fuel zero fails unconditionally.
pub open spec fn ranked_eval(offsets: Seq<u64>, side: int, n: Node, fuel: nat) -> Result<
    int,
    RuntimeError,
>
    decreases fuel,
{
    if fuel == 0 {
        Result::Err(RuntimeError::RecursionLimitExceeded)
    } else {
        match n.child {
            Option::None => Result::Ok(n.value + offsets[side]),
            Option::Some(c) => match ranked_eval(
                offsets,
                next_side(side, offsets.len() as int),
                *c,
                (fuel - 1) as nat,
            ) {
                Result::Ok(v) => Result::Ok(n.value + offsets[side] + v),
                Result::Err(e) => Result::Err(e),
            },
        }
    }
}

/// The number of dependency edges the ranked chain traverses before it
/// reaches a result.
pub open spec fn ranked_edges(offsets: Seq<u64>, side: int, n: Node, fuel: nat) -> nat
    decreases fuel,
{
    if fuel == 0 {
        0
    } else {
        match n.child {
            Option::None => 0,
            Option::Some(c) => 1 + ranked_edges(
                offsets,
                next_side(side, offsets.len() as int),
                *c,
                (fuel - 1) as nat,
            ),
        }
    }
}

/// Termination bound: whatever the data — however many nodes, however deep
/// the logical recursion — the ranked chain traverses at most `fuel`
/// dependency edges before it reaches a result.  The static search the
/// resolver performs is the same unfolding, so a budget of `B` bounds it by
/// `B` edge traversals.
pub proof fn lemma_termination_bound(offsets: Seq<u64>, side: int, n: Node, fuel: nat)
    ensures
        ranked_edges(offsets, side, n, fuel) <= fuel,
    decreases fuel,
{
    if fuel > 0 {
        match n.child {
            Option::None => {},
            Option::Some(c) => {
                lemma_termination_bound(
                    offsets,
                    next_side(side, offsets.len() as int),
                    *c,
                    (fuel - 1) as nat,
                );
            },
        }
    }
}

/// Transparency of the delegating layer in bounded mode: whenever the fuel
/// budget exceeds the chain length, the fully unrolled ranked chain at the
/// initial rank computes exactly the uncapped direct recursion; and whenever
/// it does not, the chain reports the recursion limit rather than a wrong
/// value.  A call through the original, unranked interface is the ranked
/// chain at the initial rank, so it is observationally the direct call.
pub proof fn lemma_transparency(offsets: Seq<u64>, side: int, n: Node, fuel: nat)
    requires
        0 <= side < offsets.len(),
    ensures
        chain_len(n) < fuel ==> ranked_eval(offsets, side, n, fuel) == Result::<
            int,
            RuntimeError,
        >::Ok(eval_direct(offsets, side, n)),
        chain_len(n) >= fuel ==> ranked_eval(offsets, side, n, fuel) == Result::<
            int,
            RuntimeError,
        >::Err(RuntimeError::RecursionLimitExceeded),
    decreases fuel,
{
    if fuel > 0 {
        match n.child {
            Option::None => {},
            Option::Some(c) => {
                lemma_transparency(
                    offsets,
                    next_side(side, offsets.len() as int),
                    *c,
                    (fuel - 1) as nat,
                );
            },
        }
    }
}

/// Executes one call in bounded mode: the ranked chain with the given fuel.
pub fn eval_bounded(prog: &CycleProgram, side: usize, node: &Node, fuel: usize) -> (r: Result<
    u64,
    RuntimeError,
>)
    requires
        side < prog.offsets@.len(),
        eval_direct(prog.offsets@, side as int, *node) <= u64::MAX,
    ensures
        chain_len(*node) < fuel ==> r == Result::<u64, RuntimeError>::Ok(
            eval_direct(prog.offsets@, side as int, *node) as u64,
        ),
        chain_len(*node) >= fuel ==> r == Result::<u64, RuntimeError>::Err(
            RuntimeError::RecursionLimitExceeded,
        ),
    decreases fuel,
{
    if fuel == 0 {
        return Err(RuntimeError::RecursionLimitExceeded);
    }
    proof {
        lemma_eval_direct_nonneg(prog.offsets@, side as int, *node);
    }
    match &node.child {
        Option::None => Ok(node.value + prog.offsets[side]),
        Option::Some(c) => {
            let k = prog.offsets.len();
            let next = if side + 1 == k {
                0
            } else {
                side + 1
            };
            proof {
                lemma_eval_direct_nonneg(prog.offsets@, next as int, **c);
            }
            match eval_bounded(prog, next, &**c, fuel - 1) {
                Ok(v) => Ok(node.value + prog.offsets[side] + v),
                Err(e) => Err(e),
            }
        },
    }
}

/// A call through the original, unranked interface name: the delegating
/// implementation forwards to the ranked chain at the initial, maximal rank.
pub fn call_unranked(prog: &CycleProgram, side: usize, node: &Node, budget: usize) -> (r: Result<
    u64,
    RuntimeError,
>)
    requires
        side < prog.offsets@.len(),
        eval_direct(prog.offsets@, side as int, *node) <= u64::MAX,
    ensures
        chain_len(*node) < budget ==> r == Result::<u64, RuntimeError>::Ok(
            eval_direct(prog.offsets@, side as int, *node) as u64,
        ),
        chain_len(*node) >= budget ==> r == Result::<u64, RuntimeError>::Err(
            RuntimeError::RecursionLimitExceeded,
        ),
{
    eval_bounded(prog, side, node, budget)
}

/// The sides that will register their entry points before the chain next
/// reaches a sentinel: the calling side and the `fuel - 1` sides after it in
/// cycle order.
pub open spec fn window(side: int, fuel: nat, k: int) -> Set<int>
    decreases fuel,
{
    if fuel == 0 {
        Set::empty()
    } else {
        window(next_side(side, k), (fuel - 1) as nat, k).insert(side)
    }
}

/// Every side either registers before the next sentinel or is already
/// installed: the condition under which no sentinel read can find its slot
/// empty.
pub open spec fn covered(slots: Seq<Option<u64>>, side: int, fuel: nat, k: int) -> bool {
    forall|j: int|
        0 <= j < k ==> window(side, fuel, k).contains(j) || (#[trigger] slots[j]) is Some
}

/// The slot table invariant: one slot per participant; an installed slot
/// holds the canonical entry point of its own key — every legal writer for a
/// key installs the same logical entry point — and with a zero budget no
/// writer exists, so no slot is installed.
pub open spec fn tramp_inv(slots: Seq<Option<u64>>, k: int, budget: nat) -> bool {
    &&& slots.len() == k
    &&& forall|j: int|
        0 <= j < k && (#[trigger] slots[j]) is Some ==> slots[j] == Some(j as u64)
    &&& budget == 0 ==> forall|j: int| 0 <= j < k ==> (#[trigger] slots[j]) is None
}

/// The window from `side` holds the next `fuel` sides up to the end of the
/// cycle, and once it wraps it holds the window from the start of the cycle.
proof fn lemma_window_span(side: int, fuel: nat, k: int)
    requires
        0 <= side < k,
    ensures
        forall|j: int| side <= j < side + fuel && j < k ==> window(side, fuel, k).contains(j),
        side + fuel > k ==> forall|j: int|
            window(0, (fuel - (k - side)) as nat, k).contains(j) ==> window(
                side,
                fuel,
                k,
            ).contains(j),
    decreases fuel,
{
    if fuel > 0 {
        if side + 1 == k {
            lemma_window_span(0, (fuel - 1) as nat, k);
            assert forall|j: int| side <= j < side + fuel && j < k implies window(
                side,
                fuel,
                k,
            ).contains(j) by {
                assert(j == side);
            }
        } else {
            lemma_window_span(side + 1, (fuel - 1) as nat, k);
            assert forall|j: int| side <= j < side + fuel && j < k implies window(
                side,
                fuel,
                k,
            ).contains(j) by {
                if j > side {
                    assert(window(side + 1, (fuel - 1) as nat, k).contains(j));
                }
            }
            if side + fuel > k {
                assert forall|j: int|
                    window(0, (fuel - (k - side)) as nat, k).contains(j) implies window(
                    side,
                    fuel,
                    k,
                ).contains(j) by {
                    assert(window(side + 1, (fuel - 1) as nat, k).contains(j));
                }
            }
        }
    }
}

/// With fuel at least the length of the cycle, the window holds every side:
/// a cold start with a budget of at least the number of participants warms
/// every slot before any sentinel is consulted.
proof fn lemma_window_all(side: int, fuel: nat, k: int)
    requires
        0 <= side < k,
        fuel >= k,
    ensures
        forall|j: int| 0 <= j < k ==> window(side, fuel, k).contains(j),
{
    lemma_window_span(side, fuel, k);
    assert forall|j: int| 0 <= j < k implies window(side, fuel, k).contains(j) by {
        if j >= side {
        } else {
            lemma_window_span(0, (fuel - (k - side)) as nat, k);
        }
    }
}

/// Executes one call in unbounded mode.  Every non-sentinel frame first
/// installs its own entry point in its slot — a write-once registration that
/// is a no-op when the slot is already filled — and then runs its body; the
/// sentinel at fuel zero reads the slot of its own key and, when it is
/// warm, re-enters the installed entry point at the initial rank, failing
/// only on a cold read.
///
/// The contract carries the trampoline's laws: slots are installed at most
/// once and never change once installed; every installed slot holds the
/// canonical entry point of its key, so repeated invocations observe the
/// same entry point; and whenever every sentinel read is warm — in
/// particular from any start once the registration window covers the cycle —
/// the call returns exactly the value of the uncapped direct recursion.
pub fn eval_tramp(
    prog: &CycleProgram,
    side: usize,
    node: &Node,
    fuel: usize,
    budget: usize,
    slots: &mut Vec<Option<u64>>,
) -> (r: Result<u64, RuntimeError>)
    requires
        side < prog.offsets@.len(),
        fuel <= budget,
        tramp_inv(old(slots)@, prog.offsets@.len() as int, budget as nat),
        eval_direct(prog.offsets@, side as int, *node) <= u64::MAX,
    ensures
        tramp_inv(final(slots)@, prog.offsets@.len() as int, budget as nat),
        forall|j: int|
            0 <= j < prog.offsets@.len() && (#[trigger] old(slots)@[j]) is Some ==> final(slots)@[j] == old(slots)@[j],
        r is Ok ==> r == Result::<u64, RuntimeError>::Ok(
            eval_direct(prog.offsets@, side as int, *node) as u64,
        ),
        (covered(old(slots)@, side as int, fuel as nat, prog.offsets@.len() as int) && (fuel >= 1
            || old(slots)@[side as int] is Some)) ==> r is Ok,
        budget == 0 ==> r == Result::<u64, RuntimeError>::Err(RuntimeError::TrampolineUnset),
    decreases chain_len(*node), (if fuel == 0 { 1int } else { 0int }),
{
    let k = prog.offsets.len();
    let ghost ko = prog.offsets@.len() as int;
    if fuel == 0 {
        if budget == 0 {
            return Err(RuntimeError::TrampolineUnset);
        }
        let warm = match slots[side] {
            Option::Some(_) => true,
            Option::None => false,
        };
        if !warm {
            return Err(RuntimeError::TrampolineUnset);
        }
        // The installed entry point of this key is the initial-rank chain of
        // this same participant: re-enter it with full fuel.
        proof {
            if covered(old(slots)@, side as int, 0, ko) {
                assert forall|j: int| 0 <= j < ko implies window(
                    side as int,
                    budget as nat,
                    ko,
                ).contains(j) || (#[trigger] old(slots)@[j]) is Some by {
                    assert(!window(side as int, 0, ko).contains(j));
                }
            }
        }
        return eval_tramp(prog, side, node, budget, budget, slots);
    }
    // Write-once registration of this frame's own entry point.
    let empty = match slots[side] {
        Option::Some(_) => false,
        Option::None => true,
    };
    if empty {
        slots.set(side, Some(side as u64));
    }
    let ghost mid = slots@;
    proof {
        lemma_eval_direct_nonneg(prog.offsets@, side as int, *node);
        assert forall|j: int|
            0 <= j < ko && (#[trigger] old(slots)@[j]) is Some implies mid[j] == old(
            slots,
        )@[j] by {}
    }
    match &node.child {
        Option::None => Ok(node.value + prog.offsets[side]),
        Option::Some(c) => {
            let next = if side + 1 == k {
                0
            } else {
                side + 1
            };
            proof {
                lemma_eval_direct_nonneg(prog.offsets@, next as int, **c);
                if covered(old(slots)@, side as int, fuel as nat, ko) {
                    assert forall|j: int| 0 <= j < ko implies window(
                        next as int,
                        (fuel - 1) as nat,
                        ko,
                    ).contains(j) || (#[trigger] mid[j]) is Some by {
                        if old(slots)@[j] is Some {
                            assert(mid[j] is Some);
                        } else {
                            assert(window(side as int, fuel as nat, ko).contains(j));
                            if j == side as int {
                                assert(mid[j] is Some);
                            } else {
                                assert(window(next as int, (fuel - 1) as nat, ko).contains(j));
                            }
                        }
                    }
                }
            }
            match eval_tramp(prog, next, &**c, fuel - 1, budget, slots) {
                Ok(v) => Ok(node.value + prog.offsets[side] + v),
                Err(e) => Err(e),
            }
        },
    }
}

/// A call through the original, unranked interface name in unbounded mode:
/// the delegating implementation enters the ranked chain at the initial
/// rank, with the process-wide slot table threaded through.  With a budget
/// of at least the number of participants, even a cold start computes
/// exactly the uncapped direct recursion, however deep the data: the static
/// unrolling stops at the budget, and every further logical layer runs
/// through the trampoline.
pub fn call_cyclic(
    prog: &CycleProgram,
    side: usize,
    node: &Node,
    budget: usize,
    slots: &mut Vec<Option<u64>>,
) -> (r: Result<u64, RuntimeError>)
    requires
        side < prog.offsets@.len(),
        tramp_inv(old(slots)@, prog.offsets@.len() as int, budget as nat),
        eval_direct(prog.offsets@, side as int, *node) <= u64::MAX,
    ensures
        tramp_inv(final(slots)@, prog.offsets@.len() as int, budget as nat),
        forall|j: int|
            0 <= j < prog.offsets@.len() && (#[trigger] old(slots)@[j]) is Some ==> final(slots)@[j] == old(slots)@[j],
        budget >= prog.offsets@.len() ==> r == Result::<u64, RuntimeError>::Ok(
            eval_direct(prog.offsets@, side as int, *node) as u64,
        ),
        budget == 0 ==> r == Result::<u64, RuntimeError>::Err(RuntimeError::TrampolineUnset),
{
    proof {
        if budget >= prog.offsets@.len() {
            lemma_window_all(side as int, budget as nat, prog.offsets@.len() as int);
        }
    }
    eval_tramp(prog, side, node, budget, budget, slots)
}

/// A fresh, empty slot table for a group of `k` participants.
pub fn new_slot_table(k: usize) -> (slots: Vec<Option<u64>>)
    ensures
        slots@.len() == k,
        forall|j: int| 0 <= j < k ==> (#[trigger] slots@[j]) is None,
{
    let mut slots: Vec<Option<u64>> = Vec::new();
    let mut i: usize = 0;
    while i < k
        invariant
            i <= k,
            slots@.len() == i,
            forall|j: int| 0 <= j < i ==> (#[trigger] slots@[j]) is None,
        decreases k - i,
    {
        slots.push(None);
        i += 1;
    }
    slots
}

} // verus!
