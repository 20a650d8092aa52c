//! Guests that loop: a body of instructions that run straight through, then
//! a suspension, then a jump back to the start.
//!
//! This is the shape of every guest that draws frames, and what is proved
//! of it here is what a host relies on: each tick takes the guest through
//! exactly one iteration, and hands the host exactly the calls of that
//! iteration.

use crate::error::RuntimeError;
use crate::exchange::{lemma_messages_reach_host, weight, ExchangeView};
use crate::executor::{present, ExecutorView, Machine, Status, Step};
use crate::protocol::{lemma_frame_round_trip, CallView, TAG_PRESENT};
use crate::routine::OpView;
use crate::sandbox::{decoded, SandboxView};
use crate::state::StateView;
use vstd::prelude::*;

verus! {

/// Whether an instruction does its work and lets the routine go on with the
/// next one.
pub open spec fn plain(op: OpView) -> bool {
    op is Count || op is Recv || op is Emit
}

/// The loop around `body`: the body, the suspension, and the jump back.
pub open spec fn looping(body: Seq<OpView>, suspend: OpView) -> Seq<OpView> {
    body + seq![suspend, OpView::Jump(0)]
}

/// How often `body` adds one to the counter.
pub open spec fn counts(body: Seq<OpView>) -> nat
    decreases body.len(),
{
    if body.len() == 0 {
        0
    } else if body.last() is Count {
        counts(body.drop_last()) + 1
    } else {
        counts(body.drop_last())
    }
}

/// The messages that `body` leaves for the host, in order.
pub open spec fn emitted(body: Seq<OpView>) -> Seq<Seq<u8>>
    decreases body.len(),
{
    if body.len() == 0 {
        Seq::empty()
    } else {
        match body.last() {
            OpView::Emit(message) => emitted(body.drop_last()).push(message),
            _ => emitted(body.drop_last()),
        }
    }
}

/// The messages of one iteration: those of the body, and the one that ends
/// the frame if the loop suspends by ending a frame.
pub open spec fn yield_of(body: Seq<OpView>, suspend: OpView) -> Seq<Seq<u8>> {
    if suspend == OpView::Frame {
        emitted(body).push(present())
    } else {
        emitted(body)
    }
}

/// Whether the loop around `body` can run under this memory limit and
/// budget: the body runs straight through, the loop suspends, one
/// iteration's messages fit into memory, and the budget covers one
/// iteration.
pub open spec fn runs_freely(body: Seq<OpView>, suspend: OpView, limit: nat, budget: u64) -> bool {
    &&& forall|i: int| 0 <= i < body.len() ==> plain(#[trigger] body[i])
    &&& suspend == OpView::Halt || suspend == OpView::Frame
    &&& weight(yield_of(body, suspend)) <= limit <= u64::MAX
    &&& budget >= body.len() + 2
}

/// The guest in the middle of an iteration that it began with its counter
/// at `c`: it has run the first `i` instructions of the body.
pub open spec fn midway(body: Seq<OpView>, suspend: OpView, limit: nat, c: nat, i: nat) -> Machine {
    Machine {
        executor: ExecutorView {
            routine: looping(body, suspend),
            pc: i,
            status: Status::Running,
            finished: false,
            counter: (c + counts(body.take(i as int))) as u64,
        },
        exchange: ExchangeView::empty(limit).post_all(emitted(body.take(i as int))),
    }
}

/// An instance whose guest runs the loop around `body` and rests after `k`
/// iterations.
pub open spec fn rested(
    v: SandboxView,
    body: Seq<OpView>,
    suspend: OpView,
    limit: nat,
    k: nat,
    elapsed: u64,
) -> SandboxView {
    SandboxView {
        guest: StateView {
            tick: k as u64,
            runtime: (k * elapsed) as u64,
            machine: Machine {
                executor: ExecutorView {
                    routine: looping(body, suspend),
                    pc: if k == 0 {
                        0
                    } else {
                        body.len() + 1
                    },
                    status: Status::Suspended,
                    finished: false,
                    counter: (k * counts(body)) as u64,
                },
                exchange: ExchangeView::empty(limit),
            },
        },
        ..v
    }
}

/// A part of the body counts and weighs no more than the whole.
proof fn lemma_part_of_body(body: Seq<OpView>, i: nat)
    requires
        i <= body.len(),
    ensures
        counts(body.take(i as int)) <= counts(body),
        weight(emitted(body.take(i as int))) <= weight(emitted(body)),
    decreases body.len() - i,
{
    if i == body.len() {
        assert(body.take(i as int) =~= body);
    } else {
        lemma_part_of_body(body, i + 1);
        lemma_next_of_body(body, i);
    }
}

/// What one more instruction of the body adds to its count and to its
/// messages.
proof fn lemma_next_of_body(body: Seq<OpView>, i: nat)
    requires
        i < body.len(),
    ensures
        counts(body.take((i + 1) as int)) == counts(body.take(i as int)) + if body[i as int] is Count {
            1nat
        } else {
            0nat
        },
        emitted(body.take((i + 1) as int)) == match body[i as int] {
            OpView::Emit(message) => emitted(body.take(i as int)).push(message),
            _ => emitted(body.take(i as int)),
        },
        weight(emitted(body.take((i + 1) as int))) == weight(emitted(body.take(i as int))) + match body[i as int] {
            OpView::Emit(message) => message.len(),
            _ => 0nat,
        },
{
    let longer = body.take((i + 1) as int);
    assert(longer.drop_last() =~= body.take(i as int));
    assert(longer.last() == body[i as int]);
    match body[i as int] {
        OpView::Emit(message) => {
            let messages = emitted(body.take(i as int)).push(message);
            assert(messages.drop_last() =~= emitted(body.take(i as int)));
        },
        _ => {},
    }
}

/// The body runs straight through: from wherever the guest is in it, it
/// gets to its end without suspending or faulting, one instruction at a
/// time.
proof fn lemma_body_runs(
    body: Seq<OpView>,
    suspend: OpView,
    limit: nat,
    c: nat,
    i: nat,
    fuel: nat,
)
    requires
        forall|j: int| 0 <= j < body.len() ==> plain(#[trigger] body[j]),
        i <= body.len(),
        c + counts(body) <= u64::MAX,
        weight(emitted(body)) <= limit <= u64::MAX,
        fuel >= body.len() - i,
    ensures
        midway(body, suspend, limit, c, i).run_on(fuel) == midway(
            body,
            suspend,
            limit,
            c,
            body.len(),
        ).run_on((fuel - (body.len() - i)) as nat),
    decreases body.len() - i,
{
    if i < body.len() {
        let here = midway(body, suspend, limit, c, i);
        let next = midway(body, suspend, limit, c, i + 1);
        lemma_next_of_body(body, i);
        lemma_part_of_body(body, i);
        lemma_part_of_body(body, i + 1);
        lemma_messages_reach_host(limit, emitted(body.take(i as int)));
        assert(looping(body, suspend)[i as int] == body[i as int]);
        assert(plain(body[i as int]));
        match body[i as int] {
            OpView::Emit(message) => {
                let messages = emitted(body.take(i as int)).push(message);
                assert(messages.drop_last() =~= emitted(body.take(i as int)));
                assert(here.exchange.post(message) == next.exchange);
            },
            _ => {},
        }
        assert(here.step() == Step::Continue(next));
        lemma_body_runs(body, suspend, limit, c, i + 1, (fuel - 1) as nat);
    }
}

/// One tick takes a resting loop through exactly one iteration and hands
/// the host the calls of that iteration.
proof fn lemma_loop_tick(
    v: SandboxView,
    body: Seq<OpView>,
    suspend: OpView,
    limit: nat,
    k: nat,
    elapsed: u64,
)
    requires
        v.fault is None,
        runs_freely(body, suspend, limit, v.budget),
        k < u64::MAX,
        (k + 1) * counts(body) <= u64::MAX,
        (k + 1) * elapsed <= u64::MAX,
    ensures
        rested(v, body, suspend, limit, k, elapsed).run_tick(elapsed) == (
            rested(v, body, suspend, limit, k + 1, elapsed),
            Ok::<Seq<CallView>, RuntimeError>(decoded(yield_of(body, suspend))),
        ),
{
    let before = rested(v, body, suspend, limit, k, elapsed);
    let n = body.len();
    let c = k * counts(body);
    let routine = looping(body, suspend);
    let budget = v.budget as nat;
    assert(k * elapsed <= (k + 1) * elapsed) by (nonlinear_arith);
    assert((k + 1) * elapsed == k * elapsed + elapsed) by (nonlinear_arith);
    assert((k + 1) * counts(body) == k * counts(body) + counts(body)) by (nonlinear_arith);
    assert(before.guest.can_tick(elapsed));
    assert(present().len() == 9) by {
        lemma_frame_round_trip(TAG_PRESENT, Seq::empty());
    }
    assert(weight(emitted(body)) <= weight(yield_of(body, suspend))) by {
        if suspend == OpView::Frame {
            assert(yield_of(body, suspend).drop_last() =~= emitted(body));
        }
    }
    // From rest to the start of the body.
    let start = Machine {
        executor: ExecutorView { status: Status::Running, ..before.guest.machine.executor },
        exchange: ExchangeView::empty(limit),
    };
    let at_start = midway(body, suspend, limit, c, 0);
    assert(body.take(0) =~= Seq::<OpView>::empty());
    assert(at_start.exchange == ExchangeView::empty(limit));
    let fuel: nat = if k == 0 {
        budget
    } else {
        (budget - 1) as nat
    };
    if k == 0 {
        assert(0 * counts(body) == 0) by (nonlinear_arith);
        assert(start == at_start);
    } else {
        assert(routine[(n + 1) as int] == OpView::Jump(0));
        assert(start.step() == Step::Continue(at_start));
    }
    assert(start.run_on(budget) == at_start.run_on(fuel));
    // Through the body.
    lemma_body_runs(body, suspend, limit, c, 0, fuel);
    let at_end = midway(body, suspend, limit, c, n);
    assert(body.take(n as int) =~= body);
    assert(routine[n as int] == suspend);
    // Through the suspension.
    let ran = ExchangeView::empty(limit).post_all(emitted(body));
    lemma_messages_reach_host(limit, emitted(body));
    let left = ExchangeView::empty(limit).post_all(yield_of(body, suspend));
    let resting = ExecutorView {
        pc: n + 1,
        status: Status::Suspended,
        ..at_end.executor
    };
    if suspend == OpView::Frame {
        assert(yield_of(body, suspend).drop_last() =~= emitted(body));
        assert(left == ran.post(present()));
        assert(at_end.step() == Step::Suspend(Machine { executor: resting, exchange: left }));
    } else {
        assert(at_end.step() == Step::Suspend(Machine { executor: resting, exchange: left }));
    }
    assert(at_end.run_on((fuel - n) as nat) == (
        Machine { executor: resting, exchange: left },
        Ok::<(), crate::error::Trap>(()),
    ));
    // What the host collects.
    lemma_messages_reach_host(limit, yield_of(body, suspend));
}

/// Tick after tick, the loop goes through one iteration per tick.
proof fn lemma_loop_ticks(
    v: SandboxView,
    body: Seq<OpView>,
    suspend: OpView,
    limit: nat,
    n: nat,
    elapsed: u64,
)
    requires
        v.fault is None,
        v.guest == StateView::start(looping(body, suspend), limit),
        runs_freely(body, suspend, limit, v.budget),
        n <= u64::MAX,
        n * counts(body) <= u64::MAX,
        n * elapsed <= u64::MAX,
    ensures
        v.after_ticks(n, elapsed) == rested(v, body, suspend, limit, n, elapsed),
    decreases n,
{
    if n == 0 {
        assert(0 * elapsed == 0) by (nonlinear_arith);
        assert(0 * counts(body) == 0) by (nonlinear_arith);
        assert(v == rested(v, body, suspend, limit, 0, elapsed));
    } else {
        assert((n - 1) * elapsed <= n * elapsed) by (nonlinear_arith);
        assert((n - 1) * counts(body) <= n * counts(body)) by (nonlinear_arith);
        lemma_loop_ticks(v, body, suspend, limit, (n - 1) as nat, elapsed);
        lemma_loop_tick(v, body, suspend, limit, (n - 1) as nat, elapsed);
    }
}

/// One iteration per tick, not more, not less. A guest that adds one to its
/// counter once in each iteration, and gives control back once in each
/// iteration, has counted to `n` after `n` ticks, whatever else it does on
/// the way and whether it gives control back bare or by ending a frame.
pub proof fn lemma_one_iteration_per_tick(
    v: SandboxView,
    body: Seq<OpView>,
    suspend: OpView,
    limit: nat,
    n: nat,
    elapsed: u64,
)
    requires
        v.fault is None,
        v.guest == StateView::start(looping(body, suspend), limit),
        runs_freely(body, suspend, limit, v.budget),
        counts(body) == 1,
        n <= u64::MAX,
        n * elapsed <= u64::MAX,
    ensures
        v.after_ticks(n, elapsed).guest.machine.executor.counter == n,
        v.after_ticks(n, elapsed).guest.tick == n,
        v.after_ticks(n, elapsed).fault is None,
        v.after_ticks(n, elapsed).guest.machine.executor.status == Status::Suspended,
{
    assert(n * counts(body) == n) by (nonlinear_arith)
        requires
            counts(body) == 1,
    ;
    lemma_loop_ticks(v, body, suspend, limit, n, elapsed);
}

/// Every tick hands the host the calls of one iteration: all of them, in
/// the order the guest made them, and none of any other iteration.
/// However many ticks went before, the next one succeeds and yields what
/// the messages of one iteration decode to.
pub proof fn lemma_every_tick_yields_one_iteration(
    v: SandboxView,
    body: Seq<OpView>,
    suspend: OpView,
    limit: nat,
    k: nat,
    elapsed: u64,
)
    requires
        v.fault is None,
        v.guest == StateView::start(looping(body, suspend), limit),
        runs_freely(body, suspend, limit, v.budget),
        k < u64::MAX,
        (k + 1) * counts(body) <= u64::MAX,
        (k + 1) * elapsed <= u64::MAX,
    ensures
        v.after_ticks(k, elapsed).run_tick(elapsed).1 == Ok::<Seq<CallView>, RuntimeError>(
            decoded(yield_of(body, suspend)),
        ),
{
    assert(k * elapsed <= (k + 1) * elapsed) by (nonlinear_arith);
    assert(k * counts(body) <= (k + 1) * counts(body)) by (nonlinear_arith);
    lemma_loop_ticks(v, body, suspend, limit, k, elapsed);
    lemma_loop_tick(v, body, suspend, limit, k, elapsed);
}

} // verus!
