//! The cooperative executor: it owns the guest's single routine and advances
//! it one step at a time, from one suspension point to the next.
//!
//! Nothing interrupts a step. It ends when the routine suspends, when the
//! routine is over, when it faults, or when it has used up the budget that
//! the host allows it.

use crate::error::Trap;
use crate::exchange::{Exchange, ExchangeView};
use crate::protocol::{encode_call, Call, CallView};
use crate::routine::{jumps_land, Op, OpView, Routine};
use crate::wire::{
    lemma_read_word, lemma_word_canonical, put_word, read_byte, read_word, word, Reader,
};
use vstd::prelude::*;

verus! {

/// Where the routine stands between the host's calls.
#[derive(Clone, Copy, Debug, PartialEq, Eq, Structural)]
pub enum Status {
    /// The routine has given control back and waits for the next tick.
    Suspended,
    /// The routine is being advanced. Between the host's calls this is seen
    /// only after a step that faulted.
    Running,
}

/// What an `Executor` is, mathematically.
pub struct ExecutorView {
    /// The routine's instructions.
    pub routine: Seq<OpView>,
    /// The index of the instruction the routine goes on with.
    pub pc: nat,
    pub status: Status,
    /// Whether the routine is over.
    pub finished: bool,
    /// The routine's counter.
    pub counter: u64,
}

impl ExecutorView {
    /// The routine's jumps land, and so does the place it goes on at.
    pub open spec fn wf(self) -> bool {
        self.pc <= self.routine.len() && jumps_land(self.routine)
    }

    /// A routine that has not run yet.
    pub open spec fn fresh(routine: Seq<OpView>) -> ExecutorView {
        ExecutorView { routine, pc: 0, status: Status::Suspended, finished: false, counter: 0 }
    }

    /// The routine after it went past the instruction at `pc`.
    pub open spec fn advanced(self) -> ExecutorView {
        ExecutorView { pc: self.pc + 1, ..self }
    }

    /// The routine after it gave control back.
    pub open spec fn halted(self) -> ExecutorView {
        ExecutorView { status: Status::Suspended, ..self }
    }

    /// The routine after it ended.
    pub open spec fn ended(self) -> ExecutorView {
        ExecutorView { status: Status::Suspended, finished: true, ..self }
    }
}

/// The guest as a whole: its routine and what it shares with the host.
pub struct Machine {
    pub executor: ExecutorView,
    pub exchange: ExchangeView,
}

/// What one instruction leads to.
pub enum Step {
    /// The routine goes on.
    Continue(Machine),
    /// The routine gave control back, or ended.
    Suspend(Machine),
    /// The instruction faulted and changed nothing.
    Fault(Trap),
}

/// The message that announces a complete frame.
pub open spec fn present() -> Seq<u8> {
    encode_call(CallView::Present)
}

impl Machine {
    /// Both halves are well-formed.
    pub open spec fn wf(self) -> bool {
        self.executor.wf() && self.exchange.wf()
    }

    /// Executes the instruction at `pc`.
    pub open spec fn step(self) -> Step
        recommends
            self.executor.pc < self.executor.routine.len(),
    {
        let executor = self.executor;
        let exchange = self.exchange;
        match executor.routine[executor.pc as int] {
            OpView::End => Step::Suspend(Machine { executor: executor.ended(), exchange }),
            OpView::Halt => Step::Suspend(Machine { executor: executor.advanced().halted(), exchange }),
            OpView::Frame => if exchange.has_room(present().len()) {
                Step::Suspend(
                    Machine { executor: executor.advanced().halted(), exchange: exchange.post(present()) },
                )
            } else {
                Step::Fault(Trap::OutOfMemory)
            },
            OpView::Count => if executor.counter < u64::MAX {
                Step::Continue(
                    Machine {
                        executor: ExecutorView { counter: (executor.counter + 1) as u64, ..executor.advanced() },
                        exchange,
                    },
                )
            } else {
                Step::Fault(Trap::Overflow)
            },
            OpView::Recv => Step::Continue(
                Machine {
                    executor: executor.advanced(),
                    exchange: if exchange.responses.len() > 0 {
                        exchange.take()
                    } else {
                        exchange
                    },
                },
            ),
            OpView::Jump(target) => Step::Continue(
                Machine { executor: ExecutorView { pc: target as nat, ..executor }, exchange },
            ),
            OpView::Emit(bytes) => if exchange.has_room(bytes.len()) {
                Step::Continue(Machine { executor: executor.advanced(), exchange: exchange.post(bytes) })
            } else {
                Step::Fault(Trap::OutOfMemory)
            },
            OpView::Abort => Step::Fault(Trap::Aborted),
        }
    }

    /// Executes instructions until the routine suspends, ends or faults, or
    /// until `fuel` instructions have been executed. Running off the end of
    /// the routine ends it.
    pub open spec fn run_on(self, fuel: nat) -> (Machine, Result<(), Trap>)
        decreases fuel,
    {
        if self.executor.pc >= self.executor.routine.len() {
            (Machine { executor: self.executor.ended(), exchange: self.exchange }, Ok(()))
        } else if fuel == 0 {
            (self, Err(Trap::BudgetExhausted))
        } else {
            match self.step() {
                Step::Continue(next) => next.run_on((fuel - 1) as nat),
                Step::Suspend(next) => (next, Ok(())),
                Step::Fault(trap) => (self, Err(trap)),
            }
        }
    }

    /// One step of the guest: from where the routine was suspended to where
    /// it suspends next. A routine that is over stays as it is. A routine
    /// that was left in the middle of a faulted step cannot be advanced.
    pub open spec fn run(self, budget: u64) -> (Machine, Result<(), Trap>) {
        if self.executor.finished {
            (self, Ok(()))
        } else if self.executor.status == Status::Running {
            (self, Err(Trap::NotSuspended))
        } else {
            (Machine {
                executor: ExecutorView { status: Status::Running, ..self.executor },
                exchange: self.exchange,
            }).run_on(budget as nat)
        }
    }
}

/// No instruction rewrites the routine or moves the memory limit.
pub proof fn lemma_step_keeps_shape(m: Machine)
    requires
        m.executor.pc < m.executor.routine.len(),
    ensures
        match m.step() {
            Step::Continue(next) | Step::Suspend(next) => {
                &&& next.executor.routine == m.executor.routine
                &&& next.exchange.memory.limit == m.exchange.memory.limit
            },
            Step::Fault(_) => true,
        },
{
}

/// However long the routine runs, it stays the same routine under the same
/// memory limit.
pub proof fn lemma_run_on_keeps_shape(m: Machine, fuel: nat)
    ensures
        m.run_on(fuel).0.executor.routine == m.executor.routine,
        m.run_on(fuel).0.exchange.memory.limit == m.exchange.memory.limit,
    decreases fuel,
{
    if m.executor.pc < m.executor.routine.len() && fuel > 0 {
        lemma_step_keeps_shape(m);
        match m.step() {
            Step::Continue(next) => {
                lemma_run_on_keeps_shape(next, (fuel - 1) as nat);
            },
            _ => {},
        }
    }
}

/// A step leaves the routine and the memory limit as they were.
pub proof fn lemma_run_keeps_shape(m: Machine, budget: u64)
    ensures
        m.run(budget).0.executor.routine == m.executor.routine,
        m.run(budget).0.exchange.memory.limit == m.exchange.memory.limit,
{
    lemma_run_on_keeps_shape(
        Machine {
            executor: ExecutorView { status: Status::Running, ..m.executor },
            exchange: m.exchange,
        },
        budget as nat,
    );
}

impl ExecutorView {
    /// The routine rests at a suspension point: it is suspended right behind
    /// the instruction that gave control back.
    pub open spec fn rests_at_suspension(self) -> bool {
        &&& self.status == Status::Suspended
        &&& 0 < self.pc <= self.routine.len()
        &&& self.routine[self.pc - 1] == OpView::Halt || self.routine[self.pc - 1] == OpView::Frame
    }
}

/// Wherever the routine runs from, a run that succeeds ends at a suspension
/// point or with the routine over.
proof fn lemma_run_on_ends_at_suspension(m: Machine, fuel: nat)
    requires
        m.run_on(fuel).1 is Ok,
    ensures
        m.run_on(fuel).0.executor.status == Status::Suspended,
        m.run_on(fuel).0.executor.finished || m.run_on(fuel).0.executor.rests_at_suspension(),
    decreases fuel,
{
    if m.executor.pc < m.executor.routine.len() && fuel > 0 {
        match m.step() {
            Step::Continue(next) => {
                lemma_run_on_ends_at_suspension(next, (fuel - 1) as nat);
            },
            _ => {},
        }
    }
}

/// Nothing but the routine itself ends a step. A step that succeeds leaves
/// the routine suspended, and either over or right behind the instruction
/// with which it gave control back: it is never cut off anywhere else.
pub proof fn lemma_step_ends_at_suspension(m: Machine, budget: u64)
    requires
        m.executor.status == Status::Suspended,
        !m.executor.finished,
        m.run(budget).1 is Ok,
    ensures
        m.run(budget).0.executor.status == Status::Suspended,
        m.run(budget).0.executor.finished || m.run(budget).0.executor.rests_at_suspension(),
{
    let running = Machine {
        executor: ExecutorView { status: Status::Running, ..m.executor },
        exchange: m.exchange,
    };
    lemma_run_on_ends_at_suspension(running, budget as nat);
}

/// A step that fails leaves the routine in the middle of it, so that no
/// later step can be taken.
pub proof fn lemma_failed_step_is_final(m: Machine, budget: u64, later: u64)
    requires
        m.executor.status == Status::Suspended,
        !m.executor.finished,
        m.run(budget).1 is Err,
    ensures
        m.run(budget).0.run(later) == (m.run(budget).0, Err::<(), Trap>(Trap::NotSuspended)),
{
    let running = Machine {
        executor: ExecutorView { status: Status::Running, ..m.executor },
        exchange: m.exchange,
    };
    lemma_run_on_fails_while_running(running, budget as nat);
}

/// A run that fails ends where it failed: still running, and not over.
proof fn lemma_run_on_fails_while_running(m: Machine, fuel: nat)
    requires
        m.executor.status == Status::Running,
        !m.executor.finished,
        m.run_on(fuel).1 is Err,
    ensures
        m.run_on(fuel).0.executor.status == Status::Running,
        !m.run_on(fuel).0.executor.finished,
    decreases fuel,
{
    if m.executor.pc < m.executor.routine.len() && fuel > 0 {
        match m.step() {
            Step::Continue(next) => {
                lemma_run_on_fails_while_running(next, (fuel - 1) as nat);
            },
            _ => {},
        }
    }
}

/// Drives one routine, one step per call.
pub struct Executor {
    routine: Routine,
    pc: usize,
    status: Status,
    finished: bool,
    counter: u64,
}

impl View for Executor {
    type V = ExecutorView;

    closed spec fn view(&self) -> ExecutorView {
        ExecutorView {
            routine: self.routine@,
            pc: self.pc as nat,
            status: self.status,
            finished: self.finished,
            counter: self.counter,
        }
    }
}

impl Executor {
    /// Well-formed: the view is.
    pub open spec fn wf(&self) -> bool {
        self@.wf()
    }

    /// Wraps a routine that has not run yet. The executor starts out
    /// suspended.
    pub fn new(routine: Routine) -> (x: Executor)
        requires
            routine.wf(),
        ensures
            x.wf(),
            x@ == ExecutorView::fresh(routine@),
    {
        Executor { routine, pc: 0, status: Status::Suspended, finished: false, counter: 0 }
    }

    /// Whether the routine waits for the next tick.
    pub fn is_suspended(&self) -> (b: bool)
        ensures
            b == (self@.status == Status::Suspended),
    {
        self.status == Status::Suspended
    }

    /// Whether the routine is over.
    pub fn is_finished(&self) -> (b: bool)
        ensures
            b == self@.finished,
    {
        self.finished
    }

    /// The routine's counter.
    pub fn counter(&self) -> (n: u64)
        ensures
            n == self@.counter,
    {
        self.counter
    }

    /// The index of the instruction the routine goes on with.
    pub fn position(&self) -> (n: usize)
        ensures
            n == self@.pc,
    {
        self.pc
    }

    /// The routine this executor drives.
    pub fn routine(&self) -> (r: &Routine)
        ensures
            r@ == self@.routine,
            self.wf() ==> r.wf(),
    {
        &self.routine
    }

    /// The suspension primitive: the routine gives control back to whoever
    /// called `run`, and goes on from here at the next call.
    pub fn halt(&mut self)
        ensures
            final(self)@ == old(self)@.halted(),
    {
        self.status = Status::Suspended;
    }

    /// Advances the routine by exactly one step: from its last suspension
    /// point to its next one. Messages it leaves on the way are queued in
    /// `exchange` in the order it left them. Does nothing if the routine is
    /// over. Faults if the routine does, if it does not suspend within
    /// `budget` instructions, or if an earlier step faulted.
    pub fn run(&mut self, exchange: &mut Exchange, budget: u64) -> (r: Result<(), Trap>)
        requires
            old(self).wf(),
            old(exchange).wf(),
        ensures
            final(self).wf(),
            final(exchange).wf(),
            (Machine { executor: final(self)@, exchange: final(exchange)@ }, r) == (Machine {
                executor: old(self)@,
                exchange: old(exchange)@,
            }).run(budget),
    {
        if self.finished {
            return Ok(());
        }
        if self.status == Status::Running {
            return Err(Trap::NotSuspended);
        }
        self.status = Status::Running;
        let ghost start = Machine { executor: self@, exchange: exchange@ };
        let mut used: u64 = 0;
        loop
            invariant
                self.wf(),
                exchange.wf(),
                used <= budget,
                !old(self)@.finished,
                old(self)@.status == Status::Suspended,
                start == (Machine {
                    executor: ExecutorView { status: Status::Running, ..old(self)@ },
                    exchange: old(exchange)@,
                }),
                (Machine { executor: self@, exchange: exchange@ }).run_on((budget - used) as nat)
                    == start.run_on(budget as nat),
            decreases budget - used,
        {
            let op: &Op = match self.routine.op(self.pc) {
                Some(op) => op,
                None => {
                    self.finished = true;
                    self.status = Status::Suspended;
                    return Ok(());
                },
            };
            if used == budget {
                return Err(Trap::BudgetExhausted);
            }
            let ghost here = Machine { executor: self@, exchange: exchange@ };
            match op {
                Op::End => {
                    self.finished = true;
                    self.status = Status::Suspended;
                    return Ok(());
                },
                Op::Halt => {
                    self.pc = self.pc + 1;
                    self.status = Status::Suspended;
                    return Ok(());
                },
                Op::Frame => {
                    let message: Vec<u8> = Call::Present.encode();
                    match exchange.post(message.as_slice()) {
                        Ok(()) => {
                            self.pc = self.pc + 1;
                            self.status = Status::Suspended;
                            return Ok(());
                        },
                        Err(trap) => {
                            return Err(trap);
                        },
                    }
                },
                Op::Count => {
                    if self.counter == u64::MAX {
                        return Err(Trap::Overflow);
                    }
                    self.counter = self.counter + 1;
                    self.pc = self.pc + 1;
                },
                Op::Recv => {
                    let _ = exchange.take();
                    self.pc = self.pc + 1;
                },
                Op::Jump(target) => {
                    self.pc = *target as usize;
                },
                Op::Emit(bytes) => {
                    match exchange.post(bytes.as_slice()) {
                        Ok(()) => {
                            self.pc = self.pc + 1;
                        },
                        Err(trap) => {
                            return Err(trap);
                        },
                    }
                },
                Op::Abort => {
                    return Err(Trap::Aborted);
                },
            }
            assert(here.step() == Step::Continue(Machine { executor: self@, exchange: exchange@ }));
            used = used + 1;
        }
    }
}

/// The byte that stands for a status in a snapshot.
pub open spec fn status_code(status: Status) -> u8 {
    match status {
        Status::Suspended => 0,
        Status::Running => 1,
    }
}

/// The byte that stands for a truth value in a snapshot.
pub open spec fn flag(b: bool) -> u8 {
    if b {
        1
    } else {
        0
    }
}

/// The bytes of an executor in a snapshot: where the routine stands, but
/// not the routine itself, which the module image carries.
pub open spec fn encode_executor(x: ExecutorView) -> Seq<u8> {
    word(x.pc as u64) + seq![status_code(x.status), flag(x.finished)] + word(x.counter)
}

/// Splits an executor for `routine` off the front of `s`. The place it goes
/// on at must lie inside the routine.
pub open spec fn read_executor(s: Seq<u8>, routine: Seq<OpView>) -> Option<
    (ExecutorView, Seq<u8>),
> {
    match read_word(s) {
        Some((pc, after_pc)) => match read_byte(after_pc) {
            Some((status, after_status)) => match read_byte(after_status) {
                Some((finished, after_finished)) => match read_word(after_finished) {
                    Some((counter, tail)) => if pc <= routine.len() && status <= 1 && finished
                        <= 1 {
                        Some(
                            (
                                ExecutorView {
                                    routine,
                                    pc: pc as nat,
                                    status: if status == 0 {
                                        Status::Suspended
                                    } else {
                                        Status::Running
                                    },
                                    finished: finished == 1,
                                    counter,
                                },
                                tail,
                            ),
                        )
                    } else {
                        None
                    },
                    None => None,
                },
                None => None,
            },
            None => None,
        },
        None => None,
    }
}

/// A well-formed executor reads back as itself, whatever follows it.
pub proof fn lemma_read_executor(x: ExecutorView, tail: Seq<u8>)
    requires
        x.wf(),
        x.pc <= u64::MAX,
    ensures
        read_executor(encode_executor(x) + tail, x.routine) == Some((x, tail)),
{
    let flags = seq![status_code(x.status), flag(x.finished)];
    let s = encode_executor(x) + tail;
    lemma_read_word(x.pc as u64, flags + word(x.counter) + tail);
    lemma_read_word(x.counter, tail);
    assert(s =~= word(x.pc as u64) + (flags + word(x.counter) + tail));
    let after_pc = flags + word(x.counter) + tail;
    assert(after_pc.skip(1).skip(1) =~= word(x.counter) + tail);
}

/// Bytes that read as an executor start with the bytes of that executor.
pub proof fn lemma_executor_canonical(s: Seq<u8>, routine: Seq<OpView>)
    requires
        read_executor(s, routine) is Some,
    ensures
        read_executor(s, routine).unwrap().0.routine == routine,
        read_executor(s, routine).unwrap().0.pc <= routine.len(),
        read_executor(s, routine).unwrap().0.pc <= u64::MAX,
        s == encode_executor(read_executor(s, routine).unwrap().0) + read_executor(
            s,
            routine,
        ).unwrap().1,
{
    lemma_word_canonical(s);
    let (pc, after_pc) = read_word(s).unwrap();
    let after_flags = after_pc.skip(1).skip(1);
    lemma_word_canonical(after_flags);
    let (x, tail) = read_executor(s, routine).unwrap();
    assert(after_pc =~= seq![status_code(x.status), flag(x.finished)] + after_flags);
    assert(s =~= encode_executor(x) + tail);
}

impl Executor {
    /// The place a held executor goes on at can be written down.
    pub proof fn lemma_fits(&self)
        ensures
            self@.pc <= u64::MAX,
    {
    }

    /// Appends where the routine stands to a snapshot.
    pub fn save(&self, out: &mut Vec<u8>)
        ensures
            self@.pc <= u64::MAX,
            final(out)@ == old(out)@ + encode_executor(self@),
    {
        let ghost before = out@;
        put_word(out, self.pc as u64);
        out.push(
            match self.status {
                Status::Suspended => 0,
                Status::Running => 1,
            },
        );
        out.push(if self.finished { 1 } else { 0 });
        put_word(out, self.counter);
        assert(out@ =~= before + encode_executor(self@));
    }

    /// Reads back from a snapshot where `routine` stands.
    pub fn restore(reader: &mut Reader, routine: Routine) -> (r: Option<Executor>)
        requires
            routine.wf(),
        ensures
            match read_executor(old(reader).rest(), routine@) {
                Some((x, rest)) => r matches Some(out) && out.wf() && out@ == x && final(
                    reader).rest() == rest,
                None => r is None,
            },
    {
        let pc: u64 = match reader.word() {
            Some(pc) => pc,
            None => { return None; },
        };
        let status: u8 = match reader.byte() {
            Some(status) => status,
            None => { return None; },
        };
        let finished: u8 = match reader.byte() {
            Some(finished) => finished,
            None => { return None; },
        };
        let counter: u64 = match reader.word() {
            Some(counter) => counter,
            None => { return None; },
        };
        if pc > routine.len() as u64 || status > 1 || finished > 1 {
            return None;
        }
        Some(
            Executor {
                routine,
                pc: pc as usize,
                status: if status == 0 {
                    Status::Suspended
                } else {
                    Status::Running
                },
                finished: finished == 1,
                counter,
            },
        )
    }
}

} // verus!
