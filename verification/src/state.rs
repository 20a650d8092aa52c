//! The guest's own state, and the entry points through which the host
//! reaches it. The state is an ordinary value that is handed to each entry
//! point: there is no hidden global, and a process may hold any number of
//! guests.

use crate::error::{RuntimeError, Trap};
use crate::exchange::{
    bytes_of, encode_exchange, lemma_exchange_canonical, lemma_read_exchange, read_exchange,
    Exchange, ExchangeView,
};
use crate::executor::{
    encode_executor, lemma_executor_canonical, lemma_read_executor, read_executor, Executor,
    ExecutorView, Machine,
};
use crate::protocol::{decode_response, encode_call, Call, CallView, Response};
use crate::routine::{jumps_land, OpView, Routine};
use crate::wire::{lemma_read_word, lemma_word_canonical, put_word, read_word, word, Reader};
use vstd::prelude::*;
use vstd::string::*;

verus! {

/// What a `State` is, mathematically.
pub struct StateView {
    /// How many ticks the guest has been given.
    pub tick: u64,
    /// The time the guest has been running for, in nanoseconds.
    pub runtime: u64,
    /// The routine, and what the guest shares with the host.
    pub machine: Machine,
}

impl StateView {
    /// The guest is well-formed.
    pub open spec fn wf(self) -> bool {
        self.machine.wf()
    }

    /// The state of a guest that has not been given a tick yet.
    pub open spec fn start(routine: Seq<OpView>, limit: nat) -> StateView {
        StateView {
            tick: 0,
            runtime: 0,
            machine: Machine {
                executor: ExecutorView::fresh(routine),
                exchange: ExchangeView::empty(limit),
            },
        }
    }

    /// Whether the clocks can take one more tick of `time` nanoseconds.
    pub open spec fn can_tick(self, time: u64) -> bool {
        self.tick < u64::MAX && self.runtime + time <= u64::MAX
    }

    /// One tick: the clocks move on, then the routine runs one step. A tick
    /// that the clocks cannot take faults and changes nothing.
    pub open spec fn tick(self, time: u64, budget: u64) -> (StateView, Result<(), Trap>) {
        if self.can_tick(time) {
            let (machine, r) = self.machine.run(budget);
            (
                StateView {
                    tick: (self.tick + 1) as u64,
                    runtime: (self.runtime + time) as u64,
                    machine,
                },
                r,
            )
        } else {
            (self, Err(Trap::Overflow))
        }
    }

    /// The state with another exchange in place of its own.
    pub open spec fn with_exchange(self, exchange: ExchangeView) -> StateView {
        StateView { machine: Machine { exchange, ..self.machine }, ..self }
    }

    /// The state with another executor in place of its own.
    pub open spec fn with_executor(self, executor: ExecutorView) -> StateView {
        StateView { machine: Machine { executor, ..self.machine }, ..self }
    }
}

/// Everything one guest owns between ticks.
pub struct State {
    tick: u64,
    executor: Executor,
    exchange: Exchange,
    runtime: u64,
}

impl View for State {
    type V = StateView;

    closed spec fn view(&self) -> StateView {
        StateView {
            tick: self.tick,
            runtime: self.runtime,
            machine: Machine { executor: self.executor@, exchange: self.exchange@ },
        }
    }
}

impl State {
    /// Well-formed: the view is, and the memory limit is a size a machine
    /// can hold.
    pub open spec fn wf(&self) -> bool {
        self@.wf() && self@.machine.exchange.memory.limit <= usize::MAX
    }

    /// Sets a guest up around its routine. Nothing runs yet: the routine
    /// waits, suspended, for the first tick.
    pub fn start(routine: Routine, limit: usize) -> (s: State)
        requires
            routine.wf(),
        ensures
            s.wf(),
            s@ == StateView::start(routine@, limit as nat),
    {
        State { tick: 0, executor: Executor::new(routine), exchange: Exchange::new(limit), runtime: 0 }
    }

    /// Gives the guest one tick: counts it, adds `time` nanoseconds to the
    /// running time, and advances the routine by one step within `budget`
    /// instructions.
    pub fn tick(&mut self, time: u64, budget: u64) -> (r: Result<(), Trap>)
        requires
            old(self).wf(),
        ensures
            final(self).wf(),
            (final(self)@, r) == old(self)@.tick(time, budget),
    {
        if self.tick == u64::MAX || time > u64::MAX - self.runtime {
            return Err(Trap::Overflow);
        }
        self.tick = self.tick + 1;
        self.runtime = self.runtime + time;
        self.executor.run(&mut self.exchange, budget)
    }

    /// Sets aside a zero-filled buffer of `len` bytes in the guest's memory
    /// for the host to fill, and returns its address.
    pub fn allocate(&mut self, len: u64) -> (r: Result<u64, Trap>)
        requires
            old(self).wf(),
        ensures
            final(self).wf(),
            match r {
                Ok(addr) => {
                    &&& old(self)@.machine.exchange.has_room(len as nat)
                    &&& addr == old(self)@.machine.exchange.top()
                    &&& final(self)@ == old(self)@.with_exchange(
                        old(self)@.machine.exchange.allocate(len),
                    )
                },
                Err(t) => {
                    &&& !old(self)@.machine.exchange.has_room(len as nat)
                    &&& t == Trap::OutOfMemory
                    &&& final(self)@ == old(self)@
                },
            },
    {
        self.exchange.allocate(len)
    }

    /// Leaves `call` for the host. Faults, and changes nothing, if the
    /// guest's memory has no room for it.
    pub fn call_host(&mut self, call: &Call) -> (r: Result<(), Trap>)
        requires
            old(self).wf(),
        ensures
            final(self).wf(),
            match r {
                Ok(()) => {
                    &&& old(self)@.machine.exchange.has_room(encode_call(call@).len())
                    &&& final(self)@ == old(self)@.with_exchange(
                        old(self)@.machine.exchange.post(encode_call(call@)),
                    )
                },
                Err(t) => {
                    &&& !old(self)@.machine.exchange.has_room(encode_call(call@).len())
                    &&& t == Trap::OutOfMemory
                    &&& final(self)@ == old(self)@
                },
            },
    {
        let message: Vec<u8> = call.encode();
        self.exchange.post(message.as_slice())
    }

    /// Takes the oldest buffer the host has filled. `None` if none waits.
    pub fn read(&mut self) -> (r: Option<Vec<u8>>)
        requires
            old(self).wf(),
        ensures
            final(self).wf(),
            match r {
                Some(data) => {
                    &&& old(self)@.machine.exchange.responses.len() > 0
                    &&& data@ == old(self)@.machine.exchange.front()
                    &&& final(self)@ == old(self)@.with_exchange(old(self)@.machine.exchange.take())
                },
                None => old(self)@.machine.exchange.responses.len() == 0 && final(self)@ == old(self)@,
            },
    {
        self.exchange.take()
    }

    /// How many ticks the guest has been given.
    pub fn ticks(&self) -> (n: u64)
        ensures
            n == self@.tick,
    {
        self.tick
    }

    /// The routine and its place in it.
    pub fn executor(&self) -> (x: &Executor)
        ensures
            x@ == self@.machine.executor,
    {
        &self.executor
    }

    /// What the guest shares with the host.
    pub fn exchange(&self) -> (x: &Exchange)
        ensures
            x@ == self@.machine.exchange,
    {
        &self.exchange
    }

    /// Stores `data` at `addr` in the guest's memory on the host's behalf.
    pub fn write(&mut self, addr: u64, data: &[u8]) -> (r: Result<(), Trap>)
        requires
            old(self).wf(),
        ensures
            final(self).wf(),
            match r {
                Ok(()) => {
                    &&& old(self)@.machine.exchange.memory.holds(addr, data@.len())
                    &&& final(self)@ == old(self)@.with_exchange(
                        old(self)@.machine.exchange.write(addr, data@),
                    )
                },
                Err(t) => {
                    &&& !old(self)@.machine.exchange.memory.holds(addr, data@.len())
                    &&& t == Trap::OutOfBounds
                    &&& final(self)@ == old(self)@
                },
            },
    {
        self.exchange.write(addr, data)
    }

    /// Hands every message the guest has left to the host, oldest first.
    pub fn drain(&mut self) -> (out: Vec<Vec<u8>>)
        requires
            old(self).wf(),
        ensures
            final(self).wf(),
            bytes_of(out@) == old(self)@.machine.exchange.messages(),
            final(self)@ == old(self)@.with_exchange(old(self)@.machine.exchange.drain()),
    {
        self.exchange.drain()
    }
}

/// The time the guest has been running for, in nanoseconds.
pub fn time(state: &State) -> (t: u64)
    ensures
        t == state@.runtime,
{
    state.runtime
}

/// Takes the oldest buffer the host has filled and reads it as a response.
/// `None` if no buffer waits. A buffer that holds no response is used up
/// all the same.
pub fn receive(state: &mut State) -> (r: Option<Result<Response, RuntimeError>>)
    requires
        old(state).wf(),
    ensures
        final(state).wf(),
        match r {
            Some(answer) => {
                &&& old(state)@.machine.exchange.responses.len() > 0
                &&& final(state)@ == old(state)@.with_exchange(old(state)@.machine.exchange.take())
                &&& match answer {
                    Ok(response) => decode_response(old(state)@.machine.exchange.front()) == Some(
                        response@,
                    ),
                    Err(e) => decode_response(old(state)@.machine.exchange.front()) is None && e
                        == RuntimeError::MalformedMessage,
                }
            },
            None => old(state)@.machine.exchange.responses.len() == 0 && final(state)@ == old(
                state,
            )@,
        },
{
    match state.read() {
        Some(bytes) => Some(Response::decode(bytes.as_slice())),
        None => None,
    }
}

/// Asks the host to print `s`.
pub fn print(state: &mut State, s: &str) -> (r: Result<(), Trap>)
    requires
        old(state).wf(),
    ensures
        final(state).wf(),
        match r {
            Ok(()) => {
                &&& old(state)@.machine.exchange.has_room(encode_call(CallView::Print(s@)).len())
                &&& final(state)@ == old(state)@.with_exchange(
                    old(state)@.machine.exchange.post(encode_call(CallView::Print(s@))),
                )
            },
            Err(t) => {
                &&& !old(state)@.machine.exchange.has_room(encode_call(CallView::Print(s@)).len())
                &&& t == Trap::OutOfMemory
                &&& final(state)@ == old(state)@
            },
        },
{
    let call = Call::Print(String::from_str(s));
    state.call_host(&call)
}

/// Ends the frame: tells the host that the frame is complete, then gives
/// control back until the next tick. If the message cannot be left, the
/// guest faults and does not suspend.
pub fn frame(state: &mut State) -> (r: Result<(), Trap>)
    requires
        old(state).wf(),
    ensures
        final(state).wf(),
        match r {
            Ok(()) => {
                &&& old(state)@.machine.exchange.has_room(encode_call(CallView::Present).len())
                &&& final(state)@ == old(state)@.with_exchange(
                    old(state)@.machine.exchange.post(encode_call(CallView::Present)),
                ).with_executor(old(state)@.machine.executor.halted())
            },
            Err(t) => {
                &&& !old(state)@.machine.exchange.has_room(encode_call(CallView::Present).len())
                &&& t == Trap::OutOfMemory
                &&& final(state)@ == old(state)@
            },
        },
{
    match state.call_host(&Call::Present) {
        Ok(()) => {
            state.executor.halt();
            Ok(())
        },
        Err(t) => Err(t),
    }
}

impl StateView {
    /// Every size that a snapshot writes down fits a word, and the memory
    /// limit is a size this machine can hold. This holds of the view of
    /// every `State`.
    pub open spec fn fits(self) -> bool {
        self.machine.executor.pc <= u64::MAX && self.machine.exchange.fits()
    }
}

/// The bytes of a guest's state in a snapshot.
pub open spec fn encode_state(v: StateView) -> Seq<u8> {
    word(v.tick) + word(v.runtime) + encode_executor(v.machine.executor) + encode_exchange(
        v.machine.exchange,
    )
}

/// Splits the state of a guest that runs `routine` off the front of `s`.
pub open spec fn read_state(s: Seq<u8>, routine: Seq<OpView>) -> Option<(StateView, Seq<u8>)> {
    match read_word(s) {
        Some((tick, after_tick)) => match read_word(after_tick) {
            Some((runtime, after_runtime)) => match read_executor(after_runtime, routine) {
                Some((executor, after_executor)) => match read_exchange(after_executor) {
                    Some((exchange, tail)) => Some(
                        (StateView { tick, runtime, machine: Machine { executor, exchange } }, tail),
                    ),
                    None => None,
                },
                None => None,
            },
            None => None,
        },
        None => None,
    }
}

/// A well-formed state reads back as itself, whatever follows it.
pub proof fn lemma_read_state(v: StateView, tail: Seq<u8>)
    requires
        v.wf(),
        v.fits(),
    ensures
        read_state(encode_state(v) + tail, v.machine.executor.routine) == Some((v, tail)),
{
    let after_executor = encode_exchange(v.machine.exchange) + tail;
    let after_runtime = encode_executor(v.machine.executor) + after_executor;
    let after_tick = word(v.runtime) + after_runtime;
    lemma_read_word(v.tick, after_tick);
    lemma_read_word(v.runtime, after_runtime);
    lemma_read_executor(v.machine.executor, after_executor);
    lemma_read_exchange(v.machine.exchange, tail);
    assert(encode_state(v) + tail =~= word(v.tick) + after_tick);
}

/// Bytes that read as a state start with the bytes of that state, and the
/// state is well-formed if the routine's jumps land.
pub proof fn lemma_state_canonical(s: Seq<u8>, routine: Seq<OpView>)
    requires
        read_state(s, routine) is Some,
    ensures
        read_state(s, routine).unwrap().0.machine.executor.routine == routine,
        jumps_land(routine) ==> read_state(s, routine).unwrap().0.wf(),
        read_state(s, routine).unwrap().0.fits(),
        s == encode_state(read_state(s, routine).unwrap().0) + read_state(s, routine).unwrap().1,
{
    lemma_word_canonical(s);
    let (tick, after_tick) = read_word(s).unwrap();
    lemma_word_canonical(after_tick);
    let (runtime, after_runtime) = read_word(after_tick).unwrap();
    lemma_executor_canonical(after_runtime, routine);
    let (executor, after_executor) = read_executor(after_runtime, routine).unwrap();
    lemma_exchange_canonical(after_executor);
    let (v, tail) = read_state(s, routine).unwrap();
    assert(s =~= encode_state(v) + tail);
}

impl State {
    /// The sizes of a held state can be written down.
    pub proof fn lemma_fits(&self)
        requires
            self.wf(),
        ensures
            self@.fits(),
    {
        self.executor.lemma_fits();
        self.exchange.lemma_fits();
    }

    /// Appends this state to a snapshot.
    pub fn save(&self, out: &mut Vec<u8>)
        requires
            self.wf(),
        ensures
            self@.fits(),
            final(out)@ == old(out)@ + encode_state(self@),
    {
        let ghost before = out@;
        put_word(out, self.tick);
        put_word(out, self.runtime);
        self.executor.save(out);
        self.exchange.save(out);
        assert(out@ =~= before + encode_state(self@));
    }

    /// Reads back from a snapshot the state of a guest that runs `routine`.
    pub fn restore(reader: &mut Reader, routine: Routine) -> (r: Option<State>)
        requires
            routine.wf(),
        ensures
            match read_state(old(reader).rest(), routine@) {
                Some((v, rest)) => r matches Some(out) && out.wf() && out@ == v && final(
                    reader).rest() == rest,
                None => r is None,
            },
    {
        let tick: u64 = match reader.word() {
            Some(tick) => tick,
            None => { return None; },
        };
        let runtime: u64 = match reader.word() {
            Some(runtime) => runtime,
            None => { return None; },
        };
        let executor: Executor = match Executor::restore(reader, routine) {
            Some(executor) => executor,
            None => { return None; },
        };
        let exchange: Exchange = match Exchange::restore(reader) {
            Some(exchange) => exchange,
            None => { return None; },
        };
        Some(State { tick, executor, exchange, runtime })
    }
}

} // verus!
