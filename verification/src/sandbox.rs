//! The sandboxed backend: a guest whose routine comes out of a module image
//! and runs inside an interpreter, with nothing but its own linear memory to
//! touch and a budget of instructions for each step.

use crate::error::{RuntimeError, Trap};
use crate::exchange::bytes_of;
use crate::executor::lemma_run_keeps_shape;
use crate::protocol::{
    call_views, decode_call, encode_call, encode_response, lemma_call_round_trip, Call, CallView,
    Response, ResponseView,
};
use crate::routine::{parse_image, Routine};
use crate::runtime::Runtime;
use crate::snapshot::{
    encode_snapshot, lemma_snapshot_canonical, lemma_snapshot_round_trip, put_fault,
    read_snapshot, snapshot_header_bytes, take_fault,
};
use crate::state::{State, StateView};
use crate::wire::{put_blob, put_word, Reader};
use vstd::prelude::*;
use vstd::slice::*;

verus! {

/// The memory limit of a guest brought up by `load`: 16 MiB.
pub const DEFAULT_MEMORY_LIMIT: usize = 16777216;

/// The instruction budget per step of a guest brought up by `load`.
pub const DEFAULT_BUDGET: u64 = 1000000;

/// What a `Sandbox` is, mathematically.
pub struct SandboxView {
    /// The module image the guest was loaded from.
    pub image: Seq<u8>,
    /// How many instructions one step may execute.
    pub budget: u64,
    /// The fault that made this instance unusable, if any.
    pub fault: Option<Trap>,
    /// The guest's own state.
    pub guest: StateView,
}

/// The calls among `messages`, in order. A message that is no call is left
/// out.
pub open spec fn decoded(messages: Seq<Seq<u8>>) -> Seq<CallView>
    decreases messages.len(),
{
    if messages.len() == 0 {
        Seq::empty()
    } else {
        let earlier = decoded(messages.drop_last());
        match decode_call(messages.last()) {
            Some(call) => earlier.push(call),
            None => earlier,
        }
    }
}

impl SandboxView {
    /// Between ticks nothing waits for the host: unless the instance has
    /// faulted, every message the guest left has been collected.
    pub open spec fn collected(self) -> bool {
        self.fault is None ==> self.guest.machine.exchange.outbox.len() == 0
    }

    /// The guest is well-formed and runs the routine of the image, and its
    /// messages have been collected.
    pub open spec fn wf(self) -> bool {
        &&& self.guest.wf()
        &&& parse_image(self.image) == Some(self.guest.machine.executor.routine)
        &&& self.collected()
    }

    /// Every size that a snapshot writes down fits a word, and the memory
    /// limit is a size this machine can hold. This holds of the view of
    /// every `Sandbox`.
    pub open spec fn fits(self) -> bool {
        self.image.len() <= u64::MAX && self.guest.fits()
    }

    /// The instance that `code` is loaded into, if `code` is a module image.
    pub open spec fn load(code: Seq<u8>, limit: nat, budget: u64) -> Option<SandboxView> {
        match parse_image(code) {
            Some(routine) => Some(
                SandboxView {
                    image: code,
                    budget,
                    fault: None,
                    guest: StateView::start(routine, limit),
                },
            ),
            None => None,
        }
    }

    /// One tick. An instance that has faulted stays as it is and reports its
    /// fault again. Otherwise the guest gets its tick; if that faults, the
    /// instance keeps the fault; if not, the host collects the guest's
    /// messages and gets the calls among them.
    pub open spec fn run_tick(self, elapsed: u64) -> (SandboxView, Result<Seq<CallView>, RuntimeError>) {
        match self.fault {
            Some(trap) => (self, Err(RuntimeError::ExecutionTrap(trap))),
            None => {
                let (guest, r) = self.guest.tick(elapsed, self.budget);
                match r {
                    Ok(()) => (
                        SandboxView {
                            guest: guest.with_exchange(guest.machine.exchange.drain()),
                            ..self
                        },
                        Ok(decoded(guest.machine.exchange.messages())),
                    ),
                    Err(trap) => (
                        SandboxView { guest, fault: Some(trap), ..self },
                        Err(RuntimeError::ExecutionTrap(trap)),
                    ),
                }
            },
        }
    }

    /// One response handed over: a buffer of the size of its encoding is set
    /// aside in the guest's memory and filled with it. An instance that has
    /// faulted stays as it is. If the memory has no room, the instance
    /// faults.
    pub open spec fn send(self, value: ResponseView) -> SandboxView {
        let bytes = encode_response(value);
        let exchange = self.guest.machine.exchange;
        if self.fault is Some {
            self
        } else if exchange.has_room(bytes.len()) {
            SandboxView {
                guest: self.guest.with_exchange(
                    exchange.allocate(bytes.len() as u64).write(exchange.top(), bytes),
                ),
                ..self
            }
        } else {
            SandboxView { fault: Some(Trap::OutOfMemory), ..self }
        }
    }

    /// The instance that comes back from this one's snapshot.
    pub open spec fn duplicate(self) -> Option<SandboxView> {
        read_snapshot(encode_snapshot(self))
    }
}

/// No message is handed over twice. Whatever a tick does, it leaves no
/// message behind for the next one: the calls of a tick are the calls the
/// guest made during that tick.
pub proof fn lemma_tick_leaves_nothing_behind(v: SandboxView, elapsed: u64)
    ensures
        v.run_tick(elapsed).0.collected(),
{
}

/// Duplicating is idempotent: the duplicate of a well-formed instance is
/// that instance over again, so the duplicate of the duplicate is too, and
/// the next tick does to either what it does to the instance itself.
pub proof fn lemma_duplicate_is_idempotent(v: SandboxView, elapsed: u64)
    requires
        v.wf(),
        v.fits(),
    ensures
        v.duplicate() == Some(v),
        v.duplicate().unwrap().duplicate() == v.duplicate(),
        v.duplicate().unwrap().duplicate().unwrap().run_tick(elapsed) == v.duplicate().unwrap().run_tick(
            elapsed,
        ),
        v.duplicate().unwrap().run_tick(elapsed) == v.run_tick(elapsed),
{
    lemma_snapshot_round_trip(v);
}

/// Decodes the calls among the guest's messages. A message that is no call
/// is dropped: a guest that writes nonsense harms nobody but itself.
pub fn decode_all(messages: &Vec<Vec<u8>>) -> (calls: Vec<Call>)
    ensures
        call_views(calls@) == decoded(bytes_of(messages@)),
{
    let mut calls: Vec<Call> = Vec::new();
    let mut i: usize = 0;
    assert(bytes_of(messages@).take(0) =~= Seq::<Seq<u8>>::empty());
    assert(call_views(calls@) =~= Seq::<CallView>::empty());
    while i < messages.len()
        invariant
            i <= messages@.len(),
            call_views(calls@) == decoded(bytes_of(messages@).take(i as int)),
        decreases messages@.len() - i,
    {
        let ghost before = calls@;
        proof {
            let upto = bytes_of(messages@).take(i + 1);
            assert(upto.drop_last() =~= bytes_of(messages@).take(i as int));
            assert(upto.last() == messages@[i as int]@);
        }
        match Call::decode(messages[i].as_slice()) {
            Ok(call) => {
                calls.push(call);
                assert(call_views(calls@) =~= call_views(before).push(call@));
            },
            Err(_) => {},
        }
        i = i + 1;
    }
    assert(bytes_of(messages@).take(i as int) =~= bytes_of(messages@));
    calls
}

/// One live guest in its sandbox.
pub struct Sandbox {
    image: Vec<u8>,
    guest: State,
    budget: u64,
    fault: Option<Trap>,
}

impl View for Sandbox {
    type V = SandboxView;

    closed spec fn view(&self) -> SandboxView {
        SandboxView { image: self.image@, budget: self.budget, fault: self.fault, guest: self.guest@ }
    }
}

impl Sandbox {
    /// Well-formed: the view is, and the memory limit is a size a machine
    /// can hold.
    pub open spec fn wf(&self) -> bool {
        self@.wf() && self@.guest.machine.exchange.memory.limit <= usize::MAX
    }

    /// Checks a module image and brings up a guest for it, with a memory
    /// limit and an instruction budget of the host's choosing. Fails with
    /// `LoadError` on exactly the inputs that are no module image; an empty
    /// input is one of them.
    pub fn with_limits(code: &[u8], memory_limit: usize, budget: u64) -> (r: Result<
        Sandbox,
        RuntimeError,
    >)
        ensures
            match r {
                Ok(sandbox) => sandbox.wf() && Some(sandbox@) == SandboxView::load(
                    code@,
                    memory_limit as nat,
                    budget,
                ),
                Err(e) => e == RuntimeError::LoadError && parse_image(code@) is None,
            },
    {
        match Routine::parse(code) {
            Some(routine) => Ok(
                Sandbox {
                    image: slice_to_vec(code),
                    guest: State::start(routine, memory_limit),
                    budget,
                    fault: None,
                },
            ),
            None => Err(RuntimeError::LoadError),
        }
    }

    /// The sizes of a held instance can be written down, so its snapshot
    /// holds it.
    pub proof fn lemma_fits(&self)
        requires
            self.wf(),
        ensures
            self@.fits(),
            read_snapshot(encode_snapshot(self@)) == Some(self@),
    {
        assert(self.image@.len() == self.image.len());
        self.guest.lemma_fits();
        lemma_snapshot_round_trip(self@);
    }

    /// What the contract's words mean for this backend: a valid instance is
    /// a well-formed one, and its snapshot is the encoding of its view.
    proof fn lemma_meaning(&self)
        ensures
            self.valid() == self.wf(),
            self.snapshot() == encode_snapshot(self@),
            self.serialize_error() is None,
    {
    }

    /// The fault that made this instance unusable, if any.
    pub fn fault(&self) -> (f: Option<Trap>)
        ensures
            f == self@.fault,
    {
        self.fault
    }

    /// How many instructions one step may execute.
    pub fn budget(&self) -> (n: u64)
        ensures
            n == self@.budget,
    {
        self.budget
    }

    /// The guest's own state.
    pub fn guest(&self) -> (g: &State)
        ensures
            g@ == self@.guest,
            self.wf() ==> g.wf(),
    {
        &self.guest
    }

    /// Sets aside a zero-filled buffer of `len` bytes in the guest's memory
    /// and returns its address. The buffer is handed to the guest after the
    /// buffers that already wait.
    pub fn allocate(&mut self, len: u64) -> (r: Result<u64, Trap>)
        requires
            old(self).wf(),
        ensures
            final(self).wf(),
            match r {
                Ok(addr) => {
                    &&& old(self)@.guest.machine.exchange.has_room(len as nat)
                    &&& addr == old(self)@.guest.machine.exchange.top()
                    &&& final(self)@ == (SandboxView {
                        guest: old(self)@.guest.with_exchange(
                            old(self)@.guest.machine.exchange.allocate(len),
                        ),
                        ..old(self)@
                    })
                },
                Err(t) => {
                    &&& !old(self)@.guest.machine.exchange.has_room(len as nat)
                    &&& t == Trap::OutOfMemory
                    &&& final(self)@ == old(self)@
                },
            },
    {
        self.guest.allocate(len)
    }

    /// Stores `data` at `addr` in the guest's memory. Faults, and changes
    /// nothing, if any byte would land outside it.
    pub fn write(&mut self, addr: u64, data: &[u8]) -> (r: Result<(), Trap>)
        requires
            old(self).wf(),
        ensures
            final(self).wf(),
            match r {
                Ok(()) => {
                    &&& old(self)@.guest.machine.exchange.memory.holds(addr, data@.len())
                    &&& final(self)@ == (SandboxView {
                        guest: old(self)@.guest.with_exchange(
                            old(self)@.guest.machine.exchange.write(addr, data@),
                        ),
                        ..old(self)@
                    })
                },
                Err(t) => {
                    &&& !old(self)@.guest.machine.exchange.memory.holds(addr, data@.len())
                    &&& t == Trap::OutOfBounds
                    &&& final(self)@ == old(self)@
                },
            },
    {
        self.guest.write(addr, data)
    }

    /// Copies `len` bytes at `addr` out of the guest's memory. Faults if any
    /// of them lies outside it.
    pub fn read(&self, addr: u64, len: u64) -> (r: Result<Vec<u8>, Trap>)
        ensures
            match r {
                Ok(data) => self@.guest.machine.exchange.memory.holds(addr, len as nat) && data@
                    == self@.guest.machine.exchange.memory.slice(addr, len as nat),
                Err(t) => !self@.guest.machine.exchange.memory.holds(addr, len as nat) && t
                    == Trap::OutOfBounds,
            },
    {
        self.guest.exchange().read(addr, len)
    }
}

/// What a tick does to the snapshot of an instance is what it does to the
/// instance.
proof fn lemma_ticked(v: SandboxView, elapsed: u64)
    requires
        read_snapshot(encode_snapshot(v)) == Some(v),
    ensures
        Sandbox::ticked(encode_snapshot(v), elapsed) == (
            encode_snapshot(v.run_tick(elapsed).0),
            v.run_tick(elapsed).1,
        ),
{
}

/// What a response does to the snapshot of an instance is what it does to
/// the instance.
proof fn lemma_sent(v: SandboxView, value: ResponseView)
    requires
        read_snapshot(encode_snapshot(v)) == Some(v),
    ensures
        Sandbox::sent(encode_snapshot(v), value) == encode_snapshot(v.send(value)),
{
}

/// The bytes that can be restored are those that hold an instance.
proof fn lemma_restorable(bytes: Seq<u8>)
    ensures
        Sandbox::restorable(bytes) == (read_snapshot(bytes) is Some),
{
}

/// What `load` brings up is what its model says.
proof fn lemma_fresh(code: Seq<u8>)
    ensures
        Sandbox::fresh(code) == match SandboxView::load(
            code,
            DEFAULT_MEMORY_LIMIT as nat,
            DEFAULT_BUDGET,
        ) {
            Some(v) => Some(encode_snapshot(v)),
            None => None,
        },
{
}

impl Runtime for Sandbox {
    open spec fn valid(&self) -> bool {
        self.wf()
    }

    open spec fn snapshot(&self) -> Seq<u8> {
        encode_snapshot(self@)
    }

    open spec fn fresh(code: Seq<u8>) -> Option<Seq<u8>> {
        match SandboxView::load(code, DEFAULT_MEMORY_LIMIT as nat, DEFAULT_BUDGET) {
            Some(v) => Some(encode_snapshot(v)),
            None => None,
        }
    }

    open spec fn ticked(snapshot: Seq<u8>, elapsed: u64) -> (
        Seq<u8>,
        Result<Seq<CallView>, RuntimeError>,
    ) {
        match read_snapshot(snapshot) {
            Some(v) => (encode_snapshot(v.run_tick(elapsed).0), v.run_tick(elapsed).1),
            None => (snapshot, Err(RuntimeError::CorruptSnapshot)),
        }
    }

    open spec fn sent(snapshot: Seq<u8>, value: ResponseView) -> Seq<u8> {
        match read_snapshot(snapshot) {
            Some(v) => encode_snapshot(v.send(value)),
            None => snapshot,
        }
    }

    open spec fn serialize_error(&self) -> Option<RuntimeError> {
        None
    }

    open spec fn restorable(bytes: Seq<u8>) -> bool {
        read_snapshot(bytes) is Some
    }

    /// Brings up a guest with the default memory limit and budget. Fails
    /// with `LoadError` on exactly the inputs that are no module image.
    fn load(code: &[u8]) -> (r: Result<Self, RuntimeError>)
        ensures
            match r {
                Ok(sandbox) => Some(sandbox@) == SandboxView::load(
                    code@,
                    DEFAULT_MEMORY_LIMIT as nat,
                    DEFAULT_BUDGET,
                ),
                Err(e) => parse_image(code@) is None,
            },
    {
        let r = Sandbox::with_limits(code, DEFAULT_MEMORY_LIMIT, DEFAULT_BUDGET);
        proof {
            lemma_fresh(code@);
            if r is Ok {
                r.unwrap().lemma_meaning();
            }
        }
        r
    }

    /// One tick, exactly as `SandboxView::run_tick` has it.
    fn run_tick(&mut self, elapsed: u64) -> (r: Result<Vec<Call>, RuntimeError>)
        ensures
            match r {
                Ok(calls) => old(self)@.run_tick(elapsed) == (final(self)@, Ok::<
                    Seq<CallView>,
                    RuntimeError,
                >(call_views(calls@))),
                Err(e) => old(self)@.run_tick(elapsed) == (final(self)@, Err::<
                    Seq<CallView>,
                    RuntimeError,
                >(e)),
            },
    {
        proof {
            self.lemma_meaning();
            self.lemma_fits();
            lemma_ticked(self@, elapsed);
            lemma_run_keeps_shape(self@.guest.machine, self.budget);
        }
        let r = match self.fault {
            Some(trap) => Err(RuntimeError::ExecutionTrap(trap)),
            None => match self.guest.tick(elapsed, self.budget) {
                Ok(()) => {
                    let messages: Vec<Vec<u8>> = self.guest.drain();
                    Ok(decode_all(&messages))
                },
                Err(trap) => {
                    self.fault = Some(trap);
                    Err(RuntimeError::ExecutionTrap(trap))
                },
            },
        };
        proof {
            self.lemma_meaning();
        }
        r
    }

    /// Hands one response over, exactly as `SandboxView::send` has it.
    fn send(&mut self, value: Response)
        ensures
            final(self)@ == old(self)@.send(value@),
    {
        proof {
            self.lemma_meaning();
            self.lemma_fits();
            lemma_sent(self@, value@);
        }
        if self.fault.is_none() {
            let message: Vec<u8> = value.encode();
            match self.guest.allocate(message.len() as u64) {
                Ok(addr) => {
                    let filled = self.guest.write(addr, message.as_slice());
                    assert(filled is Ok);
                },
                Err(trap) => {
                    self.fault = Some(trap);
                },
            }
        }
        proof {
            self.lemma_meaning();
        }
    }

    /// Writes the snapshot. This backend never fails to.
    fn serialize(&self) -> (r: Result<Vec<u8>, RuntimeError>)
        ensures
            r is Ok,
            self@.fits(),
    {
        proof {
            self.lemma_meaning();
        }
        let mut out: Vec<u8> = snapshot_header_bytes();
        put_blob(&mut out, self.image.as_slice());
        put_word(&mut out, self.budget);
        put_fault(&mut out, self.fault);
        self.guest.save(&mut out);
        assert(out@ =~= encode_snapshot(self@));
        Ok(out)
    }

    /// Reads a snapshot. Fails with `CorruptSnapshot` on exactly the inputs
    /// that `read_snapshot` refuses.
    fn deserialize(bytes: &[u8]) -> (r: Result<Self, RuntimeError>)
        ensures
            match r {
                Ok(sandbox) => read_snapshot(bytes@) == Some(sandbox@),
                Err(e) => read_snapshot(bytes@) is None,
            },
    {
        proof {
            lemma_restorable(bytes@);
        }
        let mut reader = Reader::new(bytes);
        let expected: Vec<u8> = snapshot_header_bytes();
        if !reader.expect(expected.as_slice()) {
            return Err(RuntimeError::CorruptSnapshot);
        }
        let image: &[u8] = match reader.blob() {
            Some(image) => image,
            None => { return Err(RuntimeError::CorruptSnapshot); },
        };
        let routine: Routine = match Routine::parse(image) {
            Some(routine) => routine,
            None => { return Err(RuntimeError::CorruptSnapshot); },
        };
        let budget: u64 = match reader.word() {
            Some(budget) => budget,
            None => { return Err(RuntimeError::CorruptSnapshot); },
        };
        let fault: Option<Trap> = match take_fault(&mut reader) {
            Some(fault) => fault,
            None => { return Err(RuntimeError::CorruptSnapshot); },
        };
        let guest: State = match State::restore(&mut reader, routine) {
            Some(guest) => guest,
            None => { return Err(RuntimeError::CorruptSnapshot); },
        };
        if !reader.is_empty() || (fault.is_none() && guest.exchange().waiting() != 0) {
            return Err(RuntimeError::CorruptSnapshot);
        }
        let sandbox = Sandbox { image: slice_to_vec(image), guest, budget, fault };
        proof {
            lemma_snapshot_canonical(bytes@);
            sandbox.lemma_meaning();
        }
        Ok(sandbox)
    }

    /// Makes a second instance by way of a snapshot. This backend never
    /// fails to, and the copy is this instance over again.
    fn duplicate(&self) -> (r: Result<Self, RuntimeError>)
        ensures
            r matches Ok(copy) && copy@ == self@,
    {
        proof {
            self.lemma_meaning();
            self.lemma_fits();
            lemma_restorable(self.snapshot());
        }
        match self.serialize() {
            Ok(bytes) => {
                let r = Sandbox::deserialize(bytes.as_slice());
                proof {
                    if r is Ok {
                        r.unwrap().lemma_meaning();
                    }
                }
                r
            },
            Err(e) => Err(e),
        }
    }
}

impl SandboxView {
    /// The instance after `n` ticks of `elapsed` nanoseconds each.
    pub open spec fn after_ticks(self, n: nat, elapsed: u64) -> SandboxView
        decreases n,
    {
        if n == 0 {
            self
        } else {
            self.after_ticks((n - 1) as nat, elapsed).run_tick(elapsed).0
        }
    }
}

/// Messages that are the encodings of calls are decoded to those calls.
pub proof fn lemma_decoded_encodings(calls: Seq<CallView>)
    requires
        forall|i: int| 0 <= i < calls.len() ==> (#[trigger] calls[i]).wf(),
    ensures
        decoded(calls.map_values(|c: CallView| encode_call(c))) == calls,
    decreases calls.len(),
{
    let messages = calls.map_values(|c: CallView| encode_call(c));
    if calls.len() == 0 {
        assert(decoded(messages) =~= calls);
    } else {
        let earlier = calls.drop_last();
        assert(messages.drop_last() =~= earlier.map_values(|c: CallView| encode_call(c)));
        lemma_decoded_encodings(earlier);
        lemma_call_round_trip(calls.last());
        assert(earlier.push(calls.last()) =~= calls);
    }
}

} // verus!
