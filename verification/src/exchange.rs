//! What guest and host hand to each other, all of it kept in the guest's
//! linear memory: buffers that the host asks for and fills with responses,
//! and messages that the guest leaves for the host.
//!
//! Buffers are handed to the guest oldest first. Nothing in memory is given
//! up while a buffer or a message in it is still waiting; once none is, the
//! memory starts over empty.

use crate::error::Trap;
use crate::memory::{
    encode_memory, encode_region, lemma_memory_canonical, lemma_read_memory, lemma_read_region,
    lemma_region_canonical, read_memory, read_region, zeros, LinearMemory, MemoryView, Region,
};
use crate::wire::{lemma_read_word, lemma_word_canonical, put_word, read_word, word, Reader};
use std::collections::VecDeque;
use vstd::prelude::*;

verus! {

/// What an `Exchange` is, mathematically.
pub struct ExchangeView {
    /// The linear memory.
    pub memory: MemoryView,
    /// Buffers the guest has not read yet, oldest first.
    pub responses: Seq<Region>,
    /// Messages the host has not collected yet, in the order they were left.
    pub outbox: Seq<Region>,
}

/// The byte strings that a list of buffers holds.
pub open spec fn bytes_of(buffers: Seq<Vec<u8>>) -> Seq<Seq<u8>> {
    buffers.map_values(|b: Vec<u8>| b@)
}

/// Every region of `regions` lies inside `m`.
pub open spec fn all_held(m: MemoryView, regions: Seq<Region>) -> bool {
    forall|i: int| 0 <= i < regions.len() ==> m.holds_region(#[trigger] regions[i])
}

/// Regions that lie inside a memory still do when it is no smaller.
proof fn lemma_held_in_larger(m: MemoryView, n: MemoryView, regions: Seq<Region>)
    requires
        all_held(m, regions),
        m.bytes.len() <= n.bytes.len(),
    ensures
        all_held(n, regions),
{
    assert forall|i: int| 0 <= i < regions.len() implies n.holds_region(#[trigger] regions[i]) by {
        assert(m.holds_region(regions[i]));
    }
}

/// Queuing a region that lies inside keeps the queue inside.
proof fn lemma_held_push(m: MemoryView, regions: Seq<Region>, r: Region)
    requires
        all_held(m, regions),
        m.holds_region(r),
    ensures
        all_held(m, regions.push(r)),
{
    assert forall|i: int| 0 <= i < regions.push(r).len() implies m.holds_region(
        #[trigger] regions.push(r)[i],
    ) by {
        if i < regions.len() {
            assert(m.holds_region(regions[i]));
        }
    }
}

/// Dropping the oldest region keeps the queue inside.
proof fn lemma_held_skip(m: MemoryView, regions: Seq<Region>)
    requires
        all_held(m, regions),
        regions.len() > 0,
    ensures
        all_held(m, regions.skip(1)),
{
    assert forall|i: int| 0 <= i < regions.skip(1).len() implies m.holds_region(
        #[trigger] regions.skip(1)[i],
    ) by {
        assert(m.holds_region(regions[i + 1]));
    }
}

impl ExchangeView {
    /// The memory respects its limit, and every waiting buffer and message
    /// lies inside it.
    pub open spec fn wf(self) -> bool {
        &&& self.memory.wf()
        &&& all_held(self.memory, self.responses)
        &&& all_held(self.memory, self.outbox)
    }

    /// A fresh exchange: empty memory, nothing waiting.
    pub open spec fn empty(limit: nat) -> ExchangeView {
        ExchangeView {
            memory: MemoryView { bytes: Seq::empty(), limit },
            responses: Seq::empty(),
            outbox: Seq::empty(),
        }
    }

    /// Whether `len` more bytes fit under the memory limit.
    pub open spec fn has_room(self, len: nat) -> bool {
        self.memory.bytes.len() + len <= self.memory.limit
    }

    /// The address the next buffer or message will get.
    pub open spec fn top(self) -> u64 {
        self.memory.bytes.len() as u64
    }

    /// Memory is given up only when nothing in it is waiting.
    pub open spec fn reclaimed(self) -> ExchangeView {
        if self.responses.len() == 0 && self.outbox.len() == 0 {
            ExchangeView { memory: self.memory.cleared(), ..self }
        } else {
            self
        }
    }

    /// A new zero-filled buffer of `len` bytes at the top of memory, queued
    /// behind the buffers already waiting.
    pub open spec fn allocate(self, len: u64) -> ExchangeView
        recommends
            self.has_room(len as nat),
    {
        ExchangeView {
            memory: self.memory.extend(zeros(len as nat)),
            responses: self.responses.push(Region { addr: self.top(), len }),
            outbox: self.outbox,
        }
    }

    /// `data` stored at `addr`.
    pub open spec fn write(self, addr: u64, data: Seq<u8>) -> ExchangeView
        recommends
            self.memory.holds(addr, data.len()),
    {
        ExchangeView { memory: self.memory.store(addr, data), ..self }
    }

    /// The bytes of the oldest waiting buffer.
    pub open spec fn front(self) -> Seq<u8>
        recommends
            self.responses.len() > 0,
    {
        self.memory.slice(self.responses[0].addr, self.responses[0].len as nat)
    }

    /// Whether the newest waiting buffer holds nothing but zero bytes.
    pub open spec fn front_zeroed(self) -> bool
        recommends
            self.responses.len() > 0,
    {
        let newest = self.responses.last();
        self.memory.slice(newest.addr, newest.len as nat) == zeros(newest.len as nat)
    }

    /// The oldest waiting buffer handed over to the guest.
    pub open spec fn take(self) -> ExchangeView
        recommends
            self.responses.len() > 0,
    {
        (ExchangeView { responses: self.responses.skip(1), ..self }).reclaimed()
    }

    /// A message of the guest's copied to the top of memory and queued for
    /// the host.
    pub open spec fn post(self, message: Seq<u8>) -> ExchangeView
        recommends
            self.has_room(message.len()),
    {
        ExchangeView {
            memory: self.memory.extend(message),
            responses: self.responses,
            outbox: self.outbox.push(Region { addr: self.top(), len: message.len() as u64 }),
        }
    }

    /// The messages waiting for the host, in the order they were left.
    pub open spec fn messages(self) -> Seq<Seq<u8>> {
        Seq::new(
            self.outbox.len(),
            |i: int| self.memory.slice(self.outbox[i].addr, self.outbox[i].len as nat),
        )
    }

    /// All waiting messages handed over to the host.
    pub open spec fn drain(self) -> ExchangeView {
        (ExchangeView { outbox: Seq::empty(), ..self }).reclaimed()
    }
}

/// The guest's side of the boundary: its linear memory, the buffers the host
/// has filled for it, and the messages it has left for the host.
pub struct Exchange {
    memory: LinearMemory,
    responses: VecDeque<Region>,
    outbox: Vec<Region>,
}

impl View for Exchange {
    type V = ExchangeView;

    closed spec fn view(&self) -> ExchangeView {
        ExchangeView { memory: self.memory@, responses: self.responses@, outbox: self.outbox@ }
    }
}

impl Exchange {
    /// Well-formed: the view is, and the limit is a size a machine can hold.
    pub open spec fn wf(&self) -> bool {
        self@.wf() && self@.memory.limit <= usize::MAX
    }

    /// A fresh exchange whose memory may grow up to `limit` bytes.
    pub fn new(limit: usize) -> (x: Self)
        ensures
            x.wf(),
            x@ == ExchangeView::empty(limit as nat),
    {
        Exchange { memory: LinearMemory::new(limit), responses: VecDeque::new(), outbox: Vec::new() }
    }

    /// The current size of linear memory.
    pub fn size(&self) -> (n: u64)
        ensures
            n == self@.memory.bytes.len(),
    {
        self.memory.size()
    }

    /// The size linear memory may not outgrow.
    pub fn limit(&self) -> (n: usize)
        ensures
            n == self@.memory.limit,
    {
        self.memory.limit()
    }

    /// How many buffers the guest has not read yet.
    pub fn pending(&self) -> (n: usize)
        ensures
            n == self@.responses.len(),
    {
        self.responses.len()
    }

    /// How many messages the host has not collected yet.
    pub fn waiting(&self) -> (n: usize)
        ensures
            n == self@.outbox.len(),
    {
        self.outbox.len()
    }

    /// Sets aside a fresh zero-filled buffer of `len` bytes for the host to
    /// fill, queues it behind the buffers already waiting, and returns its
    /// address. Faults, and changes nothing, if memory would outgrow its
    /// limit; a request for no bytes therefore never faults.
    pub fn allocate(&mut self, len: u64) -> (r: Result<u64, Trap>)
        requires
            old(self).wf(),
        ensures
            final(self).wf(),
            match r {
                Ok(addr) => {
                    &&& old(self)@.has_room(len as nat)
                    &&& addr == old(self)@.top()
                    &&& final(self)@ == old(self)@.allocate(len)
                },
                Err(t) => {
                    &&& !old(self)@.has_room(len as nat)
                    &&& t == Trap::OutOfMemory
                    &&& final(self)@ == old(self)@
                },
            },
    {
        match self.memory.grow(len) {
            Ok(addr) => {
                self.responses.push_back(Region { addr, len });
                proof {
                    let before = old(self)@;
                    lemma_held_in_larger(before.memory, self@.memory, before.responses);
                    lemma_held_in_larger(before.memory, self@.memory, before.outbox);
                    lemma_held_push(self@.memory, before.responses, Region { addr, len });
                }
                Ok(addr)
            },
            Err(t) => Err(t),
        }
    }

    /// Stores `data` at `addr` on the host's behalf. Faults, and changes
    /// nothing, if any byte would land outside memory.
    pub fn write(&mut self, addr: u64, data: &[u8]) -> (r: Result<(), Trap>)
        requires
            old(self).wf(),
        ensures
            final(self).wf(),
            match r {
                Ok(()) => old(self)@.memory.holds(addr, data@.len()) && final(self)@ == old(self)@.write(addr, data@),
                Err(t) => !old(self)@.memory.holds(addr, data@.len()) && t == Trap::OutOfBounds
                    && final(self)@ == old(self)@,
            },
    {
        let r = self.memory.write(addr, data);
        proof {
            let before = old(self)@;
            lemma_held_in_larger(before.memory, self@.memory, before.responses);
            lemma_held_in_larger(before.memory, self@.memory, before.outbox);
        }
        r
    }

    /// Copies `len` bytes at `addr` out of memory on the host's behalf.
    /// Faults if any of them lies outside memory.
    pub fn read(&self, addr: u64, len: u64) -> (r: Result<Vec<u8>, Trap>)
        ensures
            match r {
                Ok(data) => self@.memory.holds(addr, len as nat) && data@ == self@.memory.slice(
                    addr,
                    len as nat,
                ),
                Err(t) => !self@.memory.holds(addr, len as nat) && t == Trap::OutOfBounds,
            },
    {
        self.memory.read(addr, len)
    }

    /// Hands the oldest waiting buffer to the guest: its bytes are copied
    /// out and the buffer is given up. `None` if no buffer is waiting.
    pub fn take(&mut self) -> (r: Option<Vec<u8>>)
        requires
            old(self).wf(),
        ensures
            final(self).wf(),
            match r {
                Some(data) => {
                    &&& old(self)@.responses.len() > 0
                    &&& data@ == old(self)@.front()
                    &&& final(self)@ == old(self)@.take()
                },
                None => old(self)@.responses.len() == 0 && final(self)@ == old(self)@,
            },
    {
        let region: Region = match self.responses.pop_front() {
            Some(region) => region,
            None => { return None; },
        };
        assert(self.responses@ =~= old(self)@.responses.skip(1));
        assert(old(self)@.memory.holds_region(old(self)@.responses[0]));
        let data: Vec<u8> = self.memory.copy(region);
        proof {
            lemma_held_skip(old(self)@.memory, old(self)@.responses);
        }
        self.reclaim();
        Some(data)
    }

    /// Copies a message of the guest's to the top of memory and queues it for
    /// the host. Faults, and changes nothing, if memory would outgrow its
    /// limit.
    pub fn post(&mut self, message: &[u8]) -> (r: Result<(), Trap>)
        requires
            old(self).wf(),
        ensures
            final(self).wf(),
            match r {
                Ok(()) => old(self)@.has_room(message@.len()) && final(self)@ == old(self)@.post(
                    message@,
                ),
                Err(t) => !old(self)@.has_room(message@.len()) && t == Trap::OutOfMemory
                    && final(self)@ == old(self)@,
            },
    {
        match self.memory.append(message) {
            Ok(addr) => {
                let region = Region { addr, len: message.len() as u64 };
                self.outbox.push(region);
                proof {
                    let before = old(self)@;
                    lemma_held_in_larger(before.memory, self@.memory, before.responses);
                    lemma_held_in_larger(before.memory, self@.memory, before.outbox);
                    lemma_held_push(self@.memory, before.outbox, region);
                }
                Ok(())
            },
            Err(t) => Err(t),
        }
    }

    /// Hands every waiting message to the host, in the order the guest left
    /// them.
    pub fn drain(&mut self) -> (out: Vec<Vec<u8>>)
        requires
            old(self).wf(),
        ensures
            final(self).wf(),
            bytes_of(out@) == old(self)@.messages(),
            final(self)@ == old(self)@.drain(),
    {
        let mut out: Vec<Vec<u8>> = Vec::new();
        let mut i: usize = 0;
        while i < self.outbox.len()
            invariant
                self == old(self),
                self.wf(),
                i <= self.outbox@.len(),
                out@.len() == i,
                forall|j: int| 0 <= j < i ==> (#[trigger] out@[j])@ == self@.messages()[j],
            decreases self.outbox@.len() - i,
        {
            let region: Region = self.outbox[i];
            assert(self@.memory.holds_region(self@.outbox[i as int]));
            out.push(self.memory.copy(region));
            i = i + 1;
        }
        assert(bytes_of(out@) =~= self@.messages());
        self.outbox.clear();
        self.reclaim();
        out
    }

    /// Gives memory up once nothing in it is waiting.
    fn reclaim(&mut self)
        requires
            old(self).wf(),
        ensures
            final(self).wf(),
            final(self)@ == old(self)@.reclaimed(),
    {
        if self.responses.len() == 0 && self.outbox.len() == 0 {
            self.memory.clear();
        }
    }
}

impl ExchangeView {
    /// The exchange after the guest has taken `n` buffers.
    pub open spec fn take_many(self, n: nat) -> ExchangeView
        decreases n,
    {
        if n == 0 {
            self
        } else {
            self.take().take_many((n - 1) as nat)
        }
    }
}

/// Asking for no bytes always succeeds: there is room for it in every
/// well-formed exchange, the address handed out lies inside memory, and
/// memory is left as it was.
pub proof fn lemma_allocate_nothing(x: ExchangeView)
    requires
        x.wf(),
    ensures
        x.has_room(0),
        x.allocate(0).wf(),
        x.allocate(0).memory.holds(x.top(), 0),
        x.allocate(0).memory == x.memory,
{
    let y = x.allocate(0);
    assert(y.memory.bytes =~= x.memory.bytes);
    lemma_held_push(x.memory, x.responses, Region { addr: x.top(), len: 0 });
}

/// While more than `n` buffers wait, taking `n` of them leaves memory alone
/// and drops the `n` oldest.
proof fn lemma_take_many(x: ExchangeView, n: nat)
    requires
        n < x.responses.len(),
    ensures
        x.take_many(n).memory == x.memory,
        x.take_many(n).responses == x.responses.skip(n as int),
        x.take_many(n).outbox == x.outbox,
    decreases n,
{
    if n == 0 {
        assert(x.responses.skip(0) =~= x.responses);
    } else {
        lemma_take_many(x.take(), (n - 1) as nat);
        assert(x.responses.skip(1).skip(n - 1) =~= x.responses.skip(n as int));
    }
}

/// What the host writes into a buffer it asked for is what the guest reads
/// from it. The host asks for `len` bytes and stores `data`, of that length,
/// at the address it got; once the guest has taken the buffers that were
/// already waiting, the next one it takes holds exactly `data`.
pub proof fn lemma_buffer_reaches_guest(x: ExchangeView, len: u64, data: Seq<u8>)
    requires
        x.wf(),
        x.has_room(len as nat),
        data.len() == len,
    ensures
        x.allocate(len).wf(),
        x.allocate(len).front_zeroed(),
        x.allocate(len).memory.holds(x.top(), len as nat),
        x.allocate(len).write(x.top(), data).wf(),
        x.allocate(len).write(x.top(), data).take_many(x.responses.len()).responses.len() > 0,
        x.allocate(len).write(x.top(), data).take_many(x.responses.len()).front() == data,
{
    let region = Region { addr: x.top(), len };
    let a = x.allocate(len);
    lemma_held_in_larger(x.memory, a.memory, x.responses);
    lemma_held_in_larger(x.memory, a.memory, x.outbox);
    lemma_held_push(a.memory, x.responses, region);
    assert(a.memory.slice(x.top(), len as nat) =~= zeros(len as nat));
    let w = a.write(x.top(), data);
    crate::memory::lemma_store(a.memory, x.top(), data);
    lemma_held_in_larger(a.memory, w.memory, a.responses);
    lemma_held_in_larger(a.memory, w.memory, a.outbox);
    lemma_take_many(w, x.responses.len());
}

/// The bytes of a run of regions, one after the other.
pub open spec fn encode_region_run(regions: Seq<Region>) -> Seq<u8>
    decreases regions.len(),
{
    if regions.len() == 0 {
        Seq::empty()
    } else {
        encode_region(regions[0]) + encode_region_run(regions.skip(1))
    }
}

/// Splits `n` regions off the front of `s`.
pub open spec fn read_region_run(s: Seq<u8>, n: nat) -> Option<(Seq<Region>, Seq<u8>)>
    decreases n,
{
    if n == 0 {
        Some((Seq::empty(), s))
    } else {
        match read_region(s) {
            Some((r, rest)) => match read_region_run(rest, (n - 1) as nat) {
                Some((regions, tail)) => Some((seq![r] + regions, tail)),
                None => None,
            },
            None => None,
        }
    }
}

/// The bytes of a queue of regions: how many there are, then each of them.
pub open spec fn encode_regions(regions: Seq<Region>) -> Seq<u8> {
    word(regions.len() as u64) + encode_region_run(regions)
}

/// Splits a queue of regions off the front of `s`.
pub open spec fn read_regions(s: Seq<u8>) -> Option<(Seq<Region>, Seq<u8>)> {
    match read_word(s) {
        Some((n, rest)) => read_region_run(rest, n as nat),
        None => None,
    }
}

/// A run of regions reads back as itself, whatever follows it.
pub proof fn lemma_read_region_run(regions: Seq<Region>, tail: Seq<u8>)
    ensures
        read_region_run(encode_region_run(regions) + tail, regions.len()) == Some((regions, tail)),
    decreases regions.len(),
{
    if regions.len() == 0 {
        assert(regions =~= Seq::empty());
        assert(encode_region_run(regions) + tail =~= tail);
    } else {
        let rest = regions.skip(1);
        lemma_read_region(regions[0], encode_region_run(rest) + tail);
        lemma_read_region_run(rest, tail);
        assert(encode_region_run(regions) + tail =~= encode_region(regions[0]) + (
        encode_region_run(rest) + tail));
        assert(seq![regions[0]] + rest =~= regions);
    }
}

/// Bytes that read as a run of regions start with the bytes of that run.
pub proof fn lemma_region_run_canonical(s: Seq<u8>, n: nat)
    requires
        read_region_run(s, n) is Some,
    ensures
        read_region_run(s, n).unwrap().0.len() == n,
        s == encode_region_run(read_region_run(s, n).unwrap().0) + read_region_run(
            s,
            n,
        ).unwrap().1,
    decreases n,
{
    let (regions, tail) = read_region_run(s, n).unwrap();
    if n == 0 {
        assert(s =~= encode_region_run(regions) + tail);
    } else {
        let (r, rest) = read_region(s).unwrap();
        lemma_region_canonical(s);
        lemma_region_run_canonical(rest, (n - 1) as nat);
        let (others, _) = read_region_run(rest, (n - 1) as nat).unwrap();
        assert(regions.skip(1) =~= others);
        assert(s =~= encode_region_run(regions) + tail);
    }
}

/// A queue of regions reads back as itself, whatever follows it.
pub proof fn lemma_read_regions(regions: Seq<Region>, tail: Seq<u8>)
    requires
        regions.len() <= u64::MAX,
    ensures
        read_regions(encode_regions(regions) + tail) == Some((regions, tail)),
{
    lemma_read_word(regions.len() as u64, encode_region_run(regions) + tail);
    lemma_read_region_run(regions, tail);
    assert(encode_regions(regions) + tail =~= word(regions.len() as u64) + (encode_region_run(
        regions,
    ) + tail));
}

/// Bytes that read as a queue of regions start with the bytes of that queue.
pub proof fn lemma_regions_canonical(s: Seq<u8>)
    requires
        read_regions(s) is Some,
    ensures
        read_regions(s).unwrap().0.len() <= u64::MAX,
        s == encode_regions(read_regions(s).unwrap().0) + read_regions(s).unwrap().1,
{
    lemma_word_canonical(s);
    let (n, rest) = read_word(s).unwrap();
    lemma_region_run_canonical(rest, n as nat);
    let (regions, tail) = read_regions(s).unwrap();
    assert(s =~= encode_regions(regions) + tail);
}

impl ExchangeView {
    /// Every size that a snapshot writes down fits a word, and the memory
    /// limit is a size this machine can hold. This holds of the view of
    /// every `Exchange`.
    pub open spec fn fits(self) -> bool {
        &&& self.memory.limit <= usize::MAX
        &&& self.responses.len() <= u64::MAX
        &&& self.outbox.len() <= u64::MAX
    }
}

/// The bytes of an exchange in a snapshot.
pub open spec fn encode_exchange(x: ExchangeView) -> Seq<u8> {
    encode_memory(x.memory) + encode_regions(x.responses) + encode_regions(x.outbox)
}

/// Splits an exchange off the front of `s`. Every region must lie inside
/// the memory.
pub open spec fn read_exchange(s: Seq<u8>) -> Option<(ExchangeView, Seq<u8>)> {
    match read_memory(s) {
        Some((memory, after_memory)) => match read_regions(after_memory) {
            Some((responses, after_responses)) => match read_regions(after_responses) {
                Some((outbox, tail)) => if all_held(memory, responses) && all_held(memory, outbox) {
                    Some((ExchangeView { memory, responses, outbox }, tail))
                } else {
                    None
                },
                None => None,
            },
            None => None,
        },
        None => None,
    }
}

/// A well-formed exchange reads back as itself, whatever follows it.
pub proof fn lemma_read_exchange(x: ExchangeView, tail: Seq<u8>)
    requires
        x.wf(),
        x.fits(),
    ensures
        read_exchange(encode_exchange(x) + tail) == Some((x, tail)),
{
    let after_responses = encode_regions(x.outbox) + tail;
    let after_memory = encode_regions(x.responses) + after_responses;
    lemma_read_memory(x.memory, after_memory);
    lemma_read_regions(x.responses, after_responses);
    lemma_read_regions(x.outbox, tail);
    assert(encode_exchange(x) + tail =~= encode_memory(x.memory) + after_memory);
}

/// Bytes that read as an exchange start with the bytes of that exchange,
/// and the exchange is well-formed.
pub proof fn lemma_exchange_canonical(s: Seq<u8>)
    requires
        read_exchange(s) is Some,
    ensures
        read_exchange(s).unwrap().0.wf(),
        read_exchange(s).unwrap().0.fits(),
        s == encode_exchange(read_exchange(s).unwrap().0) + read_exchange(s).unwrap().1,
{
    lemma_memory_canonical(s);
    let (memory, after_memory) = read_memory(s).unwrap();
    lemma_regions_canonical(after_memory);
    let (responses, after_responses) = read_regions(after_memory).unwrap();
    lemma_regions_canonical(after_responses);
    let (x, tail) = read_exchange(s).unwrap();
    assert(s =~= encode_exchange(x) + tail);
}

/// Appends a queue of regions to a snapshot.
fn put_regions(out: &mut Vec<u8>, regions: &Vec<Region>)
    ensures
        final(out)@ == old(out)@ + encode_regions(regions@),
{
    let ghost before = out@;
    put_word(out, regions.len() as u64);
    let mut i: usize = 0;
    assert(regions@.skip(0) =~= regions@);
    assert(out@ + encode_region_run(regions@.skip(0)) =~= before + encode_regions(regions@));
    while i < regions.len()
        invariant
            i <= regions@.len(),
            out@ + encode_region_run(regions@.skip(i as int)) == before + encode_regions(regions@),
        decreases regions@.len() - i,
    {
        let ghost so_far = out@;
        proof {
            assert(regions@.skip(i as int).skip(1) =~= regions@.skip(i + 1));
        }
        put_word(out, regions[i].addr);
        put_word(out, regions[i].len);
        assert(out@ + encode_region_run(regions@.skip(i + 1)) =~= so_far + encode_region_run(
            regions@.skip(i as int),
        ));
        i = i + 1;
    }
    assert(out@ + encode_region_run(regions@.skip(i as int)) =~= out@);
}

/// Reads a queue of regions back from a snapshot.
fn take_regions(reader: &mut Reader) -> (r: Option<Vec<Region>>)
    ensures
        match read_regions(old(reader).rest()) {
            Some((regions, rest)) => r matches Some(out) && out@ == regions && final(reader).rest()
                == rest,
            None => r is None,
        },
{
    let n: u64 = match reader.word() {
        Some(n) => n,
        None => { return None; },
    };
    let ghost start = reader.rest();
    let mut out: Vec<Region> = Vec::new();
    let mut i: u64 = 0;
    proof {
        match read_region_run(start, n as nat) {
            Some((regions, tail)) => {
                assert(out@ + regions =~= regions);
            },
            None => {},
        }
    }
    while i < n
        invariant
            i <= n,
            read_regions(old(reader).rest()) == read_region_run(start, n as nat),
            read_region_run(start, n as nat) == match read_region_run(
                reader.rest(),
                (n - i) as nat,
            ) {
                Some((regions, tail)) => Some((out@ + regions, tail)),
                None => None,
            },
        decreases n - i,
    {
        let ghost so_far = out@;
        let addr: u64 = match reader.word() {
            Some(addr) => addr,
            None => { return None; },
        };
        let len: u64 = match reader.word() {
            Some(len) => len,
            None => { return None; },
        };
        let region = Region { addr, len };
        out.push(region);
        i = i + 1;
        proof {
            match read_region_run(reader.rest(), (n - i) as nat) {
                Some((regions, tail)) => {
                    assert(so_far + (seq![region] + regions) =~= out@ + regions);
                },
                None => {},
            }
        }
    }
    assert(out@ + Seq::<Region>::empty() =~= out@);
    Some(out)
}

/// Whether every region of `regions` lies inside `memory`.
fn check_held(memory: &LinearMemory, regions: &Vec<Region>) -> (ok: bool)
    ensures
        ok == all_held(memory@, regions@),
{
    let mut i: usize = 0;
    while i < regions.len()
        invariant
            i <= regions@.len(),
            forall|j: int| 0 <= j < i ==> memory@.holds_region(#[trigger] regions@[j]),
        decreases regions@.len() - i,
    {
        if !memory.holds(regions[i].addr, regions[i].len) {
            assert(!memory@.holds_region(regions@[i as int]));
            return false;
        }
        i = i + 1;
    }
    true
}

impl Exchange {
    /// The sizes of a held exchange can be written down.
    pub proof fn lemma_fits(&self)
        requires
            self.wf(),
        ensures
            self@.fits(),
    {
        assert(self.responses@.len() == self.responses.len());
        assert(self.outbox@.len() == self.outbox.len());
    }

    /// Appends this exchange to a snapshot.
    pub fn save(&self, out: &mut Vec<u8>)
        requires
            self.wf(),
        ensures
            self@.fits(),
            final(out)@ == old(out)@ + encode_exchange(self@),
    {
        let ghost before = out@;
        let mut responses: Vec<Region> = Vec::new();
        let mut i: usize = 0;
        while i < self.responses.len()
            invariant
                i <= self.responses@.len(),
                responses@ == self.responses@.take(i as int),
            decreases self.responses@.len() - i,
        {
            responses.push(self.responses[i]);
            assert(responses@ =~= self.responses@.take(i + 1));
            i = i + 1;
        }
        assert(responses@ =~= self.responses@);
        assert(self.responses@.len() == self.responses.len());
        assert(self.outbox@.len() == self.outbox.len());
        self.memory.save(out);
        put_regions(out, &responses);
        put_regions(out, &self.outbox);
        assert(out@ =~= before + encode_exchange(self@));
    }

    /// Reads an exchange back from a snapshot.
    pub fn restore(reader: &mut Reader) -> (r: Option<Exchange>)
        ensures
            match read_exchange(old(reader).rest()) {
                Some((x, rest)) => r matches Some(out) && out.wf() && out@ == x && final(
                    reader).rest() == rest,
                None => r is None,
            },
    {
        let memory: LinearMemory = match LinearMemory::restore(reader) {
            Some(memory) => memory,
            None => { return None; },
        };
        let waiting: Vec<Region> = match take_regions(reader) {
            Some(waiting) => waiting,
            None => { return None; },
        };
        let outbox: Vec<Region> = match take_regions(reader) {
            Some(outbox) => outbox,
            None => { return None; },
        };
        if !check_held(&memory, &waiting) || !check_held(&memory, &outbox) {
            return None;
        }
        let mut responses: VecDeque<Region> = VecDeque::new();
        let mut i: usize = 0;
        while i < waiting.len()
            invariant
                i <= waiting@.len(),
                responses@ == waiting@.take(i as int),
            decreases waiting@.len() - i,
        {
            responses.push_back(waiting[i]);
            assert(responses@ =~= waiting@.take(i + 1));
            i = i + 1;
        }
        assert(responses@ =~= waiting@);
        Some(Exchange { memory, responses, outbox })
    }
}

/// The bytes that a list of messages takes up.
pub open spec fn weight(messages: Seq<Seq<u8>>) -> nat
    decreases messages.len(),
{
    if messages.len() == 0 {
        0
    } else {
        weight(messages.drop_last()) + messages.last().len()
    }
}

impl ExchangeView {
    /// The exchange after the guest has left `messages`, first to last.
    pub open spec fn post_all(self, messages: Seq<Seq<u8>>) -> ExchangeView
        decreases messages.len(),
    {
        if messages.len() == 0 {
            self
        } else {
            self.post_all(messages.drop_last()).post(messages.last())
        }
    }
}

/// What the guest leaves is what the host collects. Messages that fit into
/// a fresh exchange lie in its memory one behind the other, and wait for
/// the host exactly as they were left and in the order they were left in.
pub proof fn lemma_messages_reach_host(limit: nat, messages: Seq<Seq<u8>>)
    requires
        weight(messages) <= limit <= u64::MAX,
    ensures
        ExchangeView::empty(limit).post_all(messages).wf(),
        ExchangeView::empty(limit).post_all(messages).memory.limit == limit,
        ExchangeView::empty(limit).post_all(messages).memory.bytes.len() == weight(messages),
        ExchangeView::empty(limit).post_all(messages).responses.len() == 0,
        ExchangeView::empty(limit).post_all(messages).messages() == messages,
        ExchangeView::empty(limit).post_all(messages).drain() == ExchangeView::empty(limit),
    decreases messages.len(),
{
    let fresh = ExchangeView::empty(limit);
    let after = fresh.post_all(messages);
    if messages.len() == 0 {
        assert(after.messages() =~= messages);
        assert(after.drain().memory.bytes =~= fresh.memory.bytes);
    } else {
        let earlier = messages.drop_last();
        let last = messages.last();
        let before = fresh.post_all(earlier);
        lemma_messages_reach_host(limit, earlier);
        let region = Region { addr: before.top(), len: last.len() as u64 };
        lemma_held_in_larger(before.memory, after.memory, before.outbox);
        lemma_held_push(after.memory, before.outbox, region);
        assert(after.responses =~= Seq::<Region>::empty());
        assert(after.messages() =~= messages) by {
            assert forall|i: int| 0 <= i < messages.len() implies after.messages()[i]
                == messages[i] by {
                if i < earlier.len() {
                    assert(before.memory.holds_region(before.outbox[i]));
                    assert(after.messages()[i] =~= before.messages()[i]);
                    assert(earlier[i] == messages[i]);
                } else {
                    assert(after.messages()[i] =~= last);
                }
            }
        }
        assert(after.drain().memory.bytes =~= fresh.memory.bytes);
        assert(after.drain().outbox =~= fresh.outbox);
        assert(after.drain().responses =~= fresh.responses);
    }
}

} // verus!
