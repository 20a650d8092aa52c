//! The guest's linear memory. The host never holds a pointer into it: every
//! access names an address and a length, and is checked against the current
//! size.

use crate::error::Trap;
use crate::wire::{blob, lemma_read_blob, lemma_read_word, put_blob, put_word, read_blob, read_word, word, Reader};
use vstd::prelude::*;
use vstd::slice::*;

verus! {

/// A run of bytes in linear memory.
#[derive(Clone, Copy, Debug, PartialEq, Eq, Structural)]
pub struct Region {
    pub addr: u64,
    pub len: u64,
}

/// What a linear memory is, mathematically: its bytes, and the size it may
/// not outgrow.
pub struct MemoryView {
    pub bytes: Seq<u8>,
    pub limit: nat,
}

/// `n` zero bytes.
pub open spec fn zeros(n: nat) -> Seq<u8> {
    Seq::new(n, |i: int| 0u8)
}

impl MemoryView {
    /// The memory is no larger than its limit, and the limit is a size that
    /// an address can reach.
    pub open spec fn wf(self) -> bool {
        self.bytes.len() <= self.limit <= u64::MAX
    }

    /// Whether the `len` bytes at `addr` all lie inside the memory.
    pub open spec fn holds(self, addr: u64, len: nat) -> bool {
        addr + len <= self.bytes.len()
    }

    /// Whether a region lies inside the memory.
    pub open spec fn holds_region(self, r: Region) -> bool {
        self.holds(r.addr, r.len as nat)
    }

    /// The `len` bytes at `addr`.
    pub open spec fn slice(self, addr: u64, len: nat) -> Seq<u8>
        recommends
            self.holds(addr, len),
    {
        self.bytes.subrange(addr as int, addr + len)
    }

    /// The memory after `data` was stored at `addr`.
    pub open spec fn store(self, addr: u64, data: Seq<u8>) -> MemoryView
        recommends
            self.holds(addr, data.len()),
    {
        MemoryView {
            bytes: self.bytes.take(addr as int) + data + self.bytes.skip(addr + data.len()),
            limit: self.limit,
        }
    }

    /// The memory after `data` was appended to it.
    pub open spec fn extend(self, data: Seq<u8>) -> MemoryView {
        MemoryView { bytes: self.bytes + data, limit: self.limit }
    }

    /// The memory with nothing in it.
    pub open spec fn cleared(self) -> MemoryView {
        MemoryView { bytes: Seq::empty(), limit: self.limit }
    }
}

/// A store changes the bytes it covers and no others, and reads back.
pub proof fn lemma_store(m: MemoryView, addr: u64, data: Seq<u8>)
    requires
        m.holds(addr, data.len()),
    ensures
        m.store(addr, data).bytes.len() == m.bytes.len(),
        m.store(addr, data).slice(addr, data.len()) == data,
        forall|i: int|
            0 <= i < m.bytes.len() && !(addr <= i < addr + data.len()) ==> m.store(
                addr,
                data,
            ).bytes[i] == m.bytes[i],
{
    assert(m.store(addr, data).slice(addr, data.len()) =~= data);
}

/// Byte-addressable memory with a size limit.
pub struct LinearMemory {
    bytes: Vec<u8>,
    limit: usize,
}

impl View for LinearMemory {
    type V = MemoryView;

    closed spec fn view(&self) -> MemoryView {
        MemoryView { bytes: self.bytes@, limit: self.limit as nat }
    }
}

impl LinearMemory {
    /// Well-formed: no larger than the limit, which itself is a size that a
    /// machine can hold.
    pub open spec fn wf(&self) -> bool {
        self@.wf() && self@.limit <= usize::MAX
    }

    /// An empty memory that may grow up to `limit` bytes.
    pub fn new(limit: usize) -> (m: Self)
        ensures
            m.wf(),
            m@ == (MemoryView { bytes: Seq::empty(), limit: limit as nat }),
    {
        LinearMemory { bytes: Vec::new(), limit }
    }

    /// The current size in bytes.
    pub fn size(&self) -> (n: u64)
        ensures
            n == self@.bytes.len(),
    {
        self.bytes.len() as u64
    }

    /// The size this memory may not outgrow.
    pub fn limit(&self) -> (n: usize)
        ensures
            n == self@.limit,
    {
        self.limit
    }

    /// Whether the `len` bytes at `addr` all lie inside the memory.
    pub fn holds(&self, addr: u64, len: u64) -> (b: bool)
        ensures
            b == self@.holds(addr, len as nat),
    {
        let size: u64 = self.bytes.len() as u64;
        len <= size && addr <= size - len
    }

    /// Copies a region that lies inside the memory out of it.
    pub(crate) fn copy(&self, region: Region) -> (data: Vec<u8>)
        requires
            self@.holds_region(region),
        ensures
            data@ == self@.slice(region.addr, region.len as nat),
    {
        assert(self.bytes@.len() == self.bytes.len());
        let from: usize = region.addr as usize;
        let to: usize = (region.addr + region.len) as usize;
        slice_to_vec(slice_subrange(self.bytes.as_slice(), from, to))
    }

    /// Copies the `len` bytes at `addr` out of the memory. Faults if any of
    /// them lies outside it.
    pub fn read(&self, addr: u64, len: u64) -> (r: Result<Vec<u8>, Trap>)
        ensures
            match r {
                Ok(data) => self@.holds(addr, len as nat) && data@ == self@.slice(addr, len as nat),
                Err(t) => !self@.holds(addr, len as nat) && t == Trap::OutOfBounds,
            },
    {
        if self.holds(addr, len) {
            Ok(self.copy(Region { addr, len }))
        } else {
            Err(Trap::OutOfBounds)
        }
    }

    /// Stores `data` at `addr`. Faults, and changes nothing, if any byte
    /// would land outside the memory.
    pub fn write(&mut self, addr: u64, data: &[u8]) -> (r: Result<(), Trap>)
        requires
            old(self).wf(),
        ensures
            final(self).wf(),
            match r {
                Ok(()) => old(self)@.holds(addr, data@.len()) && final(self)@ == old(self)@.store(
                    addr,
                    data@,
                ),
                Err(t) => !old(self)@.holds(addr, data@.len()) && t == Trap::OutOfBounds
                    && final(self)@ == old(self)@,
            },
    {
        let size: usize = self.bytes.len();
        if data.len() > size || addr > (size - data.len()) as u64 {
            return Err(Trap::OutOfBounds);
        }
        let base: usize = addr as usize;
        let mut i: usize = 0;
        assert(self.bytes@ =~= old(self).bytes@.take(base as int) + data@.take(0) + old(self).bytes@.skip(base as int));
        while i < data.len()
            invariant
                i <= data@.len(),
                base + data@.len() <= old(self).bytes@.len() <= usize::MAX,
                self.limit == old(self).limit,
                self.bytes@ == old(self).bytes@.take(base as int) + data@.take(i as int) + old(self).bytes@.skip(base + i),
            decreases data@.len() - i,
        {
            self.bytes.set(base + i, data[i]);
            assert(self.bytes@ =~= old(self).bytes@.take(base as int) + data@.take(i + 1) + old(self).bytes@.skip(base + i + 1));
            i = i + 1;
        }
        assert(data@.take(i as int) =~= data@);
        Ok(())
    }

    /// Appends `data` to the memory and returns the address it starts at.
    /// Faults, and changes nothing, if the memory would outgrow its limit.
    pub fn append(&mut self, data: &[u8]) -> (r: Result<u64, Trap>)
        requires
            old(self).wf(),
        ensures
            final(self).wf(),
            match r {
                Ok(addr) => {
                    &&& old(self)@.bytes.len() + data@.len() <= old(self)@.limit
                    &&& addr == old(self)@.bytes.len()
                    &&& final(self)@ == old(self)@.extend(data@)
                },
                Err(t) => {
                    &&& old(self)@.bytes.len() + data@.len() > old(self)@.limit
                    &&& t == Trap::OutOfMemory
                    &&& final(self)@ == old(self)@
                },
            },
    {
        let size: usize = self.bytes.len();
        if data.len() > self.limit - size {
            return Err(Trap::OutOfMemory);
        }
        let ghost before = self.bytes@;
        self.bytes.extend_from_slice(data);
        assert(self.bytes@ =~= before + data@);
        Ok(size as u64)
    }

    /// Appends `len` zero bytes to the memory and returns the address they
    /// start at. Faults, and changes nothing, if the memory would outgrow
    /// its limit.
    pub fn grow(&mut self, len: u64) -> (r: Result<u64, Trap>)
        requires
            old(self).wf(),
        ensures
            final(self).wf(),
            match r {
                Ok(addr) => {
                    &&& old(self)@.bytes.len() + len <= old(self)@.limit
                    &&& addr == old(self)@.bytes.len()
                    &&& final(self)@ == old(self)@.extend(zeros(len as nat))
                },
                Err(t) => {
                    &&& old(self)@.bytes.len() + len > old(self)@.limit
                    &&& t == Trap::OutOfMemory
                    &&& final(self)@ == old(self)@
                },
            },
    {
        let size: usize = self.bytes.len();
        if len > (self.limit - size) as u64 {
            return Err(Trap::OutOfMemory);
        }
        let count: usize = len as usize;
        let mut i: usize = 0;
        assert(self.bytes@ =~= old(self).bytes@ + zeros(0));
        while i < count
            invariant
                i <= count,
                size + count <= self.limit,
                self.limit == old(self).limit,
                size == old(self).bytes@.len(),
                self.bytes@ == old(self).bytes@ + zeros(i as nat),
            decreases count - i,
        {
            self.bytes.push(0);
            assert(self.bytes@ =~= old(self).bytes@ + zeros((i + 1) as nat));
            i = i + 1;
        }
        Ok(size as u64)
    }

    /// Empties the memory. The limit stays.
    pub fn clear(&mut self)
        requires
            old(self).wf(),
        ensures
            final(self).wf(),
            final(self)@ == old(self)@.cleared(),
    {
        self.bytes.clear();
    }
}

/// The bytes of a region: address, then length.
pub open spec fn encode_region(r: Region) -> Seq<u8> {
    word(r.addr) + word(r.len)
}

/// Splits one region off the front of `s`.
pub open spec fn read_region(s: Seq<u8>) -> Option<(Region, Seq<u8>)> {
    match read_word(s) {
        Some((addr, rest)) => match read_word(rest) {
            Some((len, tail)) => Some((Region { addr, len }, tail)),
            None => None,
        },
        None => None,
    }
}

/// A region reads back as itself, whatever follows it.
pub proof fn lemma_read_region(r: Region, tail: Seq<u8>)
    ensures
        encode_region(r).len() == 16,
        read_region(encode_region(r) + tail) == Some((r, tail)),
{
    lemma_read_word(r.addr, word(r.len) + tail);
    lemma_read_word(r.len, tail);
    assert(encode_region(r) + tail =~= word(r.addr) + (word(r.len) + tail));
}

/// Bytes that read as a region start with the bytes of that region.
pub proof fn lemma_region_canonical(s: Seq<u8>)
    requires
        read_region(s) is Some,
    ensures
        s == encode_region(read_region(s).unwrap().0) + read_region(s).unwrap().1,
{
    crate::wire::lemma_word_canonical(s);
    crate::wire::lemma_word_canonical(s.skip(8));
    let (r, tail) = read_region(s).unwrap();
    assert(s =~= word(r.addr) + word(r.len) + tail);
}

/// The bytes of a memory in a snapshot: its limit, then its contents as a
/// blob.
pub open spec fn encode_memory(m: MemoryView) -> Seq<u8> {
    word(m.limit as u64) + blob(m.bytes)
}

/// Splits a memory off the front of `s`. The contents must fit under the
/// limit, and the limit must be a size this machine can hold.
pub open spec fn read_memory(s: Seq<u8>) -> Option<(MemoryView, Seq<u8>)> {
    match read_word(s) {
        Some((limit, rest)) => match read_blob(rest) {
            Some((bytes, tail)) => if bytes.len() <= limit <= usize::MAX {
                Some((MemoryView { bytes, limit: limit as nat }, tail))
            } else {
                None
            },
            None => None,
        },
        None => None,
    }
}

/// A memory that this machine can hold reads back as itself, whatever
/// follows it.
pub proof fn lemma_read_memory(m: MemoryView, tail: Seq<u8>)
    requires
        m.wf(),
        m.limit <= usize::MAX,
    ensures
        read_memory(encode_memory(m) + tail) == Some((m, tail)),
{
    lemma_read_word(m.limit as u64, blob(m.bytes) + tail);
    lemma_read_blob(m.bytes, tail);
    assert(encode_memory(m) + tail =~= word(m.limit as u64) + (blob(m.bytes) + tail));
}

/// Bytes that read as a memory start with the bytes of that memory.
pub proof fn lemma_memory_canonical(s: Seq<u8>)
    requires
        read_memory(s) is Some,
    ensures
        read_memory(s).unwrap().0.wf(),
        read_memory(s).unwrap().0.limit <= usize::MAX,
        s == encode_memory(read_memory(s).unwrap().0) + read_memory(s).unwrap().1,
{
    crate::wire::lemma_word_canonical(s);
    crate::wire::lemma_blob_canonical(s.skip(8));
    let (m, tail) = read_memory(s).unwrap();
    assert(s =~= word(m.limit as u64) + blob(m.bytes) + tail);
}

impl LinearMemory {
    /// Appends this memory to a snapshot.
    pub fn save(&self, out: &mut Vec<u8>)
        requires
            self.wf(),
        ensures
            final(out)@ == old(out)@ + encode_memory(self@),
    {
        let ghost before = out@;
        put_word(out, self.limit as u64);
        put_blob(out, self.bytes.as_slice());
        assert(out@ =~= before + encode_memory(self@));
    }

    /// Reads a memory back from a snapshot.
    pub fn restore(reader: &mut Reader) -> (r: Option<LinearMemory>)
        ensures
            match read_memory(old(reader).rest()) {
                Some((m, rest)) => r matches Some(out) && out.wf() && out@ == m && final(reader).rest() == rest,
                None => r is None,
            },
    {
        let limit: u64 = match reader.word() {
            Some(limit) => limit,
            None => { return None; },
        };
        let bytes: &[u8] = match reader.blob() {
            Some(bytes) => bytes,
            None => { return None; },
        };
        if limit > usize::MAX as u64 || bytes.len() > limit as usize {
            return None;
        }
        Some(LinearMemory { bytes: slice_to_vec(bytes), limit: limit as usize })
    }
}

} // verus!
