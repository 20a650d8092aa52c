//! Byte-level building blocks shared by every encoding in the crate:
//! little-endian words, length-prefixed blobs, and a bounds-checked cursor.

use vstd::bytes::*;
use vstd::prelude::*;
use vstd::slice::*;

verus! {

/// The eight bytes of `x`, least significant first.
pub open spec fn word(x: u64) -> Seq<u8> {
    spec_u64_to_le_bytes(x)
}

/// The four bytes of `x`, least significant first.
pub open spec fn half(x: u32) -> Seq<u8> {
    spec_u32_to_le_bytes(x)
}

/// A blob is its length as a word, followed by its bytes.
pub open spec fn blob(b: Seq<u8>) -> Seq<u8> {
    word(b.len() as u64) + b
}

/// Splits one byte off the front of `s`.
pub open spec fn read_byte(s: Seq<u8>) -> Option<(u8, Seq<u8>)> {
    if s.len() >= 1 {
        Some((s[0], s.skip(1)))
    } else {
        None
    }
}

/// Splits one word off the front of `s`.
pub open spec fn read_word(s: Seq<u8>) -> Option<(u64, Seq<u8>)> {
    if s.len() >= 8 {
        Some((spec_u64_from_le_bytes(s.take(8)), s.skip(8)))
    } else {
        None
    }
}

/// Splits one four-byte value off the front of `s`.
pub open spec fn read_half(s: Seq<u8>) -> Option<(u32, Seq<u8>)> {
    if s.len() >= 4 {
        Some((spec_u32_from_le_bytes(s.take(4)), s.skip(4)))
    } else {
        None
    }
}

/// Splits one blob off the front of `s`: the length word must be followed by
/// at least that many bytes.
pub open spec fn read_blob(s: Seq<u8>) -> Option<(Seq<u8>, Seq<u8>)> {
    match read_word(s) {
        Some((n, rest)) => if rest.len() >= n {
            Some((rest.take(n as int), rest.skip(n as int)))
        } else {
            None
        },
        None => None,
    }
}

/// A word is eight bytes long and reads back as itself, whatever follows it.
pub proof fn lemma_read_word(x: u64, tail: Seq<u8>)
    ensures
        word(x).len() == 8,
        read_word(word(x) + tail) == Some((x, tail)),
{
    lemma_auto_spec_u64_to_from_le_bytes();
    let s = word(x) + tail;
    assert(s.take(8) =~= word(x));
    assert(s.skip(8) =~= tail);
}

/// A four-byte value reads back as itself, whatever follows it.
pub proof fn lemma_read_half(x: u32, tail: Seq<u8>)
    ensures
        half(x).len() == 4,
        read_half(half(x) + tail) == Some((x, tail)),
{
    lemma_auto_spec_u32_to_from_le_bytes();
    let s = half(x) + tail;
    assert(s.take(4) =~= half(x));
    assert(s.skip(4) =~= tail);
}

/// A blob whose length fits a word reads back as itself, whatever follows it.
pub proof fn lemma_read_blob(b: Seq<u8>, tail: Seq<u8>)
    requires
        b.len() <= u64::MAX,
    ensures
        blob(b).len() == 8 + b.len(),
        read_blob(blob(b) + tail) == Some((b, tail)),
{
    let n: u64 = b.len() as u64;
    lemma_read_word(n, b + tail);
    assert(blob(b) + tail =~= word(n) + (b + tail));
    assert((b + tail).take(n as int) =~= b);
    assert((b + tail).skip(n as int) =~= tail);
}

/// Whatever a reader takes from the front of `s`, it leaves a suffix of `s`.
pub proof fn lemma_read_shrinks(s: Seq<u8>)
    ensures
        read_byte(s) matches Some((_, rest)) ==> rest.len() + 1 == s.len(),
        read_half(s) matches Some((_, rest)) ==> rest.len() + 4 == s.len(),
        read_word(s) matches Some((_, rest)) ==> rest.len() + 8 == s.len(),
        read_blob(s) matches Some((b, rest)) ==> rest.len() + b.len() + 8 == s.len(),
{
}

/// Appends the eight bytes of `x` to `out`.
pub fn put_word(out: &mut Vec<u8>, x: u64)
    ensures
        final(out)@ == old(out)@ + word(x),
{
    let mut bytes: Vec<u8> = u64_to_le_bytes(x);
    out.append(&mut bytes);
}

/// Appends the four bytes of `x` to `out`.
pub fn put_half(out: &mut Vec<u8>, x: u32)
    ensures
        final(out)@ == old(out)@ + half(x),
{
    let mut bytes: Vec<u8> = u32_to_le_bytes(x);
    out.append(&mut bytes);
}

/// Appends `data` to `out` as it stands.
pub fn put_raw(out: &mut Vec<u8>, data: &[u8])
    ensures
        final(out)@ == old(out)@ + data@,
{
    let ghost before = out@;
    out.extend_from_slice(data);
    assert(out@ =~= before + data@);
}

/// Appends `data` to `out` as a blob.
pub fn put_blob(out: &mut Vec<u8>, data: &[u8])
    ensures
        final(out)@ == old(out)@ + blob(data@),
        data@.len() <= u64::MAX,
{
    let ghost before = out@;
    put_word(out, data.len() as u64);
    put_raw(out, data);
    assert(out@ =~= before + blob(data@));
}

/// Whether two byte strings are the same.
pub fn same_bytes(a: &[u8], b: &[u8]) -> (same: bool)
    ensures
        same == (a@ == b@),
{
    if a.len() != b.len() {
        return false;
    }
    let mut i: usize = 0;
    while i < a.len()
        invariant
            i <= a@.len(),
            a@.len() == b@.len(),
            a@.take(i as int) == b@.take(i as int),
        decreases a@.len() - i,
    {
        if a[i] != b[i] {
            assert(a@[i as int] != b@[i as int]);
            return false;
        }
        assert(a@.take(i + 1) =~= a@.take(i as int).push(a@[i as int]));
        assert(b@.take(i + 1) =~= b@.take(i as int).push(b@[i as int]));
        i = i + 1;
    }
    assert(a@.take(i as int) =~= a@);
    assert(b@.take(i as int) =~= b@);
    true
}

/// A cursor over a byte slice. Every read is checked against what is left, so
/// no input can make it look past the end.
pub struct Reader<'a> {
    data: &'a [u8],
    pos: usize,
}

impl<'a> Reader<'a> {
    /// The bytes that have not been read yet.
    pub closed spec fn rest(&self) -> Seq<u8> {
        self.data@.skip(self.pos as int)
    }

    /// The cursor never runs past its slice.
    #[verifier::type_invariant]
    spec fn in_bounds(&self) -> bool {
        self.pos <= self.data@.len()
    }

    /// A cursor at the start of `data`.
    pub fn new(data: &'a [u8]) -> (r: Self)
        ensures
            r.rest() == data@,
    {
        let r = Reader { data, pos: 0 };
        assert(data@.skip(0) =~= data@);
        r
    }

    /// How many bytes are left.
    pub fn remaining(&self) -> (n: usize)
        ensures
            n == self.rest().len(),
    {
        proof {
            use_type_invariant(self);
        }
        self.data.len() - self.pos
    }

    /// Whether every byte has been read.
    pub fn is_empty(&self) -> (b: bool)
        ensures
            b == (self.rest().len() == 0),
    {
        self.remaining() == 0
    }

    /// Reads one byte, or leaves the cursor where it is if none is left.
    pub fn byte(&mut self) -> (r: Option<u8>)
        ensures
            match read_byte(old(self).rest()) {
                Some((v, rest)) => r == Some(v) && final(self).rest() == rest,
                None => r is None && final(self).rest() == old(self).rest(),
            },
    {
        proof {
            use_type_invariant(&*self);
        }
        if self.data.len() - self.pos < 1 {
            return None;
        }
        let v: u8 = self.data[self.pos];
        assert(self.data@.skip(self.pos as int).skip(1) =~= self.data@.skip(self.pos + 1));
        self.pos = self.pos + 1;
        Some(v)
    }

    /// Reads `n` bytes, or leaves the cursor where it is if fewer are left.
    pub fn take(&mut self, n: usize) -> (r: Option<&'a [u8]>)
        ensures
            match r {
                Some(b) => {
                    &&& n <= old(self).rest().len()
                    &&& b@ == old(self).rest().take(n as int)
                    &&& final(self).rest() == old(self).rest().skip(n as int)
                },
                None => n > old(self).rest().len() && final(self).rest() == old(self).rest(),
            },
    {
        proof {
            use_type_invariant(&*self);
        }
        if self.data.len() - self.pos < n {
            return None;
        }
        let out: &'a [u8] = slice_subrange(self.data, self.pos, self.pos + n);
        assert(out@ =~= self.data@.skip(self.pos as int).take(n as int));
        assert(self.data@.skip(self.pos as int).skip(n as int) =~= self.data@.skip(self.pos + n));
        self.pos = self.pos + n;
        Some(out)
    }

    /// Reads past `expected` if the bytes that are left start with it.
    pub fn expect(&mut self, expected: &[u8]) -> (ok: bool)
        ensures
            ok == (old(self).rest().len() >= expected@.len() && old(self).rest().take(
                expected@.len() as int,
            ) == expected@),
            ok ==> final(self).rest() == old(self).rest().skip(expected@.len() as int),
    {
        match self.take(expected.len()) {
            Some(found) => same_bytes(found, expected),
            None => false,
        }
    }

    /// Reads one word, or leaves the cursor where it is if fewer than eight
    /// bytes are left.
    pub fn word(&mut self) -> (r: Option<u64>)
        ensures
            match read_word(old(self).rest()) {
                Some((v, rest)) => r == Some(v) && final(self).rest() == rest,
                None => r is None && final(self).rest() == old(self).rest(),
            },
    {
        match self.take(8) {
            Some(b) => Some(u64_from_le_bytes(b)),
            None => None,
        }
    }

    /// Reads one four-byte value, or leaves the cursor where it is if fewer
    /// than four bytes are left.
    pub fn half(&mut self) -> (r: Option<u32>)
        ensures
            match read_half(old(self).rest()) {
                Some((v, rest)) => r == Some(v) && final(self).rest() == rest,
                None => r is None && final(self).rest() == old(self).rest(),
            },
    {
        match self.take(4) {
            Some(b) => Some(u32_from_le_bytes(b)),
            None => None,
        }
    }

    /// Reads one blob. If the length word or the bytes it announces are not
    /// all there, nothing is returned.
    pub fn blob(&mut self) -> (r: Option<&'a [u8]>)
        ensures
            match read_blob(old(self).rest()) {
                Some((b, rest)) => r matches Some(out) && out@ == b && final(self).rest() == rest,
                None => r is None,
            },
    {
        let n: u64 = match self.word() {
            Some(n) => n,
            None => { return None; },
        };
        if n > usize::MAX as u64 {
            proof {
                use_type_invariant(&*self);
                assert(self.data@.len() == self.data.len());
                assert(self.rest().len() <= self.data@.len());
            }
            return None;
        }
        self.take(n as usize)
    }
}

/// Bytes that read as a word start with the bytes of that word.
pub proof fn lemma_word_canonical(s: Seq<u8>)
    requires
        read_word(s) is Some,
    ensures
        s == word(read_word(s).unwrap().0) + read_word(s).unwrap().1,
{
    lemma_auto_spec_u64_to_from_le_bytes();
    assert(s =~= s.take(8) + s.skip(8));
}

/// Bytes that read as a blob start with the bytes of that blob.
pub proof fn lemma_blob_canonical(s: Seq<u8>)
    requires
        read_blob(s) is Some,
    ensures
        read_blob(s).unwrap().0.len() <= u64::MAX,
        s == blob(read_blob(s).unwrap().0) + read_blob(s).unwrap().1,
{
    lemma_word_canonical(s);
    let (n, rest) = read_word(s).unwrap();
    assert(rest =~= rest.take(n as int) + rest.skip(n as int));
    let (b, tail) = read_blob(s).unwrap();
    assert(s =~= blob(b) + tail);
}

} // verus!
