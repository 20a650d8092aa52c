//! The snapshot format: everything about a sandboxed guest, written down so
//! that it can be brought back later, or elsewhere.
//!
//! A snapshot is a five-byte header, the module image as a blob, the
//! budget, the fault, and the guest's state with all of its linear memory.
//! Whoever reads one trusts none of it: the image is parsed again, and the
//! state must fit it.

use crate::error::Trap;
use crate::routine::{jumps_land, lemma_parsed_jumps_land, parse_image, OpView};
use crate::sandbox::SandboxView;
use crate::state::{encode_state, lemma_read_state, lemma_state_canonical, read_state};
use crate::wire::{
    blob, lemma_blob_canonical, lemma_read_blob, lemma_read_word, lemma_word_canonical,
    read_blob, read_byte, read_word, word, Reader,
};
use vstd::prelude::*;

verus! {

/// The snapshot format version this crate reads and writes.
pub const SNAPSHOT_VERSION: u8 = 1;

/// Every snapshot starts with these bytes: a NUL, the letters `vgs`, and the
/// format version.
pub open spec fn snapshot_header() -> Seq<u8> {
    seq![0u8, 0x76u8, 0x67u8, 0x73u8, SNAPSHOT_VERSION]
}

/// The byte that stands for a fault, or for none, in a snapshot.
pub open spec fn fault_code(fault: Option<Trap>) -> u8 {
    match fault {
        None => 0,
        Some(Trap::OutOfBounds) => 1,
        Some(Trap::OutOfMemory) => 2,
        Some(Trap::Aborted) => 3,
        Some(Trap::BudgetExhausted) => 4,
        Some(Trap::Overflow) => 5,
        Some(Trap::NotSuspended) => 6,
    }
}

/// What a byte stands for in the place of the fault; `None` where it stands
/// for nothing.
pub open spec fn fault_of(code: u8) -> Option<Option<Trap>> {
    if code == 0 {
        Some(None)
    } else if code == 1 {
        Some(Some(Trap::OutOfBounds))
    } else if code == 2 {
        Some(Some(Trap::OutOfMemory))
    } else if code == 3 {
        Some(Some(Trap::Aborted))
    } else if code == 4 {
        Some(Some(Trap::BudgetExhausted))
    } else if code == 5 {
        Some(Some(Trap::Overflow))
    } else if code == 6 {
        Some(Some(Trap::NotSuspended))
    } else {
        None
    }
}

/// What a snapshot holds besides the module image: budget, fault, and the
/// guest's state with all of its linear memory.
pub open spec fn encode_rest(v: SandboxView) -> Seq<u8> {
    word(v.budget) + seq![fault_code(v.fault)] + encode_state(v.guest)
}

/// The snapshot of an instance: header, module image, and the rest.
pub open spec fn encode_snapshot(v: SandboxView) -> Seq<u8> {
    snapshot_header() + blob(v.image) + encode_rest(v)
}

/// Reads what follows the image in a snapshot, for a guest that runs
/// `routine`. Nothing may be left over, and unless the instance has
/// faulted, no message may wait for the host.
pub open spec fn read_rest(s: Seq<u8>, image: Seq<u8>, routine: Seq<OpView>) -> Option<
    SandboxView,
> {
    match read_word(s) {
        Some((budget, after_budget)) => match read_byte(after_budget) {
            Some((code, after_fault)) => match (fault_of(code), read_state(after_fault, routine)) {
                (Some(fault), Some((guest, tail))) => {
                    let v = SandboxView { image, budget, fault, guest };
                    if tail.len() == 0 && v.collected() {
                        Some(v)
                    } else {
                        None
                    }
                },
                _ => None,
            },
            None => None,
        },
        None => None,
    }
}

/// The instance that a snapshot holds. `None` where the header is missing or
/// names another version, where the image in it is no module image, where
/// the state in it does not fit that image, where messages wait in an
/// instance that has not faulted, or where bytes are missing or left over.
pub open spec fn read_snapshot(s: Seq<u8>) -> Option<SandboxView> {
    if s.len() >= 5 && s.take(5) == snapshot_header() {
        match read_blob(s.skip(5)) {
            Some((image, after_image)) => match parse_image(image) {
                Some(routine) => read_rest(after_image, image, routine),
                None => None,
            },
            None => None,
        }
    } else {
        None
    }
}

/// What follows the image reads back as the instance it was written for.
proof fn lemma_rest_round_trip(v: SandboxView)
    requires
        v.guest.wf(),
        v.guest.fits(),
        v.collected(),
    ensures
        read_rest(encode_rest(v), v.image, v.guest.machine.executor.routine) == Some(v),
{
    let after_fault = encode_state(v.guest);
    let after_budget = seq![fault_code(v.fault)] + after_fault;
    lemma_read_word(v.budget, after_budget);
    assert(encode_rest(v) =~= word(v.budget) + after_budget);
    assert(after_budget.skip(1) =~= after_fault);
    assert(after_fault + Seq::<u8>::empty() =~= after_fault);
    lemma_read_state(v.guest, Seq::empty());
}

/// Bytes that read as what follows the image are what is written for the
/// instance they hold.
proof fn lemma_rest_canonical(s: Seq<u8>, image: Seq<u8>, routine: Seq<OpView>)
    requires
        read_rest(s, image, routine) is Some,
    ensures
        read_rest(s, image, routine).unwrap().image == image,
        read_rest(s, image, routine).unwrap().guest.machine.executor.routine == routine,
        jumps_land(routine) ==> read_rest(s, image, routine).unwrap().guest.wf(),
        read_rest(s, image, routine).unwrap().guest.fits(),
        read_rest(s, image, routine).unwrap().collected(),
        encode_rest(read_rest(s, image, routine).unwrap()) == s,
{
    let v = read_rest(s, image, routine).unwrap();
    lemma_word_canonical(s);
    let (budget, after_budget) = read_word(s).unwrap();
    let after_fault = after_budget.skip(1);
    lemma_state_canonical(after_fault, routine);
    let (guest, tail) = read_state(after_fault, routine).unwrap();
    assert(after_fault =~= encode_state(guest) + tail);
    assert(after_budget =~= seq![fault_code(v.fault)] + after_fault);
    assert(encode_rest(v) =~= s);
}

/// Round trip: the snapshot of a well-formed instance holds that instance.
pub proof fn lemma_snapshot_round_trip(v: SandboxView)
    requires
        v.wf(),
        v.fits(),
    ensures
        read_snapshot(encode_snapshot(v)) == Some(v),
{
    let s = encode_snapshot(v);
    assert(s.take(5) =~= snapshot_header());
    assert(s.skip(5) =~= blob(v.image) + encode_rest(v));
    lemma_read_blob(v.image, encode_rest(v));
    lemma_rest_round_trip(v);
}

/// No instance has two snapshots: bytes that hold an instance are the
/// snapshot of that instance, and the instance is well-formed.
pub proof fn lemma_snapshot_canonical(s: Seq<u8>)
    requires
        read_snapshot(s) is Some,
    ensures
        read_snapshot(s).unwrap().wf(),
        read_snapshot(s).unwrap().fits(),
        encode_snapshot(read_snapshot(s).unwrap()) == s,
{
    let v = read_snapshot(s).unwrap();
    lemma_blob_canonical(s.skip(5));
    let (image, after_image) = read_blob(s.skip(5)).unwrap();
    let routine = parse_image(image).unwrap();
    lemma_parsed_jumps_land(image);
    lemma_rest_canonical(after_image, image, routine);
    assert(s =~= s.take(5) + s.skip(5));
    assert(encode_snapshot(v) =~= s);
}

/// A snapshot written under another format version is refused.
pub proof fn lemma_foreign_snapshot_is_refused(s: Seq<u8>)
    requires
        s.len() < 5 || s[4] != SNAPSHOT_VERSION,
    ensures
        read_snapshot(s) is None,
{
    if s.len() >= 5 {
        assert(s.take(5)[4] == s[4]);
    }
}

/// The header of every snapshot.
pub(crate) fn snapshot_header_bytes() -> (out: Vec<u8>)
    ensures
        out@ == snapshot_header(),
{
    let mut out: Vec<u8> = Vec::new();
    out.push(0);
    out.push(0x76);
    out.push(0x67);
    out.push(0x73);
    out.push(SNAPSHOT_VERSION);
    assert(out@ =~= snapshot_header());
    out
}

/// Appends the byte that stands for a fault, or for none, to a snapshot.
pub(crate) fn put_fault(out: &mut Vec<u8>, fault: Option<Trap>)
    ensures
        final(out)@ == old(out)@ + seq![fault_code(fault)],
{
    let ghost before = out@;
    out.push(
        match fault {
            None => 0,
            Some(Trap::OutOfBounds) => 1,
            Some(Trap::OutOfMemory) => 2,
            Some(Trap::Aborted) => 3,
            Some(Trap::BudgetExhausted) => 4,
            Some(Trap::Overflow) => 5,
            Some(Trap::NotSuspended) => 6,
        },
    );
    assert(out@ =~= before + seq![fault_code(fault)]);
}

/// Reads the place of the fault in a snapshot.
pub(crate) fn take_fault(reader: &mut Reader) -> (r: Option<Option<Trap>>)
    ensures
        match read_byte(old(reader).rest()) {
            Some((code, rest)) => r == fault_of(code) && final(reader).rest() == rest,
            None => r is None,
        },
{
    let code: u8 = match reader.byte() {
        Some(code) => code,
        None => { return None; },
    };
    match code {
        0 => Some(None),
        1 => Some(Some(Trap::OutOfBounds)),
        2 => Some(Some(Trap::OutOfMemory)),
        3 => Some(Some(Trap::Aborted)),
        4 => Some(Some(Trap::BudgetExhausted)),
        5 => Some(Some(Trap::Overflow)),
        6 => Some(Some(Trap::NotSuspended)),
        _ => None,
    }
}

} // verus!
