//! The guest's code: one routine, written as a list of instructions, and the
//! binary image that carries it.
//!
//! An image is a five-byte header followed by the instructions, each an
//! opcode byte and, for two of them, an operand.

use crate::wire::{
    blob, lemma_read_blob, lemma_read_word, put_blob, put_word, read_blob, read_byte, read_word,
    word, Reader,
};
use vstd::prelude::*;
use vstd::slice::*;

verus! {

/// One instruction of a routine.
#[derive(Clone, Debug, PartialEq, Eq)]
pub enum Op {
    /// The routine is over.
    End,
    /// Give control back to the host until the next tick.
    Halt,
    /// Tell the host that the frame is complete, then give control back
    /// until the next tick.
    Frame,
    /// Add one to the routine's counter.
    Count,
    /// Take the oldest buffer the host has filled, if any.
    Recv,
    /// Go on at the instruction with this index.
    Jump(u64),
    /// Leave these bytes for the host as one message.
    Emit(Vec<u8>),
    /// Give up with a fault.
    Abort,
}

/// What an `Op` is, mathematically.
pub enum OpView {
    End,
    Halt,
    Frame,
    Count,
    Recv,
    Jump(u64),
    Emit(Seq<u8>),
    Abort,
}

impl View for Op {
    type V = OpView;

    open spec fn view(&self) -> OpView {
        match self {
            Op::End => OpView::End,
            Op::Halt => OpView::Halt,
            Op::Frame => OpView::Frame,
            Op::Count => OpView::Count,
            Op::Recv => OpView::Recv,
            Op::Jump(target) => OpView::Jump(*target),
            Op::Emit(bytes) => OpView::Emit(bytes@),
            Op::Abort => OpView::Abort,
        }
    }
}

/// The opcode of `Op::End`.
pub const OP_END: u8 = 0;

/// The opcode of `Op::Halt`.
pub const OP_HALT: u8 = 1;

/// The opcode of `Op::Frame`.
pub const OP_FRAME: u8 = 2;

/// The opcode of `Op::Count`.
pub const OP_COUNT: u8 = 3;

/// The opcode of `Op::Recv`.
pub const OP_RECV: u8 = 4;

/// The opcode of `Op::Jump`; the target follows as a word.
pub const OP_JUMP: u8 = 5;

/// The opcode of `Op::Emit`; the message follows as a blob.
pub const OP_EMIT: u8 = 6;

/// The opcode of `Op::Abort`.
pub const OP_ABORT: u8 = 7;

/// The format version this crate reads and writes.
pub const IMAGE_VERSION: u8 = 1;

/// The views of a list of instructions.
pub open spec fn views(ops: Seq<Op>) -> Seq<OpView> {
    ops.map_values(|op: Op| op@)
}

/// Every image starts with these bytes: a NUL, the letters `vgm`, and the
/// format version.
pub open spec fn header() -> Seq<u8> {
    seq![0u8, 0x76u8, 0x67u8, 0x6du8, IMAGE_VERSION]
}

/// The bytes of one instruction.
pub open spec fn encode_op(op: OpView) -> Seq<u8> {
    match op {
        OpView::End => seq![OP_END],
        OpView::Halt => seq![OP_HALT],
        OpView::Frame => seq![OP_FRAME],
        OpView::Count => seq![OP_COUNT],
        OpView::Recv => seq![OP_RECV],
        OpView::Jump(target) => seq![OP_JUMP] + word(target),
        OpView::Emit(bytes) => seq![OP_EMIT] + blob(bytes),
        OpView::Abort => seq![OP_ABORT],
    }
}

/// Splits one instruction off the front of `s`.
pub open spec fn read_op(s: Seq<u8>) -> Option<(OpView, Seq<u8>)> {
    match read_byte(s) {
        Some((code, rest)) => if code == OP_END {
            Some((OpView::End, rest))
        } else if code == OP_HALT {
            Some((OpView::Halt, rest))
        } else if code == OP_FRAME {
            Some((OpView::Frame, rest))
        } else if code == OP_COUNT {
            Some((OpView::Count, rest))
        } else if code == OP_RECV {
            Some((OpView::Recv, rest))
        } else if code == OP_JUMP {
            match read_word(rest) {
                Some((target, tail)) => Some((OpView::Jump(target), tail)),
                None => None,
            }
        } else if code == OP_EMIT {
            match read_blob(rest) {
                Some((bytes, tail)) => Some((OpView::Emit(bytes), tail)),
                None => None,
            }
        } else if code == OP_ABORT {
            Some((OpView::Abort, rest))
        } else {
            None
        },
        None => None,
    }
}

/// The bytes of a list of instructions, one after the other.
pub open spec fn encode_ops(ops: Seq<OpView>) -> Seq<u8>
    decreases ops.len(),
{
    if ops.len() == 0 {
        Seq::empty()
    } else {
        encode_op(ops[0]) + encode_ops(ops.skip(1))
    }
}

/// The instructions that `s` spells, with no byte left over.
pub open spec fn read_ops(s: Seq<u8>) -> Option<Seq<OpView>>
    decreases s.len(),
{
    if s.len() == 0 {
        Some(Seq::empty())
    } else {
        match read_op(s) {
            Some((op, rest)) => if rest.len() < s.len() {
                match read_ops(rest) {
                    Some(ops) => Some(seq![op] + ops),
                    None => None,
                }
            } else {
                None
            },
            None => None,
        }
    }
}

/// Every jump goes to an instruction of the routine.
pub open spec fn jumps_land(ops: Seq<OpView>) -> bool {
    forall|i: int| 0 <= i < ops.len() ==> (#[trigger] ops[i] matches OpView::Jump(target) ==> target < ops.len())
}

/// Every operand can be written down: no message is longer than a word can
/// say. This holds of every routine that memory can hold.
pub open spec fn fits(ops: Seq<OpView>) -> bool {
    forall|i: int| 0 <= i < ops.len() ==> (#[trigger] ops[i] matches OpView::Emit(bytes) ==> bytes.len() <= u64::MAX)
}

/// The image of a routine.
pub open spec fn encode_image(ops: Seq<OpView>) -> Seq<u8> {
    header() + encode_ops(ops)
}

/// The routine that an image carries. `None` where the header is missing or
/// names another version, where the bytes after it are not a list of
/// instructions, or where a jump leaves the routine.
pub open spec fn parse_image(image: Seq<u8>) -> Option<Seq<OpView>> {
    if image.len() >= 5 && image.take(5) == header() {
        match read_ops(image.skip(5)) {
            Some(ops) => if jumps_land(ops) {
                Some(ops)
            } else {
                None
            },
            None => None,
        }
    } else {
        None
    }
}

/// An instruction reads back as itself, whatever follows it.
pub proof fn lemma_read_op(op: OpView, tail: Seq<u8>)
    requires
        op matches OpView::Emit(bytes) ==> bytes.len() <= u64::MAX,
    ensures
        encode_op(op).len() >= 1,
        read_op(encode_op(op) + tail) == Some((op, tail)),
{
    let s = encode_op(op) + tail;
    match op {
        OpView::Jump(target) => {
            lemma_read_word(target, tail);
            assert(s.skip(1) =~= word(target) + tail);
        },
        OpView::Emit(bytes) => {
            lemma_read_blob(bytes, tail);
            assert(s.skip(1) =~= blob(bytes) + tail);
        },
        _ => {
            assert(s.skip(1) =~= tail);
        },
    }
}

/// A list of instructions reads back as itself.
pub proof fn lemma_ops_round_trip(ops: Seq<OpView>)
    requires
        fits(ops),
    ensures
        read_ops(encode_ops(ops)) == Some(ops),
    decreases ops.len(),
{
    if ops.len() == 0 {
        assert(ops =~= Seq::empty());
    } else {
        let rest = ops.skip(1);
        assert(fits(rest)) by {
            assert forall|i: int| 0 <= i < rest.len() implies (#[trigger] rest[i] matches OpView::Emit(
                bytes,
            ) ==> bytes.len() <= u64::MAX) by {
                assert(rest[i] == ops[i + 1]);
            }
        }
        lemma_ops_round_trip(rest);
        assert(ops[0] matches OpView::Emit(bytes) ==> bytes.len() <= u64::MAX);
        lemma_read_op(ops[0], encode_ops(rest));
        assert(seq![ops[0]] + rest =~= ops);
    }
}

/// Round trip: the image of a routine whose jumps land parses back to that
/// routine.
pub proof fn lemma_image_round_trip(ops: Seq<OpView>)
    requires
        fits(ops),
        jumps_land(ops),
    ensures
        parse_image(encode_image(ops)) == Some(ops),
{
    lemma_ops_round_trip(ops);
    let image = encode_image(ops);
    assert(image.take(5) =~= header());
    assert(image.skip(5) =~= encode_ops(ops));
}

/// The jumps of a routine that came out of an image land.
pub proof fn lemma_parsed_jumps_land(image: Seq<u8>)
    requires
        parse_image(image) is Some,
    ensures
        jumps_land(parse_image(image).unwrap()),
{
}

/// No image is empty, and none is shorter than its header.
pub proof fn lemma_image_has_header(image: Seq<u8>)
    requires
        image.len() < 5,
    ensures
        parse_image(image) is None,
{
}

/// Whatever instructions memory holds, their operands can be written down.
pub proof fn lemma_held_ops_fit(ops: Seq<Op>)
    ensures
        fits(views(ops)),
{
    assert forall|i: int| 0 <= i < views(ops).len() implies (#[trigger] views(ops)[i] matches OpView::Emit(
        bytes,
    ) ==> bytes.len() <= u64::MAX) by {
        match ops[i] {
            Op::Emit(bytes) => {
                assert(bytes@.len() == bytes.len());
            },
            _ => {},
        }
    }
}

/// A routine whose jumps all land inside it.
#[derive(Clone, Debug, PartialEq, Eq)]
pub struct Routine {
    ops: Vec<Op>,
}

impl View for Routine {
    type V = Seq<OpView>;

    closed spec fn view(&self) -> Seq<OpView> {
        views(self.ops@)
    }
}

/// The header of every image.
fn header_bytes() -> (out: Vec<u8>)
    ensures
        out@ == header(),
{
    let mut out: Vec<u8> = Vec::new();
    out.push(0);
    out.push(0x76);
    out.push(0x67);
    out.push(0x6d);
    out.push(IMAGE_VERSION);
    assert(out@ =~= header());
    out
}

/// Reads one instruction.
fn take_op(reader: &mut Reader) -> (r: Option<Op>)
    ensures
        match read_op(old(reader).rest()) {
            Some((op, rest)) => r matches Some(out) && out@ == op && final(reader).rest() == rest,
            None => r is None,
        },
{
    let code: u8 = match reader.byte() {
        Some(code) => code,
        None => { return None; },
    };
    if code == OP_END {
        Some(Op::End)
    } else if code == OP_HALT {
        Some(Op::Halt)
    } else if code == OP_FRAME {
        Some(Op::Frame)
    } else if code == OP_COUNT {
        Some(Op::Count)
    } else if code == OP_RECV {
        Some(Op::Recv)
    } else if code == OP_JUMP {
        match reader.word() {
            Some(target) => Some(Op::Jump(target)),
            None => None,
        }
    } else if code == OP_EMIT {
        match reader.blob() {
            Some(bytes) => Some(Op::Emit(slice_to_vec(bytes))),
            None => None,
        }
    } else if code == OP_ABORT {
        Some(Op::Abort)
    } else {
        None
    }
}

/// Appends the bytes of one instruction to `out`.
fn put_op(out: &mut Vec<u8>, op: &Op)
    ensures
        final(out)@ == old(out)@ + encode_op(op@),
{
    let ghost before = out@;
    match op {
        Op::End => out.push(OP_END),
        Op::Halt => out.push(OP_HALT),
        Op::Frame => out.push(OP_FRAME),
        Op::Count => out.push(OP_COUNT),
        Op::Recv => out.push(OP_RECV),
        Op::Jump(target) => {
            out.push(OP_JUMP);
            put_word(out, *target);
        },
        Op::Emit(bytes) => {
            out.push(OP_EMIT);
            put_blob(out, bytes.as_slice());
        },
        Op::Abort => out.push(OP_ABORT),
    }
    assert(out@ =~= before + encode_op(op@));
}

/// Whether every jump of `ops` goes to an instruction of `ops`.
fn check_jumps(ops: &Vec<Op>) -> (ok: bool)
    ensures
        ok == jumps_land(views(ops@)),
{
    let mut i: usize = 0;
    while i < ops.len()
        invariant
            i <= ops@.len(),
            forall|j: int|
                0 <= j < i ==> (#[trigger] views(ops@)[j] matches OpView::Jump(target) ==> target
                    < ops@.len()),
        decreases ops@.len() - i,
    {
        match &ops[i] {
            Op::Jump(target) => {
                if *target >= ops.len() as u64 {
                    assert(views(ops@)[i as int] == OpView::Jump(*target));
                    return false;
                }
            },
            _ => {},
        }
        i = i + 1;
    }
    true
}

impl Routine {
    /// Well-formed: every jump lands inside the routine.
    pub open spec fn wf(&self) -> bool {
        jumps_land(self@)
    }

    /// Makes a routine of `ops`, unless one of its jumps leaves it.
    pub fn new(ops: Vec<Op>) -> (r: Option<Routine>)
        ensures
            match r {
                Some(routine) => routine.wf() && routine@ == views(ops@),
                None => !jumps_land(views(ops@)),
            },
    {
        if check_jumps(&ops) {
            Some(Routine { ops })
        } else {
            None
        }
    }

    /// Reads a routine from its image. Fails on every input that
    /// `parse_image` refuses: an empty or short image, a foreign header or
    /// version, bytes that are no instruction, a jump that leaves the
    /// routine.
    pub fn parse(image: &[u8]) -> (r: Option<Routine>)
        ensures
            match r {
                Some(routine) => routine.wf() && parse_image(image@) == Some(routine@),
                None => parse_image(image@) is None,
            },
    {
        let mut reader = Reader::new(image);
        let expected: Vec<u8> = header_bytes();
        if !reader.expect(expected.as_slice()) {
            return None;
        }
        let mut ops: Vec<Op> = Vec::new();
        assert(views(ops@) + Seq::<OpView>::empty() =~= views(ops@));
        assert(views(ops@) =~= Seq::<OpView>::empty());
        while !reader.is_empty()
            invariant
                read_ops(image@.skip(5)) == match read_ops(reader.rest()) {
                    Some(tail) => Some(views(ops@) + tail),
                    None => None,
                },
            decreases reader.rest().len(),
        {
            let ghost before = ops@;
            let ghost rest = reader.rest();
            match take_op(&mut reader) {
                Some(op) => {
                    ops.push(op);
                    proof {
                        crate::wire::lemma_read_shrinks(rest);
                        crate::wire::lemma_read_shrinks(rest.skip(1));
                        assert(views(ops@) =~= views(before).push(op@));
                        match read_ops(reader.rest()) {
                            Some(tail) => {
                                assert(views(before) + (seq![op@] + tail) =~= views(ops@) + tail);
                            },
                            None => {},
                        }
                    }
                },
                None => {
                    return None;
                },
            }
        }
        assert(views(ops@) + Seq::<OpView>::empty() =~= views(ops@));
        Routine::new(ops)
    }

    /// Writes the routine out as an image, from which `parse` reads it
    /// back.
    pub fn assemble(&self) -> (out: Vec<u8>)
        ensures
            out@ == encode_image(self@),
            self.wf() ==> parse_image(out@) == Some(self@),
    {
        proof {
            lemma_held_ops_fit(self.ops@);
            if self.wf() {
                lemma_image_round_trip(self@);
            }
        }
        let mut out: Vec<u8> = header_bytes();
        let mut i: usize = 0;
        assert(self@.skip(0) =~= self@);
        assert(out@ + encode_ops(self@.skip(0)) =~= encode_image(self@));
        while i < self.ops.len()
            invariant
                i <= self.ops@.len(),
                out@ + encode_ops(self@.skip(i as int)) == encode_image(self@),
            decreases self.ops@.len() - i,
        {
            let ghost before = out@;
            proof {
                assert(self@.skip(i as int).skip(1) =~= self@.skip(i + 1));
                assert(self@.skip(i as int)[0] == self.ops@[i as int]@);
            }
            put_op(&mut out, &self.ops[i]);
            assert(out@ + encode_ops(self@.skip(i + 1)) =~= before + encode_ops(
                self@.skip(i as int),
            ));
            i = i + 1;
        }
        assert(out@ + encode_ops(self@.skip(i as int)) =~= out@);
        out
    }

    /// The number of instructions.
    pub fn len(&self) -> (n: usize)
        ensures
            n == self@.len(),
    {
        self.ops.len()
    }

    /// The instruction at index `i`, if the routine is that long.
    pub fn op(&self, i: usize) -> (r: Option<&Op>)
        ensures
            match r {
                Some(op) => i < self@.len() && op@ == self@[i as int],
                None => i >= self@.len(),
            },
            self@.len() <= usize::MAX,
    {
        if i < self.ops.len() {
            Some(&self.ops[i])
        } else {
            None
        }
    }
}

} // verus!
