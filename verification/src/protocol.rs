//! The messages that cross the boundary between guest and host, and their
//! binary form.
//!
//! Every message is one frame: a tag byte, the payload length as a word, and
//! the payload. A decoder that meets a payload it cannot read still knows
//! where the frame ends.

use crate::error::RuntimeError;
use crate::text::{lemma_text_canonical, lemma_text_round_trip, read_text, text_bytes, text_from_bytes};
use crate::wire::{
    blob, half, lemma_read_blob, lemma_read_half, lemma_read_word, put_blob, put_half, put_raw,
    put_word, read_blob, read_byte, read_half, read_word, word, Reader,
};
use vstd::prelude::*;
use vstd::utf8::*;

verus! {

/// A key the host can report on.
#[derive(Clone, Copy, Debug, PartialEq, Eq, Structural)]
pub enum Key {
    W,
    A,
    S,
    D,
    Space,
    Up,
    Down,
    Left,
    Right,
    Enter,
    Escape,
}

impl Key {
    /// The byte that stands for this key on the wire.
    pub open spec fn spec_code(self) -> u8 {
        match self {
            Key::W => 0,
            Key::A => 1,
            Key::S => 2,
            Key::D => 3,
            Key::Space => 4,
            Key::Up => 5,
            Key::Down => 6,
            Key::Left => 7,
            Key::Right => 8,
            Key::Enter => 9,
            Key::Escape => 10,
        }
    }

    /// The key a byte stands for, if any.
    pub open spec fn spec_from_code(code: u8) -> Option<Key> {
        if code == 0 {
            Some(Key::W)
        } else if code == 1 {
            Some(Key::A)
        } else if code == 2 {
            Some(Key::S)
        } else if code == 3 {
            Some(Key::D)
        } else if code == 4 {
            Some(Key::Space)
        } else if code == 5 {
            Some(Key::Up)
        } else if code == 6 {
            Some(Key::Down)
        } else if code == 7 {
            Some(Key::Left)
        } else if code == 8 {
            Some(Key::Right)
        } else if code == 9 {
            Some(Key::Enter)
        } else if code == 10 {
            Some(Key::Escape)
        } else {
            None
        }
    }

    /// The byte that stands for this key on the wire.
    #[verifier::when_used_as_spec(spec_code)]
    pub fn code(self) -> (c: u8)
        ensures
            c == self.spec_code(),
    {
        match self {
            Key::W => 0,
            Key::A => 1,
            Key::S => 2,
            Key::D => 3,
            Key::Space => 4,
            Key::Up => 5,
            Key::Down => 6,
            Key::Left => 7,
            Key::Right => 8,
            Key::Enter => 9,
            Key::Escape => 10,
        }
    }

    /// The key a byte stands for; `None` for a byte that stands for no key.
    pub fn from_code(code: u8) -> (k: Option<Key>)
        ensures
            k == Key::spec_from_code(code),
    {
        match code {
            0 => Some(Key::W),
            1 => Some(Key::A),
            2 => Some(Key::S),
            3 => Some(Key::D),
            4 => Some(Key::Space),
            5 => Some(Key::Up),
            6 => Some(Key::Down),
            7 => Some(Key::Left),
            8 => Some(Key::Right),
            9 => Some(Key::Enter),
            10 => Some(Key::Escape),
            _ => None,
        }
    }
}

/// A request from the guest to the host.
#[derive(Clone, Debug, PartialEq, Eq)]
pub enum Call {
    /// Write a line of text to the host's console.
    Print(String),
    /// The frame is complete and may be shown.
    Present,
    /// Draw a texture. The coordinates travel as the bit patterns of 32-bit
    /// floats; only the renderer gives them meaning.
    Draw { texture: String, position: Vec<u32> },
    /// Play a sound.
    PlaySound(String),
}

/// What a `Call` is, mathematically.
pub enum CallView {
    Print(Seq<char>),
    Present,
    Draw { texture: Seq<char>, position: Seq<u32> },
    PlaySound(Seq<char>),
}

impl View for Call {
    type V = CallView;

    open spec fn view(&self) -> CallView {
        match self {
            Call::Print(text) => CallView::Print(text@),
            Call::Present => CallView::Present,
            Call::Draw { texture, position } => CallView::Draw {
                texture: texture@,
                position: position@,
            },
            Call::PlaySound(name) => CallView::PlaySound(name@),
        }
    }
}

/// The views of a list of calls.
pub open spec fn call_views(calls: Seq<Call>) -> Seq<CallView> {
    calls.map_values(|c: Call| c@)
}

/// Data the host hands to the guest.
#[derive(Clone, Debug, PartialEq, Eq)]
pub enum Response {
    /// Time since the previous tick, in nanoseconds.
    Time(u64),
    /// Whether a key is held down.
    Key { key: Key, pressed: bool },
    /// The directional input, one component per axis, as the bit patterns of
    /// 32-bit floats.
    Axes(Vec<u32>),
}

/// What a `Response` is, mathematically.
pub enum ResponseView {
    Time(u64),
    Key { key: Key, pressed: bool },
    Axes(Seq<u32>),
}

impl View for Response {
    type V = ResponseView;

    open spec fn view(&self) -> ResponseView {
        match self {
            Response::Time(t) => ResponseView::Time(*t),
            Response::Key { key, pressed } => ResponseView::Key { key: *key, pressed: *pressed },
            Response::Axes(axes) => ResponseView::Axes(axes@),
        }
    }
}

/// The tag of `Call::Print`.
pub const TAG_PRINT: u8 = 0;

/// The tag of `Call::Present`.
pub const TAG_PRESENT: u8 = 1;

/// The tag of `Call::Draw`.
pub const TAG_DRAW: u8 = 2;

/// The tag of `Call::PlaySound`.
pub const TAG_PLAY_SOUND: u8 = 3;

/// The tag of `Response::Time`.
pub const TAG_TIME: u8 = 0;

/// The tag of `Response::Key`.
pub const TAG_KEY: u8 = 1;

/// The tag of `Response::Axes`.
pub const TAG_AXES: u8 = 2;

/// The bytes of a vector of four-byte values, one after the other.
pub open spec fn quads(v: Seq<u32>) -> Seq<u8>
    decreases v.len(),
{
    if v.len() == 0 {
        Seq::empty()
    } else {
        half(v[0]) + quads(v.skip(1))
    }
}

/// The vector that `s` spells: four bytes to a value, and none left over.
pub open spec fn read_quads(s: Seq<u8>) -> Option<Seq<u32>>
    decreases s.len(),
{
    if s.len() == 0 {
        Some(Seq::empty())
    } else {
        match read_half(s) {
            Some((x, rest)) => match read_quads(rest) {
                Some(v) => Some(seq![x] + v),
                None => None,
            },
            None => None,
        }
    }
}

/// One frame: tag, payload length, payload.
pub open spec fn frame(tag: u8, payload: Seq<u8>) -> Seq<u8> {
    seq![tag] + blob(payload)
}

/// The payload length that the header of `s` announces.
pub open spec fn announced_len(s: Seq<u8>) -> nat
    recommends
        s.len() >= 9,
{
    vstd::bytes::spec_u64_from_le_bytes(s.subrange(1, 9)) as nat
}

/// Reads `s` as exactly one frame.
pub open spec fn read_frame(s: Seq<u8>) -> Option<(u8, Seq<u8>)> {
    match read_byte(s) {
        Some((tag, rest)) => match read_blob(rest) {
            Some((payload, tail)) => if tail.len() == 0 {
                Some((tag, payload))
            } else {
                None
            },
            None => None,
        },
        None => None,
    }
}

impl CallView {
    /// The payload of this call.
    pub open spec fn payload(self) -> Seq<u8> {
        match self {
            CallView::Print(text) => encode_utf8(text),
            CallView::Present => Seq::empty(),
            CallView::Draw { texture, position } => blob(encode_utf8(texture)) + quads(position),
            CallView::PlaySound(name) => encode_utf8(name),
        }
    }

    /// The tag of this call.
    pub open spec fn tag(self) -> u8 {
        match self {
            CallView::Print(_) => TAG_PRINT,
            CallView::Present => TAG_PRESENT,
            CallView::Draw { .. } => TAG_DRAW,
            CallView::PlaySound(_) => TAG_PLAY_SOUND,
        }
    }

    /// Every length that the encoding writes down fits a word. This holds of
    /// the view of every `Call` that memory can hold.
    pub open spec fn wf(self) -> bool {
        &&& self.payload().len() <= u64::MAX
        &&& self matches CallView::Draw { texture, .. } ==> encode_utf8(texture).len() <= u64::MAX
    }
}

impl ResponseView {
    /// The payload of this response.
    pub open spec fn payload(self) -> Seq<u8> {
        match self {
            ResponseView::Time(t) => word(t),
            ResponseView::Key { key, pressed } => seq![key.spec_code(), if pressed { 1u8 } else { 0u8 }],
            ResponseView::Axes(axes) => quads(axes),
        }
    }

    /// The tag of this response.
    pub open spec fn tag(self) -> u8 {
        match self {
            ResponseView::Time(_) => TAG_TIME,
            ResponseView::Key { .. } => TAG_KEY,
            ResponseView::Axes(_) => TAG_AXES,
        }
    }

    /// The payload length fits a word. This holds of the view of every
    /// `Response` that memory can hold.
    pub open spec fn wf(self) -> bool {
        self.payload().len() <= u64::MAX
    }
}

/// The bytes of a call.
pub open spec fn encode_call(c: CallView) -> Seq<u8> {
    frame(c.tag(), c.payload())
}

/// The bytes of a response.
pub open spec fn encode_response(r: ResponseView) -> Seq<u8> {
    frame(r.tag(), r.payload())
}

/// The call a payload spells under a tag.
pub open spec fn read_call_payload(tag: u8, payload: Seq<u8>) -> Option<CallView> {
    if tag == TAG_PRINT {
        match read_text(payload) {
            Some(text) => Some(CallView::Print(text)),
            None => None,
        }
    } else if tag == TAG_PRESENT {
        if payload.len() == 0 {
            Some(CallView::Present)
        } else {
            None
        }
    } else if tag == TAG_DRAW {
        match read_blob(payload) {
            Some((name, rest)) => match (read_text(name), read_quads(rest)) {
                (Some(texture), Some(position)) => Some(CallView::Draw { texture, position }),
                _ => None,
            },
            None => None,
        }
    } else if tag == TAG_PLAY_SOUND {
        match read_text(payload) {
            Some(name) => Some(CallView::PlaySound(name)),
            None => None,
        }
    } else {
        None
    }
}

/// The response a payload spells under a tag.
pub open spec fn read_response_payload(tag: u8, payload: Seq<u8>) -> Option<ResponseView> {
    if tag == TAG_TIME {
        match read_word(payload) {
            Some((t, rest)) => if rest.len() == 0 {
                Some(ResponseView::Time(t))
            } else {
                None
            },
            None => None,
        }
    } else if tag == TAG_KEY {
        if payload.len() == 2 && payload[1] <= 1 {
            match Key::spec_from_code(payload[0]) {
                Some(key) => Some(ResponseView::Key { key, pressed: payload[1] == 1 }),
                None => None,
            }
        } else {
            None
        }
    } else if tag == TAG_AXES {
        match read_quads(payload) {
            Some(axes) => Some(ResponseView::Axes(axes)),
            None => None,
        }
    } else {
        None
    }
}

/// The call that `bytes` spell; `None` where they are malformed.
pub open spec fn decode_call(bytes: Seq<u8>) -> Option<CallView> {
    match read_frame(bytes) {
        Some((tag, payload)) => read_call_payload(tag, payload),
        None => None,
    }
}

/// The response that `bytes` spell; `None` where they are malformed.
pub open spec fn decode_response(bytes: Seq<u8>) -> Option<ResponseView> {
    match read_frame(bytes) {
        Some((tag, payload)) => read_response_payload(tag, payload),
        None => None,
    }
}

/// A vector of four-byte values reads back as itself.
pub proof fn lemma_quads_round_trip(v: Seq<u32>)
    ensures
        quads(v).len() == 4 * v.len(),
        read_quads(quads(v)) == Some(v),
    decreases v.len(),
{
    if v.len() == 0 {
        assert(v =~= Seq::empty());
    } else {
        lemma_quads_round_trip(v.skip(1));
        lemma_read_half(v[0], quads(v.skip(1)));
        assert(seq![v[0]] + v.skip(1) =~= v);
    }
}

/// Bytes that read as a vector are the bytes of that vector.
pub proof fn lemma_quads_canonical(s: Seq<u8>)
    requires
        read_quads(s) is Some,
    ensures
        quads(read_quads(s).unwrap()) == s,
    decreases s.len(),
{
    if s.len() != 0 {
        let (x, rest) = read_half(s).unwrap();
        let v = read_quads(rest).unwrap();
        lemma_quads_canonical(rest);
        vstd::bytes::lemma_auto_spec_u32_to_from_le_bytes();
        assert((seq![x] + v).skip(1) =~= v);
        assert(half(x) =~= s.take(4));
        assert(s.take(4) + s.skip(4) =~= s);
    }
}

/// A frame reads back as its tag and payload.
pub proof fn lemma_frame_round_trip(tag: u8, payload: Seq<u8>)
    requires
        payload.len() <= u64::MAX,
    ensures
        frame(tag, payload).len() == 9 + payload.len(),
        read_frame(frame(tag, payload)) == Some((tag, payload)),
{
    lemma_read_blob(payload, Seq::empty());
    assert(blob(payload) + Seq::<u8>::empty() =~= blob(payload));
    assert(frame(tag, payload).skip(1) =~= blob(payload));
}

/// A frame is never longer or shorter than its header announces: nine bytes
/// of header, then exactly the announced number of payload bytes.
pub proof fn lemma_frame_is_exact(s: Seq<u8>)
    requires
        read_frame(s) is Some,
    ensures
        s.len() == 9 + announced_len(s),
        read_frame(s).unwrap().1.len() == announced_len(s),
        frame(read_frame(s).unwrap().0, read_frame(s).unwrap().1) == s,
{
    let rest = s.skip(1);
    assert(rest.take(8) =~= s.subrange(1, 9));
    let n = announced_len(s);
    let (tag, payload) = read_frame(s).unwrap();
    vstd::bytes::lemma_auto_spec_u64_to_from_le_bytes();
    assert(word(n as u64) =~= rest.take(8));
    assert(payload =~= rest.skip(8));
    assert(frame(tag, payload) =~= s);
}

/// Shared tail of both encoders: wraps a payload into a frame.
fn seal(tag: u8, payload: &Vec<u8>) -> (out: Vec<u8>)
    ensures
        out@ == frame(tag, payload@),
        payload@.len() <= u64::MAX,
{
    let mut out: Vec<u8> = Vec::new();
    out.push(tag);
    assert(out@ =~= seq![tag]);
    put_blob(&mut out, payload.as_slice());
    out
}

/// Shared head of both decoders: reads `bytes` as exactly one frame.
fn unseal(bytes: &[u8]) -> (r: Option<(u8, &[u8])>)
    ensures
        match r {
            Some((tag, payload)) => read_frame(bytes@) == Some((tag, payload@)),
            None => read_frame(bytes@) is None,
        },
{
    let mut reader = Reader::new(bytes);
    let tag: u8 = match reader.byte() {
        Some(tag) => tag,
        None => { return None; },
    };
    let payload: &[u8] = match reader.blob() {
        Some(payload) => payload,
        None => { return None; },
    };
    if !reader.is_empty() {
        return None;
    }
    Some((tag, payload))
}

/// Appends the bytes of `v` to `out`.
fn put_quads(out: &mut Vec<u8>, v: &[u32])
    ensures
        final(out)@ == old(out)@ + quads(v@),
{
    let mut i: usize = 0;
    assert(v@.skip(0) =~= v@);
    while i < v.len()
        invariant
            i <= v@.len(),
            out@ + quads(v@.skip(i as int)) == old(out)@ + quads(v@),
        decreases v@.len() - i,
    {
        let ghost before = out@;
        proof {
            assert(v@.skip(i as int).skip(1) =~= v@.skip(i + 1));
        }
        put_half(out, v[i]);
        assert(out@ + quads(v@.skip(i + 1)) =~= before + quads(v@.skip(i as int)));
        i = i + 1;
    }
    assert(out@ + quads(v@.skip(i as int)) =~= out@);
}

/// Reads all of `bytes` as four-byte values.
fn take_quads(bytes: &[u8]) -> (r: Option<Vec<u32>>)
    ensures
        match r {
            Some(v) => read_quads(bytes@) == Some(v@),
            None => read_quads(bytes@) is None,
        },
{
    let mut reader = Reader::new(bytes);
    let mut out: Vec<u32> = Vec::new();
    assert(out@ + Seq::<u32>::empty() =~= out@);
    while !reader.is_empty()
        invariant
            read_quads(bytes@) == match read_quads(reader.rest()) {
                Some(tail) => Some(out@ + tail),
                None => None,
            },
        decreases reader.rest().len(),
    {
        let ghost before = out@;
        match reader.half() {
            Some(x) => {
                out.push(x);
                proof {
                    match read_quads(reader.rest()) {
                        Some(tail) => {
                            assert(before + (seq![x] + tail) =~= out@ + tail);
                        },
                        None => {},
                    }
                }
            },
            None => {
                return None;
            },
        }
    }
    assert(out@ + Seq::<u32>::empty() =~= out@);
    Some(out)
}

impl Call {
    /// Encodes this call as one frame, from which `decode` reads it back.
    pub fn encode(&self) -> (out: Vec<u8>)
        ensures
            self@.wf(),
            out@ == encode_call(self@),
            decode_call(out@) == Some(self@),
    {
        let mut payload: Vec<u8> = Vec::new();
        let tag: u8 = match self {
            Call::Print(text) => {
                put_raw(&mut payload, text_bytes(text));
                TAG_PRINT
            },
            Call::Present => TAG_PRESENT,
            Call::Draw { texture, position } => {
                put_blob(&mut payload, text_bytes(texture));
                put_quads(&mut payload, position.as_slice());
                TAG_DRAW
            },
            Call::PlaySound(name) => {
                put_raw(&mut payload, text_bytes(name));
                TAG_PLAY_SOUND
            },
        };
        assert(payload@ =~= self@.payload());
        let out: Vec<u8> = seal(tag, &payload);
        proof {
            lemma_call_round_trip(self@);
        }
        out
    }

    /// Decodes one frame as a call. Fails with `MalformedMessage` on every
    /// input that is not the encoding of a call: a frame cut short, bytes
    /// after the frame, a tag that names no call, a payload that does not
    /// fit its tag. Reads nothing outside `bytes`.
    pub fn decode(bytes: &[u8]) -> (r: Result<Call, RuntimeError>)
        ensures
            match r {
                Ok(c) => decode_call(bytes@) == Some(c@),
                Err(e) => decode_call(bytes@) is None && e == RuntimeError::MalformedMessage,
            },
    {
        let (tag, payload) = match unseal(bytes) {
            Some(parts) => parts,
            None => { return Err(RuntimeError::MalformedMessage); },
        };
        if tag == TAG_PRINT {
            match text_from_bytes(payload) {
                Some(text) => Ok(Call::Print(text)),
                None => Err(RuntimeError::MalformedMessage),
            }
        } else if tag == TAG_PRESENT {
            if payload.len() == 0 {
                Ok(Call::Present)
            } else {
                Err(RuntimeError::MalformedMessage)
            }
        } else if tag == TAG_DRAW {
            let mut reader = Reader::new(payload);
            let name: &[u8] = match reader.blob() {
                Some(name) => name,
                None => { return Err(RuntimeError::MalformedMessage); },
            };
            let rest: &[u8] = match reader.take(reader.remaining()) {
                Some(rest) => rest,
                None => { return Err(RuntimeError::MalformedMessage); },
            };
            assert(rest@ =~= read_blob(payload@).unwrap().1);
            match (text_from_bytes(name), take_quads(rest)) {
                (Some(texture), Some(position)) => Ok(Call::Draw { texture, position }),
                _ => Err(RuntimeError::MalformedMessage),
            }
        } else if tag == TAG_PLAY_SOUND {
            match text_from_bytes(payload) {
                Some(name) => Ok(Call::PlaySound(name)),
                None => Err(RuntimeError::MalformedMessage),
            }
        } else {
            Err(RuntimeError::MalformedMessage)
        }
    }
}

impl Response {
    /// Encodes this response as one frame, from which `decode` reads it
    /// back.
    pub fn encode(&self) -> (out: Vec<u8>)
        ensures
            self@.wf(),
            out@ == encode_response(self@),
            decode_response(out@) == Some(self@),
    {
        let mut payload: Vec<u8> = Vec::new();
        let tag: u8 = match self {
            Response::Time(t) => {
                put_word(&mut payload, *t);
                TAG_TIME
            },
            Response::Key { key, pressed } => {
                payload.push(key.code());
                payload.push(if *pressed { 1 } else { 0 });
                TAG_KEY
            },
            Response::Axes(axes) => {
                put_quads(&mut payload, axes.as_slice());
                TAG_AXES
            },
        };
        assert(payload@ =~= self@.payload());
        let out: Vec<u8> = seal(tag, &payload);
        proof {
            lemma_response_round_trip(self@);
        }
        out
    }

    /// Decodes one frame as a response. Fails with `MalformedMessage` on
    /// every input that is not the encoding of a response. Reads nothing
    /// outside `bytes`.
    pub fn decode(bytes: &[u8]) -> (r: Result<Response, RuntimeError>)
        ensures
            match r {
                Ok(v) => decode_response(bytes@) == Some(v@),
                Err(e) => decode_response(bytes@) is None && e == RuntimeError::MalformedMessage,
            },
    {
        let (tag, payload) = match unseal(bytes) {
            Some(parts) => parts,
            None => { return Err(RuntimeError::MalformedMessage); },
        };
        if tag == TAG_TIME {
            let mut reader = Reader::new(payload);
            match reader.word() {
                Some(t) => if reader.is_empty() {
                    Ok(Response::Time(t))
                } else {
                    Err(RuntimeError::MalformedMessage)
                },
                None => Err(RuntimeError::MalformedMessage),
            }
        } else if tag == TAG_KEY {
            if payload.len() == 2 && payload[1] <= 1 {
                match Key::from_code(payload[0]) {
                    Some(key) => Ok(Response::Key { key, pressed: payload[1] == 1 }),
                    None => Err(RuntimeError::MalformedMessage),
                }
            } else {
                Err(RuntimeError::MalformedMessage)
            }
        } else if tag == TAG_AXES {
            match take_quads(payload) {
                Some(axes) => Ok(Response::Axes(axes)),
                None => Err(RuntimeError::MalformedMessage),
            }
        } else {
            Err(RuntimeError::MalformedMessage)
        }
    }
}

/// Round trip: decoding the encoding of a call gives that call back.
pub proof fn lemma_call_round_trip(c: CallView)
    requires
        c.wf(),
    ensures
        decode_call(encode_call(c)) == Some(c),
{
    lemma_frame_round_trip(c.tag(), c.payload());
    match c {
        CallView::Print(text) => {
            lemma_text_round_trip(text);
        },
        CallView::Present => {},
        CallView::Draw { texture, position } => {
            lemma_read_blob(encode_utf8(texture), quads(position));
            lemma_text_round_trip(texture);
            lemma_quads_round_trip(position);
        },
        CallView::PlaySound(name) => {
            lemma_text_round_trip(name);
        },
    }
}

/// Round trip: decoding the encoding of a response gives that response back.
pub proof fn lemma_response_round_trip(r: ResponseView)
    requires
        r.wf(),
    ensures
        decode_response(encode_response(r)) == Some(r),
{
    lemma_frame_round_trip(r.tag(), r.payload());
    match r {
        ResponseView::Time(t) => {
            lemma_read_word(t, Seq::empty());
            assert(word(t) + Seq::<u8>::empty() =~= word(t));
        },
        ResponseView::Key { key, pressed } => {},
        ResponseView::Axes(axes) => {
            lemma_quads_round_trip(axes);
        },
    }
}

/// No call has two encodings: bytes that decode to a call are the encoding
/// of that call.
pub proof fn lemma_call_canonical(bytes: Seq<u8>)
    requires
        decode_call(bytes) is Some,
    ensures
        decode_call(bytes).unwrap().wf(),
        encode_call(decode_call(bytes).unwrap()) == bytes,
{
    lemma_frame_is_exact(bytes);
    let (tag, payload) = read_frame(bytes).unwrap();
    let c = decode_call(bytes).unwrap();
    if tag == TAG_PRINT || tag == TAG_PLAY_SOUND {
        lemma_text_canonical(payload);
    } else if tag == TAG_DRAW {
        let (name, rest) = read_blob(payload).unwrap();
        lemma_text_canonical(name);
        lemma_quads_canonical(rest);
        vstd::bytes::lemma_auto_spec_u64_to_from_le_bytes();
        assert(word(name.len() as u64) =~= payload.take(8));
        assert(payload.skip(8).take(name.len() as int) =~= name);
        assert(blob(name) + rest =~= payload);
    } else {
        assert(payload =~= Seq::<u8>::empty());
    }
    assert(c.payload() =~= payload);
}

/// No response has two encodings: bytes that decode to a response are the
/// encoding of that response.
pub proof fn lemma_response_canonical(bytes: Seq<u8>)
    requires
        decode_response(bytes) is Some,
    ensures
        decode_response(bytes).unwrap().wf(),
        encode_response(decode_response(bytes).unwrap()) == bytes,
{
    lemma_frame_is_exact(bytes);
    let (tag, payload) = read_frame(bytes).unwrap();
    let r = decode_response(bytes).unwrap();
    if tag == TAG_TIME {
        vstd::bytes::lemma_auto_spec_u64_to_from_le_bytes();
        assert(payload.take(8) =~= payload);
    } else if tag == TAG_KEY {
        assert(r.payload() =~= payload);
    } else {
        lemma_quads_canonical(payload);
    }
    assert(r.payload() =~= payload);
}

/// Bytes that stop before the end their own header announces, or before the
/// header is complete, are malformed under both decoders.
pub proof fn lemma_short_input_is_malformed(bytes: Seq<u8>)
    requires
        bytes.len() < 9 || bytes.len() < 9 + announced_len(bytes),
    ensures
        decode_call(bytes) is None,
        decode_response(bytes) is None,
{
    if read_frame(bytes) is Some {
        lemma_frame_is_exact(bytes);
    }
}

/// Every proper prefix of an encoded call is malformed.
pub proof fn lemma_truncated_call_is_malformed(c: CallView, n: int)
    requires
        c.wf(),
        0 <= n < encode_call(c).len(),
    ensures
        decode_call(encode_call(c).take(n)) is None,
{
    let whole = encode_call(c);
    let cut = whole.take(n);
    lemma_frame_round_trip(c.tag(), c.payload());
    lemma_frame_is_exact(whole);
    if n >= 9 {
        assert(cut.subrange(1, 9) =~= whole.subrange(1, 9));
    }
    lemma_short_input_is_malformed(cut);
}

/// Every proper prefix of an encoded response is malformed.
pub proof fn lemma_truncated_response_is_malformed(r: ResponseView, n: int)
    requires
        r.wf(),
        0 <= n < encode_response(r).len(),
    ensures
        decode_response(encode_response(r).take(n)) is None,
{
    let whole = encode_response(r);
    let cut = whole.take(n);
    lemma_frame_round_trip(r.tag(), r.payload());
    lemma_frame_is_exact(whole);
    if n >= 9 {
        assert(cut.subrange(1, 9) =~= whole.subrange(1, 9));
    }
    lemma_short_input_is_malformed(cut);
}

/// Splits the first frame off a stream of frames, going by its header alone:
/// the frame, and what follows it. `None` where the stream ends before the
/// frame does.
pub open spec fn split_frame(s: Seq<u8>) -> Option<(Seq<u8>, Seq<u8>)> {
    if s.len() >= 9 && s.len() >= 9 + announced_len(s) {
        Some((s.take(9 + announced_len(s) as int), s.skip(9 + announced_len(s) as int)))
    } else {
        None
    }
}

/// The calls in a stream of frames, in order. A frame that is no call is
/// passed over, and reading goes on behind it. Reading stops where the
/// stream ends before a frame does.
pub open spec fn decode_stream(s: Seq<u8>) -> Seq<CallView>
    decreases s.len(),
{
    match split_frame(s) {
        Some((first, rest)) => match decode_call(first) {
            Some(call) => seq![call] + decode_stream(rest),
            None => decode_stream(rest),
        },
        None => Seq::empty(),
    }
}

/// A frame can be told from what follows it whatever its payload holds.
pub proof fn lemma_split_frame(tag: u8, payload: Seq<u8>, tail: Seq<u8>)
    requires
        payload.len() <= u64::MAX,
    ensures
        split_frame(frame(tag, payload) + tail) == Some((frame(tag, payload), tail)),
{
    let whole = frame(tag, payload);
    let s = whole + tail;
    lemma_frame_round_trip(tag, payload);
    lemma_frame_is_exact(whole);
    assert(s.subrange(1, 9) =~= whole.subrange(1, 9));
    assert(s.take(whole.len() as int) =~= whole);
    assert(s.skip(whole.len() as int) =~= tail);
}

/// A malformed frame costs the stream nothing but itself: whatever follows
/// it is read as if the frame had not been there.
pub proof fn lemma_stream_resynchronizes(tag: u8, payload: Seq<u8>, tail: Seq<u8>)
    requires
        payload.len() <= u64::MAX,
        decode_call(frame(tag, payload)) is None,
    ensures
        decode_stream(frame(tag, payload) + tail) == decode_stream(tail),
{
    lemma_split_frame(tag, payload, tail);
}

/// A call at the head of a stream is read first, and whatever follows it is
/// read as if it stood alone.
pub proof fn lemma_stream_reads_in_order(c: CallView, tail: Seq<u8>)
    requires
        c.wf(),
    ensures
        decode_stream(encode_call(c) + tail) == seq![c] + decode_stream(tail),
{
    lemma_split_frame(c.tag(), c.payload(), tail);
    lemma_call_round_trip(c);
}

/// Splits the first frame off a stream of frames, going by its header alone.
pub fn next_frame(stream: &[u8]) -> (r: Option<(&[u8], &[u8])>)
    ensures
        match r {
            Some((first, rest)) => split_frame(stream@) == Some((first@, rest@)),
            None => split_frame(stream@) is None,
        },
{
    if stream.len() < 9 {
        return None;
    }
    let announced: u64 = vstd::bytes::u64_from_le_bytes(vstd::slice::slice_subrange(stream, 1, 9));
    if announced > (stream.len() - 9) as u64 {
        return None;
    }
    let end: usize = 9 + announced as usize;
    let first: &[u8] = vstd::slice::slice_subrange(stream, 0, end);
    let rest: &[u8] = vstd::slice::slice_subrange(stream, end, stream.len());
    Some((first, rest))
}

impl Call {
    /// Decodes the calls in a stream of frames, in order. A frame that is
    /// no call is dropped, and reading goes on behind it.
    pub fn decode_stream(stream: &[u8]) -> (calls: Vec<Call>)
        ensures
            call_views(calls@) == decode_stream(stream@),
    {
        let mut calls: Vec<Call> = Vec::new();
        let mut rest: &[u8] = stream;
        assert(call_views(calls@) + decode_stream(rest@) =~= decode_stream(stream@));
        loop
            invariant
                call_views(calls@) + decode_stream(rest@) == decode_stream(stream@),
            decreases rest@.len(),
        {
            let ghost before = calls@;
            let ghost here = rest@;
            match next_frame(rest) {
                Some((first, behind)) => {
                    match Call::decode(first) {
                        Ok(call) => {
                            calls.push(call);
                            assert(call_views(calls@) =~= call_views(before).push(call@));
                            assert(call_views(calls@) + decode_stream(behind@) =~= call_views(
                                before,
                            ) + decode_stream(here));
                        },
                        Err(_) => {},
                    }
                    rest = behind;
                },
                None => {
                    assert(call_views(calls@) + Seq::<CallView>::empty() =~= call_views(calls@));
                    return calls;
                },
            }
        }
    }
}

} // verus!
