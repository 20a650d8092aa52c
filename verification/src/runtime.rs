//! The contract between a host and whatever technology runs its guests.

use crate::error::RuntimeError;
use crate::protocol::{call_views, Call, CallView, Response, ResponseView};
use vstd::prelude::*;

verus! {

/// A backend that can hold one live guest.
///
/// The contract speaks of an instance through its snapshot: the bytes that
/// `serialize` writes. What an instance does next depends on nothing but
/// its snapshot and what the host hands it, so two instances with the same
/// snapshot are the same guest at the same point of its life.
pub trait Runtime: Sized {
    /// The invariant of a live instance.
    spec fn valid(&self) -> bool;

    /// The bytes that `serialize` writes for this instance.
    spec fn snapshot(&self) -> Seq<u8>;

    /// The snapshot of the instance that `load` brings up for `code`; `None`
    /// where `load` refuses `code`.
    spec fn fresh(code: Seq<u8>) -> Option<Seq<u8>>;

    /// What a tick after `elapsed` nanoseconds does to the instance with
    /// this snapshot: the snapshot afterwards, and what the host gets.
    spec fn ticked(snapshot: Seq<u8>, elapsed: u64) -> (
        Seq<u8>,
        Result<Seq<CallView>, RuntimeError>,
    );

    /// The snapshot of the instance with this snapshot after it was handed
    /// `value`.
    spec fn sent(snapshot: Seq<u8>, value: ResponseView) -> Seq<u8>;

    /// The error with which `serialize` refuses this instance; `None` where
    /// it writes the snapshot.
    spec fn serialize_error(&self) -> Option<RuntimeError>;

    /// Whether `deserialize` brings an instance back from these bytes.
    spec fn restorable(bytes: Seq<u8>) -> bool;

    /// Checks a module image and brings up a guest for it. The only failure
    /// is `LoadError`.
    fn load(code: &[u8]) -> (r: Result<Self, RuntimeError>)
        ensures
            match r {
                Ok(runtime) => runtime.valid() && Self::fresh(code@) == Some(runtime.snapshot()),
                Err(e) => e == RuntimeError::LoadError && Self::fresh(code@) is None,
            },
    ;

    /// Advances the guest by one step, after `elapsed` nanoseconds, and
    /// returns the calls it made during that step, in the order it made
    /// them. The only failure is `ExecutionTrap`.
    fn run_tick(&mut self, elapsed: u64) -> (r: Result<Vec<Call>, RuntimeError>)
        requires
            old(self).valid(),
        ensures
            final(self).valid(),
            match r {
                Ok(calls) => Self::ticked(old(self).snapshot(), elapsed) == (
                    final(self).snapshot(),
                    Ok::<Seq<CallView>, RuntimeError>(call_views(calls@)),
                ),
                Err(e) => e is ExecutionTrap && Self::ticked(old(self).snapshot(), elapsed) == (
                    final(self).snapshot(),
                    Err::<Seq<CallView>, RuntimeError>(e),
                ),
            },
    ;

    /// Hands one response to the guest, which reads it when it chooses to.
    fn send(&mut self, value: Response)
        requires
            old(self).valid(),
        ensures
            final(self).valid(),
            final(self).snapshot() == Self::sent(old(self).snapshot(), value@),
    ;

    /// Captures the instance as bytes: its snapshot, unless the backend
    /// refuses this instance, and then with the error it refuses it with.
    fn serialize(&self) -> (r: Result<Vec<u8>, RuntimeError>)
        requires
            self.valid(),
        ensures
            match r {
                Ok(bytes) => self.serialize_error() is None && bytes@ == self.snapshot(),
                Err(e) => self.serialize_error() == Some(e),
            },
    ;

    /// Brings an instance back from the bytes of `serialize`. What comes
    /// back has exactly those bytes as its snapshot. The only failure is
    /// `CorruptSnapshot`, on the bytes that are not restorable.
    fn deserialize(bytes: &[u8]) -> (r: Result<Self, RuntimeError>)
        ensures
            match r {
                Ok(runtime) => Self::restorable(bytes@) && runtime.valid() && runtime.snapshot()
                    == bytes@,
                Err(e) => !Self::restorable(bytes@) && e == RuntimeError::CorruptSnapshot,
            },
    ;

    /// Makes a second instance of the same guest at the same point of its
    /// life, by way of a snapshot: what `deserialize` makes of what
    /// `serialize` writes. It fails where `serialize` does, with the same
    /// error, and with `CorruptSnapshot` where the snapshot cannot be
    /// restored; everywhere else it gives an instance with this one's
    /// snapshot.
    fn duplicate(&self) -> (r: Result<Self, RuntimeError>)
        requires
            self.valid(),
        ensures
            match r {
                Ok(copy) => {
                    &&& self.serialize_error() is None
                    &&& Self::restorable(self.snapshot())
                    &&& copy.valid()
                    &&& copy.snapshot() == self.snapshot()
                },
                Err(e) => match self.serialize_error() {
                    Some(refusal) => e == refusal,
                    None => !Self::restorable(self.snapshot()) && e
                        == RuntimeError::CorruptSnapshot,
                },
            },
    {
        match self.serialize() {
            Ok(bytes) => Self::deserialize(bytes.as_slice()),
            Err(e) => Err(e),
        }
    }
}

/// What `duplicate` makes of an instance, in one value: the snapshot of the
/// copy, which is the instance's own, or the error that stood in the way.
pub open spec fn duplicated<R: Runtime>(runtime: &R) -> Result<Seq<u8>, RuntimeError> {
    match runtime.serialize_error() {
        Some(e) => Err(e),
        None => if R::restorable(runtime.snapshot()) {
            Ok(runtime.snapshot())
        } else {
            Err(RuntimeError::CorruptSnapshot)
        },
    }
}

} // verus!
