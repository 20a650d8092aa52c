//! The host's side of driving a guest, for any backend: bringing a guest
//! up, giving it one tick at a time, handing it what the host's other parts
//! answered, and replacing it after a rebuild.
//!
//! The loop itself belongs to the host: it asks whether to go on, calls
//! `turn`, lets the calls take effect, and calls `deliver`.

use crate::error::RuntimeError;
use crate::protocol::{call_views, Call, CallView, Response, ResponseView};
use crate::runtime::{duplicated, Runtime};
use crate::wire::same_bytes;
use vstd::prelude::*;

verus! {

/// How one turn of the host's loop ended.
pub enum Turn {
    /// The host was told to stop. The guest was not touched.
    Stopped,
    /// The guest made these calls and waits for the next tick.
    Calls(Vec<Call>),
    /// The guest faulted and must be discarded.
    Trapped(RuntimeError),
}

/// The views of a list of responses.
pub open spec fn response_views(values: Seq<Response>) -> Seq<ResponseView> {
    values.map_values(|r: Response| r@)
}

/// The snapshot of the instance with this snapshot after it was handed
/// `values`, first to last.
pub open spec fn sent_all<R: Runtime>(snapshot: Seq<u8>, values: Seq<ResponseView>) -> Seq<u8>
    decreases values.len(),
{
    if values.len() == 0 {
        snapshot
    } else {
        sent_all::<R>(R::sent(snapshot, values[0]), values.skip(1))
    }
}

/// Settles which instance goes on after a rebuild: the copy of the guest
/// that ran before, if there is one; the freshly loaded guest, if the copy
/// could not be made.
pub fn settle<R: Runtime>(fresh: R, copy: Result<R, RuntimeError>) -> (r: R)
    ensures
        match copy {
            Ok(carried) => r == carried,
            Err(_) => r == fresh,
        },
{
    match copy {
        Ok(carried) => carried,
        Err(_) => fresh,
    }
}

/// Whether the state of the guest that ran before is carried over to the
/// guest for `code`: there is such a guest, it ran the very same image, and
/// a copy of it can be made.
pub open spec fn carries<R: Runtime>(
    previous: Option<&R>,
    previous_code: Seq<u8>,
    code: Seq<u8>,
) -> bool {
    previous matches Some(p) && previous_code == code && duplicated(p) is Ok
}

/// Brings up the guest for a module image that was just built.
///
/// The image is loaded in any case; a refused image is the only failure.
/// The state of the guest that ran before is carried over only if that
/// guest ran the very same image, since any other image may lay its memory
/// out differently; a copy that cannot be made is made up for by the fresh
/// guest.
pub fn launch<R: Runtime>(code: &[u8], previous: Option<&R>, previous_code: &[u8]) -> (r: Result<
    R,
    RuntimeError,
>)
    requires
        previous matches Some(p) ==> p.valid(),
    ensures
        match r {
            Ok(runtime) => {
                &&& runtime.valid()
                &&& R::fresh(code@) is Some
                &&& runtime.snapshot() == if carries(previous, previous_code@, code@) {
                    previous.unwrap().snapshot()
                } else {
                    R::fresh(code@).unwrap()
                }
            },
            Err(e) => e == RuntimeError::LoadError && R::fresh(code@) is None,
        },
{
    let fresh: R = match R::load(code) {
        Ok(fresh) => fresh,
        Err(e) => { return Err(e); },
    };
    match previous {
        Some(p) => {
            if same_bytes(previous_code, code) {
                Ok(settle(fresh, p.duplicate()))
            } else {
                Ok(fresh)
            }
        },
        None => Ok(fresh),
    }
}

/// One turn of the host's loop. If the host is to stop, nothing happens to
/// the guest. Otherwise the guest gets exactly one tick.
pub fn turn<R: Runtime>(runtime: &mut R, keep_going: bool, elapsed: u64) -> (t: Turn)
    requires
        old(runtime).valid(),
    ensures
        final(runtime).valid(),
        match t {
            Turn::Stopped => !keep_going && *final(runtime) == *old(runtime),
            Turn::Calls(calls) => keep_going && R::ticked(old(runtime).snapshot(), elapsed) == (
                final(runtime).snapshot(),
                Ok::<Seq<CallView>, RuntimeError>(call_views(calls@)),
            ),
            Turn::Trapped(e) => keep_going && e is ExecutionTrap && R::ticked(
                old(runtime).snapshot(),
                elapsed,
            ) == (final(runtime).snapshot(), Err::<Seq<CallView>, RuntimeError>(e)),
        },
{
    if !keep_going {
        return Turn::Stopped;
    }
    match runtime.run_tick(elapsed) {
        Ok(calls) => Turn::Calls(calls),
        Err(e) => Turn::Trapped(e),
    }
}

/// Hands the guest what the host's other parts answered, first to last.
pub fn deliver<R: Runtime>(runtime: &mut R, responses: Vec<Response>)
    requires
        old(runtime).valid(),
    ensures
        final(runtime).valid(),
        final(runtime).snapshot() == sent_all::<R>(
            old(runtime).snapshot(),
            response_views(responses@),
        ),
{
    let mut rest: Vec<Response> = responses;
    while rest.len() > 0
        invariant
            runtime.valid(),
            sent_all::<R>(runtime.snapshot(), response_views(rest@)) == sent_all::<R>(
                old(runtime).snapshot(),
                response_views(responses@),
            ),
        decreases rest@.len(),
    {
        let ghost before = rest@;
        let value: Response = rest.remove(0);
        assert(response_views(before).skip(1) =~= response_views(rest@));
        assert(response_views(before)[0] == value@);
        runtime.send(value);
    }
}

/// Two instances with the same snapshot answer the next tick alike, and are
/// left with the same snapshot again: whatever backend they run on, a copy
/// does what the instance it was made from does.
pub proof fn lemma_copy_behaves_alike<R: Runtime>(first: &R, copy: &R, elapsed: u64)
    requires
        copy.snapshot() == first.snapshot(),
    ensures
        R::ticked(copy.snapshot(), elapsed) == R::ticked(first.snapshot(), elapsed),
{
}

} // verus!
