use vstd::prelude::*;

verus! {

/// The port the server listens on when none is given.
pub const DEFAULT_PORT: u16 = 3000;

/// The port to listen on or dial: the one given, else `DEFAULT_PORT`.
pub fn port_or_default(port: Option<u16>) -> (r: u16)
    ensures
        r == match port {
            Some(p) => p,
            None => DEFAULT_PORT,
        },
{
    match port {
        Some(p) => p,
        None => DEFAULT_PORT,
    }
}

/// What the listener does with the outcome of one accept call.
#[derive(Clone, Copy, Debug, PartialEq, Eq, Structural)]
pub enum AcceptDecision {
    /// Start a reader for the accepted connection.
    Spawn,
    /// Stop accepting: the hub has stopped.
    Stop,
    /// The accept failed while the server was running: give up with the error.
    Fail,
}

/// Decides what the listener does after an accept call returned, successfully or not.
///
/// Once a stop was requested every outcome stops the listener, the connection that the
/// shutdown opens to wake it included, and an accept error is then expected and dropped.
pub fn after_accept(stop_requested: bool, accepted: bool) -> (r: AcceptDecision)
    ensures
        stop_requested ==> r == AcceptDecision::Stop,
        !stop_requested && accepted ==> r == AcceptDecision::Spawn,
        !stop_requested && !accepted ==> r == AcceptDecision::Fail,
{
    if stop_requested {
        AcceptDecision::Stop
    } else if accepted {
        AcceptDecision::Spawn
    } else {
        AcceptDecision::Fail
    }
}

/// The number of `true` entries of `s`.
pub open spec fn count_true(s: Seq<bool>) -> nat
    decreases s.len(),
{
    if s.len() == 0 {
        0
    } else {
        count_true(s.drop_last()) + if s.last() {
            1nat
        } else {
            0nat
        }
    }
}

/// Sums up how the reader workers ended, once all of them have been waited on: `abnormal`
/// holds, for each, whether it ended other than through an error or disconnect event.
/// Fails with the number of such workers where there is any.
pub fn workers_outcome(abnormal: &[bool]) -> (r: Result<(), usize>)
    ensures
        r == if count_true(abnormal@) == 0 {
            Ok::<(), usize>(())
        } else {
            Err::<(), usize>(count_true(abnormal@) as usize)
        },
{
    let mut failed: usize = 0;
    let mut i: usize = 0;
    while i < abnormal.len()
        invariant
            i <= abnormal@.len(),
            failed == count_true(abnormal@.subrange(0, i as int)),
            failed <= i,
        decreases abnormal@.len() - i,
    {
        assert(abnormal@.subrange(0, i + 1).drop_last() =~= abnormal@.subrange(0, i as int));
        if abnormal[i] {
            failed += 1;
        }
        i += 1;
    }
    assert(abnormal@.subrange(0, i as int) =~= abnormal@);
    if failed == 0 {
        Ok(())
    } else {
        Err(failed)
    }
}

} // verus!
