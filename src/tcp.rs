use vstd::prelude::*;
use crate::reactor::{slot_key, Reactor};
use crate::token::Direction;

verus! {

/// The backlog a listener is opened with.
pub const LISTEN_BACKLOG: i32 = 1024;

/// What one non-blocking socket call (accept, read, write) came back with.
pub enum Attempt<T, E> {
    /// The call went through with this result.
    Done(T),
    /// The kernel could not proceed without blocking.
    WouldBlock,
    /// The call failed for another reason.
    Failed(E),
}

/// What a suspension-capable operation reports to the task that polls it.
pub enum Outcome<T, E> {
    /// The operation finished, well or not.
    Ready(Result<T, E>),
    /// The task is suspended; its waker is armed in the reactor.
    Pending,
}

/// The outcome that an attempt settles to: would-block suspends, anything
/// else is handed to the caller as it is.
pub open spec fn settled<T, E>(a: Attempt<T, E>) -> Outcome<T, E> {
    match a {
        Attempt::Done(v) => Outcome::Ready(Ok(v)),
        Attempt::WouldBlock => Outcome::Pending,
        Attempt::Failed(e) => Outcome::Ready(Err(e)),
    }
}

/// Settles a non-blocking call on `fd` in direction `dir`. On would-block the
/// task's waker is armed for `dir` on `fd`, replacing (and dropping, never
/// invoking) any waker armed there before, and the task suspends. On any
/// other result nothing is armed and the result goes to the caller, so a
/// call that made progress, however little, never arms interest.
pub fn settle<T, E, W>(
    reactor: &mut Reactor<W>,
    fd: i32,
    dir: Direction,
    attempt: Attempt<T, E>,
    waker: W,
) -> (r: Outcome<T, E>)
    requires
        fd >= 0,
    ensures
        r == settled(attempt),
        attempt is WouldBlock ==> final(reactor).slots() == old(reactor).slots().insert(
            slot_key(fd as int, dir),
            waker,
        ),
        !(attempt is WouldBlock) ==> final(reactor).slots() == old(reactor).slots(),
{
    match attempt {
        Attempt::Done(v) => Outcome::Ready(Ok(v)),
        Attempt::Failed(e) => Outcome::Ready(Err(e)),
        Attempt::WouldBlock => {
            let _superseded = match dir {
                Direction::Readable => reactor.modify_readable(fd, waker),
                Direction::Writable => reactor.modify_writable(fd, waker),
            };
            Outcome::Pending
        },
    }
}

} // verus!
