use vstd::prelude::*;

verus! {

/// Largest value a file descriptor can take (`RawFd` is an `i32`).
pub const MAX_FD: i32 = 0x7fff_ffff;

/// The direction of readiness that a continuation waits for.
#[derive(Clone, Copy, Debug, PartialEq, Eq, Structural)]
pub enum Direction {
    Readable,
    Writable,
}

/// The interest token of `(fd, dir)`: `2 * fd` for readable, `2 * fd + 1` for writable.
pub open spec fn token_of(fd: int, dir: Direction) -> int {
    match dir {
        Direction::Readable => 2 * fd,
        Direction::Writable => 2 * fd + 1,
    }
}

/// A token encodes exactly one (fd, direction) pair.
pub proof fn lemma_token_injective(fd1: int, d1: Direction, fd2: int, d2: Direction)
    requires
        token_of(fd1, d1) == token_of(fd2, d2),
    ensures
        fd1 == fd2,
        d1 == d2,
{
}

/// The token under which the continuation waiting for `dir` on `fd` is kept.
pub fn token(fd: i32, dir: Direction) -> (t: u64)
    requires
        fd >= 0,
    ensures
        t as int == token_of(fd as int, dir),
{
    match dir {
        Direction::Readable => fd as u64 * 2,
        Direction::Writable => fd as u64 * 2 + 1,
    }
}

} // verus!
