use mini_rust_runtime::executor::{Executor, Progress, Step};
use mini_rust_runtime::reactor::{Reactor, Readiness};
use mini_rust_runtime::tcp::{settle, Attempt, Outcome, LISTEN_BACKLOG};
use mini_rust_runtime::token::Direction;

fn ev(key: usize, readable: bool, writable: bool) -> Readiness {
    Readiness { key, readable, writable }
}

fn ready<T, E>(o: Outcome<T, E>) -> Result<T, E> {
    match o {
        Outcome::Ready(r) => r,
        Outcome::Pending => panic!("expected a ready outcome"),
    }
}

#[test]
fn backlog_value() {
    assert_eq!(LISTEN_BACKLOG, 1024);
}

#[test]
fn would_block_arms_and_suspends() {
    let mut r: Reactor<u32> = Reactor::new();
    let o = settle::<usize, (), u32>(&mut r, 5, Direction::Readable, Attempt::WouldBlock, 9);
    assert!(matches!(o, Outcome::Pending));
    assert_eq!(r.dispatch(&vec![ev(5, true, false)]), vec![9]);
}

#[test]
fn done_arms_nothing() {
    let mut r: Reactor<u32> = Reactor::new();
    let o = settle::<usize, (), u32>(&mut r, 5, Direction::Readable, Attempt::Done(6), 9);
    assert_eq!(ready(o), Ok(6));
    assert!(r.is_empty());
}

#[test]
fn read_of_zero_is_eof_not_would_block() {
    let mut r: Reactor<u32> = Reactor::new();
    let o = settle::<usize, (), u32>(&mut r, 5, Direction::Readable, Attempt::Done(0), 9);
    assert_eq!(ready(o), Ok(0));
    assert!(r.is_empty());
}

#[test]
fn failure_is_surfaced() {
    let mut r: Reactor<u32> = Reactor::new();
    let o = settle::<usize, &str, u32>(&mut r, 5, Direction::Readable, Attempt::Failed("reset"), 9);
    assert_eq!(ready(o), Err("reset"));
    assert!(r.is_empty());
}

#[test]
fn short_write_then_would_block_then_rest() {
    let total: usize = 1 << 20;
    let mut r: Reactor<u32> = Reactor::new();
    let mut sent: usize = 0;
    // first write is short: nothing armed
    let o = settle::<usize, (), u32>(&mut r, 6, Direction::Writable, Attempt::Done(65536), 1);
    sent += ready(o).unwrap();
    assert!(r.is_empty());
    // next write would block: writable interest armed
    let o = settle::<usize, (), u32>(&mut r, 6, Direction::Writable, Attempt::WouldBlock, 1);
    assert!(matches!(o, Outcome::Pending));
    assert_eq!(r.dispatch(&vec![ev(6, false, true)]), vec![1]);
    let o = settle::<usize, (), u32>(&mut r, 6, Direction::Writable, Attempt::Done(total - sent), 1);
    sent += ready(o).unwrap();
    assert_eq!(sent, total);
    assert!(r.is_empty());
}

#[test]
fn superseding_arm_keeps_second_waker() {
    let mut r: Reactor<u32> = Reactor::new();
    settle::<usize, (), u32>(&mut r, 5, Direction::Readable, Attempt::WouldBlock, 1);
    settle::<usize, (), u32>(&mut r, 5, Direction::Readable, Attempt::WouldBlock, 2);
    assert_eq!(r.dispatch(&vec![ev(5, true, false)]), vec![2]);
}

#[test]
fn accept_would_block_then_readable_resumes() {
    // the root task (waker 0) accepts on listener fd 3
    let mut r: Reactor<u32> = Reactor::new();
    let mut ex: Executor<u32> = Executor::new();
    let o = settle::<u32, (), u32>(&mut r, 3, Direction::Readable, Attempt::WouldBlock, 0);
    assert!(matches!(o, Outcome::Pending));
    assert!(matches!(ex.advance(Progress::RootPending), Step::PollRoot));
    let o = settle::<u32, (), u32>(&mut r, 3, Direction::Readable, Attempt::WouldBlock, 0);
    assert!(matches!(o, Outcome::Pending));
    assert!(matches!(ex.advance(Progress::RootPending), Step::Wait));
    // the kernel reports the listener readable; the root's inert waker fires
    assert_eq!(r.dispatch(&vec![ev(3, true, false)]), vec![0]);
    assert!(matches!(ex.advance(Progress::Woken), Step::PollRoot));
    let o = settle::<u32, (), u32>(&mut r, 3, Direction::Readable, Attempt::Done(4), 0);
    assert_eq!(ready(o), Ok(4));
    assert!(r.is_empty());
}

#[test]
fn echo_one_line() {
    // a connection on fd 4 served by task 1
    let mut r: Reactor<u32> = Reactor::new();
    let mut ex: Executor<u32> = Executor::new();
    ex.spawn(1);
    assert_eq!(match ex.advance(Progress::RootPending) { Step::PollTask(t) => t, _ => 0 }, 1);
    let line = b"hello\n";
    let o = settle::<usize, (), u32>(&mut r, 4, Direction::Readable, Attempt::Done(line.len()), 1);
    let n = ready(o).unwrap();
    assert_eq!(n, 6);
    let o = settle::<usize, (), u32>(&mut r, 4, Direction::Writable, Attempt::Done(n), 1);
    assert_eq!(ready(o), Ok(6));
    let o = settle::<usize, (), u32>(&mut r, 4, Direction::Readable, Attempt::WouldBlock, 1);
    assert!(matches!(o, Outcome::Pending));
    assert!(matches!(ex.advance(Progress::TaskPolled), Step::PollRoot));
    assert!(matches!(ex.advance(Progress::RootPending), Step::Wait));
    // the client closes: readable, and the read gives 0
    assert_eq!(r.dispatch(&vec![ev(4, true, false)]), vec![1]);
    ex.spawn(1);
    assert!(matches!(ex.advance(Progress::Woken), Step::PollTask(1)));
    let o = settle::<usize, (), u32>(&mut r, 4, Direction::Readable, Attempt::Done(0), 1);
    assert_eq!(ready(o), Ok(0));
    // the task ends and drops its stream
    r.delete(4);
    assert!(r.is_empty());
}

#[test]
fn two_clients_keep_their_wakers() {
    let mut r: Reactor<u32> = Reactor::new();
    settle::<usize, (), u32>(&mut r, 10, Direction::Readable, Attempt::WouldBlock, 1);
    settle::<usize, (), u32>(&mut r, 11, Direction::Readable, Attempt::WouldBlock, 2);
    assert_eq!(r.dispatch(&vec![ev(11, true, false)]), vec![2]);
    assert_eq!(r.dispatch(&vec![ev(10, true, false)]), vec![1]);
}

#[test]
fn peer_reset_ends_task_and_deregisters() {
    let mut r: Reactor<u32> = Reactor::new();
    let o = settle::<usize, &str, u32>(&mut r, 12, Direction::Readable, Attempt::Done(4), 1);
    assert_eq!(ready(o), Ok(4));
    let o = settle::<usize, &str, u32>(&mut r, 12, Direction::Readable, Attempt::Failed("connection reset"), 1);
    assert_eq!(ready(o), Err("connection reset"));
    r.delete(12);
    assert!(r.is_empty());
}

#[test]
fn listener_drop_leaves_table_empty() {
    let mut r: Reactor<u32> = Reactor::new();
    settle::<u32, (), u32>(&mut r, 3, Direction::Readable, Attempt::WouldBlock, 1);
    assert_eq!(r.dispatch(&vec![ev(3, true, false)]), vec![1]);
    let o = settle::<u32, (), u32>(&mut r, 3, Direction::Readable, Attempt::Done(5), 1);
    assert_eq!(ready(o), Ok(5));
    r.delete(5);
    r.delete(3);
    assert!(r.is_empty());
}
