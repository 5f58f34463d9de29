use vstd::prelude::*;
use rustc_hash::FxHashMap;
use crate::token::{token, token_of, Direction, MAX_FD};

verus! {

/// One readiness notification as the poller reports it: the key that the fd
/// was registered under, and which directions became ready.
#[derive(Clone, Copy, Debug, PartialEq, Eq, Structural)]
pub struct Readiness {
    pub key: usize,
    pub readable: bool,
    pub writable: bool,
}

/// The slot key of `(fd, dir)` in the waker table.
pub open spec fn slot_key(fd: int, dir: Direction) -> u64 {
    token_of(fd, dir) as u64
}

/// What the table holds under `t`, if anything.
pub open spec fn slot_of<W>(m: Map<u64, W>, t: u64) -> Option<W> {
    if m.contains_key(t) {
        Some(m[t])
    } else {
        None
    }
}

/// Removes the waker under `t`, if any, and hands it out to be invoked.
pub open spec fn take_slot<W>(m: Map<u64, W>, t: u64) -> (Map<u64, W>, Seq<W>) {
    if m.contains_key(t) {
        (m.remove(t), seq![m[t]])
    } else {
        (m, Seq::empty())
    }
}

/// Whether a poller key names a file descriptor that could have been registered.
pub open spec fn is_fd_key(key: usize) -> bool {
    key <= MAX_FD as usize
}

/// One notification: the readable slot first, then the writable one.
pub open spec fn dispatch_one<W>(m: Map<u64, W>, e: Readiness) -> (Map<u64, W>, Seq<W>) {
    if is_fd_key(e.key) {
        let r = if e.readable {
            take_slot(m, slot_key(e.key as int, Direction::Readable))
        } else {
            (m, Seq::empty())
        };
        let w = if e.writable {
            take_slot(r.0, slot_key(e.key as int, Direction::Writable))
        } else {
            (r.0, Seq::empty())
        };
        (w.0, r.1 + w.1)
    } else {
        (m, Seq::empty())
    }
}

/// A batch of notifications, in the order the poller delivered them: the
/// table left behind and the wakers to invoke, in invocation order.
pub open spec fn dispatch_all<W>(m: Map<u64, W>, evs: Seq<Readiness>) -> (Map<u64, W>, Seq<W>)
    decreases evs.len(),
{
    if evs.len() == 0 {
        (m, Seq::empty())
    } else {
        let prev = dispatch_all(m, evs.drop_last());
        let last = dispatch_one(prev.0, evs.last());
        (last.0, prev.1 + last.1)
    }
}

/// The hasher of an `FxHashMap` (rustc_hash), carried through opaquely.
#[verifier::external_type_specification]
#[verifier::external_body]
pub struct ExFxHasher(rustc_hash::FxHasher);

/// std's `BuildHasherDefault`, the hash builder of an `FxHashMap`, carried through opaquely.
#[verifier::external_type_specification]
#[verifier::external_body]
#[verifier::reject_recursive_types(H)]
pub struct ExBuildHasherDefault<H>(std::hash::BuildHasherDefault<H>);

/// Relies on `HashMap::insert` of an `FxHashMap` (rustc_hash): the key now maps
/// to the new value, and the value it held before is returned.
#[verifier::external_body]
fn slot_insert<W>(m: &mut FxHashMap<u64, W>, t: u64, w: W) -> (prior: Option<W>)
    ensures
        final(m)@ == old(m)@.insert(t, w),
        prior == slot_of(old(m)@, t),
{
    m.insert(t, w)
}

/// Relies on `HashMap::remove` of an `FxHashMap` (rustc_hash): the key is gone,
/// and the value it held is returned.
#[verifier::external_body]
fn slot_remove<W>(m: &mut FxHashMap<u64, W>, t: u64) -> (taken: Option<W>)
    ensures
        final(m)@ == old(m)@.remove(t),
        taken == slot_of(old(m)@, t),
{
    m.remove(&t)
}

/// The table of suspended continuations, one slot per interest token.
pub struct Reactor<W> {
    waker_mapping: FxHashMap<u64, W>,
}

impl<W> Reactor<W> {
    /// The wakers currently armed, by token.
    pub closed spec fn slots(&self) -> Map<u64, W> {
        self.waker_mapping@
    }

    /// A reactor with no armed interest.
    pub fn new() -> (r: Self)
        ensures
            r.slots() == Map::<u64, W>::empty(),
    {
        Reactor { waker_mapping: FxHashMap::default() }
    }

    fn push_completion(&mut self, t: u64, waker: W) -> (prior: Option<W>)
        ensures
            final(self).slots() == old(self).slots().insert(t, waker),
            prior == slot_of(old(self).slots(), t),
    {
        slot_insert(&mut self.waker_mapping, t, waker)
    }

    /// Arms readable interest on `fd` with `waker`. A waker armed there before
    /// is superseded and handed back, never invoked.
    pub fn modify_readable(&mut self, fd: i32, waker: W) -> (prior: Option<W>)
        requires
            fd >= 0,
        ensures
            final(self).slots() == old(self).slots().insert(
                slot_key(fd as int, Direction::Readable),
                waker,
            ),
            prior == slot_of(old(self).slots(), slot_key(fd as int, Direction::Readable)),
    {
        self.push_completion(token(fd, Direction::Readable), waker)
    }

    /// Arms writable interest on `fd` with `waker`. A waker armed there before
    /// is superseded and handed back, never invoked.
    pub fn modify_writable(&mut self, fd: i32, waker: W) -> (prior: Option<W>)
        requires
            fd >= 0,
        ensures
            final(self).slots() == old(self).slots().insert(
                slot_key(fd as int, Direction::Writable),
                waker,
            ),
            prior == slot_of(old(self).slots(), slot_key(fd as int, Direction::Writable)),
    {
        self.push_completion(token(fd, Direction::Writable), waker)
    }

    /// Drops both of `fd`'s slots, so that no waker of it can fire once the
    /// number is reused.
    pub fn delete(&mut self, fd: i32)
        requires
            fd >= 0,
        ensures
            final(self).slots() == old(self).slots().remove(
                slot_key(fd as int, Direction::Readable),
            ).remove(slot_key(fd as int, Direction::Writable)),
    {
        let _ = slot_remove(&mut self.waker_mapping, token(fd, Direction::Readable));
        let _ = slot_remove(&mut self.waker_mapping, token(fd, Direction::Writable));
    }

    /// Consumes the wakers that a batch of notifications makes due, and
    /// returns them in the order they are to be invoked.
    pub fn dispatch(&mut self, events: &Vec<Readiness>) -> (woken: Vec<W>)
        ensures
            (final(self).slots(), woken@) == dispatch_all(old(self).slots(), events@),
    {
        let mut woken: Vec<W> = Vec::new();
        let n = events.len();
        let mut i: usize = 0;
        while i < n
            invariant
                n == events@.len(),
                i <= n,
                (self.slots(), woken@) == dispatch_all(old(self).slots(), events@.take(i as int)),
            decreases n - i,
        {
            let e = events[i];
            proof {
                assert(events@.take(i as int + 1).drop_last() =~= events@.take(i as int));
                assert(events@.take(i as int + 1).last() == e);
            }
            let ghost before = woken@;
            if e.key <= MAX_FD as usize {
                let fd = e.key as i32;
                if e.readable {
                    match slot_remove(&mut self.waker_mapping, token(fd, Direction::Readable)) {
                        Some(w) => woken.push(w),
                        None => {},
                    }
                }
                if e.writable {
                    match slot_remove(&mut self.waker_mapping, token(fd, Direction::Writable)) {
                        Some(w) => woken.push(w),
                        None => {},
                    }
                }
            }
            proof {
                let step = dispatch_one(dispatch_all(old(self).slots(), events@.take(i as int)).0, e);
                assert(woken@ =~= before + step.1);
            }
            i = i + 1;
        }
        assert(events@.take(n as int) =~= events@);
        woken
    }

    /// Whether no interest is armed at all.
    pub fn is_empty(&self) -> (r: bool)
        ensures
            r == (self.slots() == Map::<u64, W>::empty()),
    {
        let r = self.waker_mapping.is_empty();
        proof {
            if !r {
                assert(self.slots().dom() != Set::<u64>::empty());
            } else {
                assert(self.slots() =~= Map::<u64, W>::empty());
            }
        }
        r
    }
}

/// Whether notification `e` concerns the slot `t`.
pub open spec fn touches_one(e: Readiness, t: u64) -> bool {
    is_fd_key(e.key) && ((e.readable && t == slot_key(e.key as int, Direction::Readable)) || (
    e.writable && t == slot_key(e.key as int, Direction::Writable)))
}

/// Whether some notification of the batch concerns the slot `t`.
pub open spec fn touches(evs: Seq<Readiness>, t: u64) -> bool {
    exists|i: int| 0 <= i < evs.len() && touches_one(#[trigger] evs[i], t)
}

proof fn lemma_touches_split(evs: Seq<Readiness>, t: u64)
    requires
        evs.len() > 0,
    ensures
        touches(evs, t) == (touches(evs.drop_last(), t) || touches_one(evs.last(), t)),
{
    if touches(evs, t) {
        let i = choose|i: int| 0 <= i < evs.len() && touches_one(#[trigger] evs[i], t);
        if i < evs.len() - 1 {
            assert(evs.drop_last()[i] == evs[i]);
        }
    }
    if touches(evs.drop_last(), t) {
        let i = choose|i: int| 0 <= i < evs.drop_last().len() && touches_one(
            #[trigger] evs.drop_last()[i],
            t,
        );
        assert(evs[i] == evs.drop_last()[i]);
    }
    if touches_one(evs.last(), t) {
        assert(touches_one(evs[evs.len() - 1], t));
    }
}

/// Dispatch consumes: every slot that the batch concerns is empty afterwards,
/// every other slot is left as it was, and every waker taken out of the table
/// is among those handed out to be invoked.
pub proof fn lemma_dispatch_consumes<W>(m: Map<u64, W>, evs: Seq<Readiness>)
    ensures
        forall|t: u64| touches(evs, t) ==> !(#[trigger] dispatch_all(m, evs).0.contains_key(t)),
        forall|t: u64|
            !touches(evs, t) ==> (#[trigger] dispatch_all(m, evs).0.contains_key(t)
                == m.contains_key(t) && (m.contains_key(t) ==> dispatch_all(m, evs).0[t] == m[t])),
        forall|t: u64|
            m.contains_key(t) && !(#[trigger] dispatch_all(m, evs).0.contains_key(t))
                ==> dispatch_all(m, evs).1.contains(m[t]),
    decreases evs.len(),
{
    if evs.len() > 0 {
        let pre = evs.drop_last();
        let e = evs.last();
        lemma_dispatch_consumes(m, pre);
        let p = dispatch_all(m, pre);
        let q = dispatch_one(p.0, e);
        assert(dispatch_all(m, evs) == (q.0, p.1 + q.1));
        assert forall|t: u64| #[trigger] q.0.contains_key(t) == (p.0.contains_key(t) && !touches_one(e, t))
            && (q.0.contains_key(t) ==> q.0[t] == p.0[t]) by {}
        assert forall|t: u64| p.0.contains_key(t) && !(#[trigger] q.0.contains_key(t))
            implies q.1.contains(p.0[t]) by {
            if is_fd_key(e.key) {
                let rk = slot_key(e.key as int, Direction::Readable);
                let wk = slot_key(e.key as int, Direction::Writable);
                let r = if e.readable { take_slot(p.0, rk) } else { (p.0, Seq::<W>::empty()) };
                let w = if e.writable { take_slot(r.0, wk) } else { (r.0, Seq::<W>::empty()) };
                assert(rk != wk);
                if e.readable && t == rk {
                    assert(q.1[0] == p.0[t]);
                } else {
                    assert(q.1[r.1.len() as int] == p.0[t]);
                }
            }
        }
        assert forall|t: u64| touches(evs, t) implies !(#[trigger] dispatch_all(m, evs).0.contains_key(t)) by {
            lemma_touches_split(evs, t);
        }
        assert forall|t: u64| !touches(evs, t) implies (#[trigger] dispatch_all(m, evs).0.contains_key(t)
            == m.contains_key(t) && (m.contains_key(t) ==> dispatch_all(m, evs).0[t] == m[t])) by {
            lemma_touches_split(evs, t);
        }
        assert forall|t: u64| m.contains_key(t) && !(#[trigger] dispatch_all(m, evs).0.contains_key(t))
            implies dispatch_all(m, evs).1.contains(m[t]) by {
            lemma_touches_split(evs, t);
            if p.0.contains_key(t) {
                let j = choose|j: int| 0 <= j < q.1.len() && q.1[j] == p.0[t];
                assert((p.1 + q.1)[p.1.len() + j] == m[t]);
            } else {
                let j = choose|j: int| 0 <= j < p.1.len() && p.1[j] == m[t];
                assert((p.1 + q.1)[j] == m[t]);
            }
        }
    }
}

/// A batch whose slots are all empty wakes nothing and changes nothing.
proof fn lemma_dispatch_idle<W>(m: Map<u64, W>, evs: Seq<Readiness>)
    requires
        forall|t: u64| touches(evs, t) ==> !m.contains_key(t),
    ensures
        dispatch_all(m, evs) == (m, Seq::<W>::empty()),
    decreases evs.len(),
{
    if evs.len() > 0 {
        assert forall|t: u64| touches(evs.drop_last(), t) implies !m.contains_key(t) by {
            lemma_touches_split(evs, t);
        }
        lemma_dispatch_idle(m, evs.drop_last());
        let e = evs.last();
        assert(touches_one(e, slot_key(e.key as int, Direction::Readable)) ==> touches(evs, slot_key(e.key as int, Direction::Readable))) by {
            lemma_touches_split(evs, slot_key(e.key as int, Direction::Readable));
        }
        assert(touches_one(e, slot_key(e.key as int, Direction::Writable)) ==> touches(evs, slot_key(e.key as int, Direction::Writable))) by {
            lemma_touches_split(evs, slot_key(e.key as int, Direction::Writable));
        }
        assert(Seq::<W>::empty() + Seq::<W>::empty() =~= Seq::<W>::empty());
    }
}

/// Each arm is invoked at most once: handing the same batch of notifications
/// to the reactor a second time, with no arm in between, wakes nothing.
pub proof fn lemma_dispatch_twice_wakes_nothing<W>(m: Map<u64, W>, evs: Seq<Readiness>)
    ensures
        dispatch_all(dispatch_all(m, evs).0, evs).1 == Seq::<W>::empty(),
{
    lemma_dispatch_consumes(m, evs);
    lemma_dispatch_idle(dispatch_all(m, evs).0, evs);
}

/// One waker per token: arming a slot twice leaves only the second waker,
/// and the first is what the second arm hands back.
pub proof fn lemma_rearm_replaces<W>(m: Map<u64, W>, t: u64, first: W, second: W)
    ensures
        m.insert(t, first).insert(t, second) == m.insert(t, second),
        slot_of(m.insert(t, first), t) == Some(first),
{
    assert(m.insert(t, first).insert(t, second) =~= m.insert(t, second));
}

/// After `fd` is deregistered neither of its slots holds a waker, so a
/// notification for that number, should it be reused, wakes nothing that was
/// armed before.
pub proof fn lemma_delete_purges<W>(m: Map<u64, W>, fd: int, e: Readiness)
    requires
        0 <= fd <= MAX_FD,
        e.key == fd,
    ensures
        ({
            let d = m.remove(slot_key(fd, Direction::Readable)).remove(
                slot_key(fd, Direction::Writable),
            );
            &&& !d.contains_key(slot_key(fd, Direction::Readable))
            &&& !d.contains_key(slot_key(fd, Direction::Writable))
            &&& dispatch_all(d, seq![e]) == (d, Seq::<W>::empty())
        }),
{
    let d = m.remove(slot_key(fd, Direction::Readable)).remove(slot_key(fd, Direction::Writable));
    assert forall|t: u64| touches(seq![e], t) implies !d.contains_key(t) by {
        assert(seq![e][0] == e);
    }
    lemma_dispatch_idle(d, seq![e]);
}

} // verus!
