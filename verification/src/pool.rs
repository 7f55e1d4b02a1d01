//! Bookkeeping of a connection pool: the idle connections, most recently
//! returned last, each with the time it was returned, and whether the pool
//! is closed.
//!
//! The pool itself (locks, the semaphore that bounds how many connections are
//! out at once, dialing) drives this state; every decision about which
//! connection to hand out, which to drop and which to keep is made here.

use crate::error::{Error, SpecError};
use vstd::prelude::*;

verus! {

/// A connection waiting in the pool, with the time (in nanoseconds on the
/// pool's clock) at which it was returned.
pub struct IdleConn<C> {
    pub conn: C,
    pub used_at: u64,
}

/// The state of a pool: closed or not, and its idle connections.
pub struct PoolView<C> {
    pub closed: bool,
    pub idle: Seq<IdleConn<C>>,
}

/// What a checkout of an idle connection comes to.
pub enum Checkout<C> {
    /// The most recently returned connection, fresh enough to reuse.
    Reuse(C),
    /// The most recently returned connection, idle for longer than the
    /// timeout: the caller drops it and tries again.
    Evict(C),
    /// No idle connection: the caller dials a new one.
    Dial,
}

/// A connection that has been idle since `used_at` has outlived the idle
/// timeout at `now`.
pub open spec fn expired(used_at: u64, now: u64, idle_timeout: Option<u64>) -> bool {
    match idle_timeout {
        Some(t) => now - used_at > t,
        None => false,
    }
}

/// The outcome of a checkout from state `s` at time `now`.
pub open spec fn checkout_outcome<C>(s: PoolView<C>, now: u64, idle_timeout: Option<u64>) -> Checkout<C> {
    if s.idle.len() == 0 {
        Checkout::Dial
    } else if expired(s.idle.last().used_at, now, idle_timeout) {
        Checkout::Evict(s.idle.last().conn)
    } else {
        Checkout::Reuse(s.idle.last().conn)
    }
}

/// The state after a checkout from state `s`: the last idle connection, if
/// any, has left.
pub open spec fn after_checkout<C>(s: PoolView<C>) -> PoolView<C> {
    if s.idle.len() == 0 {
        s
    } else {
        PoolView { closed: s.closed, idle: s.idle.drop_last() }
    }
}

/// Whether a connection handed back with `unread` bytes still buffered is
/// kept: only a connection with nothing left to read, returned to an open
/// pool.
pub open spec fn kept_on_checkin<C>(s: PoolView<C>, unread: usize) -> bool {
    unread == 0 && !s.closed
}

/// The state after a connection is handed back at time `now`.
pub open spec fn after_checkin<C>(s: PoolView<C>, conn: C, unread: usize, now: u64) -> PoolView<C> {
    if kept_on_checkin(s, unread) {
        PoolView { closed: s.closed, idle: s.idle.push(IdleConn { conn, used_at: now }) }
    } else {
        s
    }
}

/// The state after the pool is closed: no idle connection is left.
pub open spec fn after_close<C>(s: PoolView<C>) -> PoolView<C> {
    PoolView { closed: true, idle: Seq::empty() }
}

/// Whether a request for a connection may go on: a closed pool refuses it
/// with the `Closed` error, before any connection is taken or dialed.
pub open spec fn open_outcome<C>(s: PoolView<C>) -> Result<(), SpecError> {
    if s.closed {
        Err(SpecError::Closed)
    } else {
        Ok(())
    }
}

/// The idle connections of a pool and whether it is closed. A closed pool
/// holds no idle connection.
pub struct PoolState<C> {
    closed: bool,
    idle: Vec<IdleConn<C>>,
}

impl<C> View for PoolState<C> {
    type V = PoolView<C>;

    closed spec fn view(&self) -> PoolView<C> {
        PoolView { closed: self.closed, idle: self.idle@ }
    }
}

/// A closed pool holds no idle connection.
pub open spec fn pool_inv<C>(s: PoolView<C>) -> bool {
    s.closed ==> s.idle.len() == 0
}

impl<C> PoolState<C> {
    #[verifier::type_invariant]
    closed spec fn wf(self) -> bool {
        self.closed ==> self.idle@.len() == 0
    }

    /// An open pool with no idle connection.
    pub fn new() -> (res: Self)
        ensures
            !res@.closed,
            res@.idle.len() == 0,
    {
        PoolState { closed: false, idle: Vec::new() }
    }

    /// Whether the pool is closed.
    pub fn is_closed(&self) -> (res: bool)
        ensures
            res == self@.closed,
            pool_inv(self@),
    {
        proof {
            use_type_invariant(self);
        }
        self.closed
    }

    /// The first step of every request for a connection: refuses it with
    /// `Closed` when the pool is closed.
    pub fn check_open(&self) -> (res: Result<(), Error>)
        ensures
            match res {
                Ok(()) => open_outcome(self@) == Ok::<(), SpecError>(()),
                Err(e) => open_outcome(self@) == Err::<(), SpecError>(e@),
            },
    {
        if self.closed {
            Err(Error::Closed)
        } else {
            Ok(())
        }
    }

    /// The number of idle connections.
    pub fn idle_len(&self) -> (res: usize)
        ensures
            res == self@.idle.len(),
    {
        self.idle.len()
    }

    /// Takes the most recently returned idle connection, if any: to reuse it
    /// when it has been idle no longer than `idle_timeout` (in nanoseconds),
    /// or to drop it when it has.
    pub fn checkout(&mut self, now: u64, idle_timeout: Option<u64>) -> (res: Checkout<C>)
        ensures
            res == checkout_outcome(old(self)@, now, idle_timeout),
            final(self)@ == after_checkout(old(self)@),
            pool_inv(final(self)@),
    {
        proof {
            use_type_invariant(&*self);
        }
        let mut idle: Vec<IdleConn<C>> = Vec::new();
        core::mem::swap(&mut idle, &mut self.idle);
        let last = idle.pop();
        self.idle = idle;
        match last {
            None => Checkout::Dial,
            Some(pc) => {
                let stale = match idle_timeout {
                    Some(t) => now >= pc.used_at && now - pc.used_at > t,
                    None => false,
                };
                if stale {
                    Checkout::Evict(pc.conn)
                } else {
                    Checkout::Reuse(pc.conn)
                }
            },
        }
    }

    /// Hands a connection back at time `now`. It is kept only when nothing
    /// is left to read on it (`unread == 0`) and the pool is open; otherwise
    /// it is dropped. Returns whether it was kept.
    pub fn checkin(&mut self, conn: C, unread: usize, now: u64) -> (res: bool)
        ensures
            res == kept_on_checkin(old(self)@, unread),
            final(self)@ == after_checkin(old(self)@, conn, unread, now),
            pool_inv(final(self)@),
    {
        proof {
            use_type_invariant(&*self);
        }
        if unread > 0 || self.closed {
            return false;
        }
        let mut idle: Vec<IdleConn<C>> = Vec::new();
        core::mem::swap(&mut idle, &mut self.idle);
        idle.push(IdleConn { conn, used_at: now });
        self.idle = idle;
        true
    }

    /// Closes the pool and drops its idle connections. Closing a closed pool
    /// changes nothing.
    pub fn close(&mut self)
        ensures
            final(self)@ == after_close(old(self)@),
            pool_inv(final(self)@),
    {
        proof {
            use_type_invariant(&*self);
        }
        if self.closed {
            assert(self.idle@ =~= Seq::<IdleConn<C>>::empty());
            return;
        }
        self.idle = Vec::new();
        self.closed = true;
    }
}

/// A connection handed back with nothing left to read to an open pool is
/// the next one handed out, unless it outlives the idle timeout before then,
/// and taking it out leaves the pool as it was before it came back.
pub proof fn law_checkin_then_checkout<C>(
    s: PoolView<C>,
    conn: C,
    returned_at: u64,
    now: u64,
    idle_timeout: Option<u64>,
)
    requires
        !s.closed,
        !expired(returned_at, now, idle_timeout),
    ensures
        checkout_outcome(after_checkin(s, conn, 0, returned_at), now, idle_timeout) == Checkout::Reuse(
            conn,
        ),
        after_checkout(after_checkin(s, conn, 0, returned_at)) == s,
{
    assert(after_checkin(s, conn, 0, returned_at).idle.drop_last() =~= s.idle);
}

/// A connection idle for longer than the idle timeout is never reused: the
/// checkout that reaches it drops it.
pub proof fn law_expired_not_reused<C>(s: PoolView<C>, now: u64, idle_timeout: Option<u64>)
    requires
        s.idle.len() > 0,
        expired(s.idle.last().used_at, now, idle_timeout),
    ensures
        checkout_outcome(s, now, idle_timeout) == Checkout::Evict(s.idle.last().conn),
        !(checkout_outcome(s, now, idle_timeout) is Reuse),
{
}

/// A connection with unread data is never kept by the pool.
pub proof fn law_unread_not_pooled<C>(s: PoolView<C>, conn: C, unread: usize, now: u64)
    requires
        unread > 0,
    ensures
        after_checkin(s, conn, unread, now) == s,
{
}

/// A closed pool stays closed and empty: it hands out no idle connection,
/// keeps none that is handed back, and closing it again changes nothing.
pub proof fn law_closed_pool_keeps_nothing<C>(
    s: PoolView<C>,
    conn: C,
    unread: usize,
    now: u64,
    idle_timeout: Option<u64>,
)
    requires
        s.closed,
        pool_inv(s),
    ensures
        checkout_outcome(s, now, idle_timeout) == Checkout::<C>::Dial,
        after_checkin(s, conn, unread, now) == s,
        after_close(s) == s,
        pool_inv(after_checkin(s, conn, unread, now)),
{
    assert(s.idle =~= Seq::<IdleConn<C>>::empty());
}

/// Every operation keeps the pool's invariant: a closed pool holds no idle
/// connection.
pub proof fn law_pool_inv_kept<C>(s: PoolView<C>, conn: C, unread: usize, now: u64)
    requires
        pool_inv(s),
    ensures
        pool_inv(after_checkout(s)),
        pool_inv(after_checkin(s, conn, unread, now)),
        pool_inv(after_close(s)),
{
}

/// Once a pool is closed every request for a connection is refused with
/// `Closed`, whatever is handed back or taken out afterwards, and a closed
/// pool has no idle connection to hand out.
pub proof fn law_closed_pool_refuses<C>(
    s: PoolView<C>,
    conn: C,
    unread: usize,
    now: u64,
    idle_timeout: Option<u64>,
)
    ensures
        open_outcome(after_close(s)) == Err::<(), SpecError>(SpecError::Closed),
        open_outcome(after_checkin(after_close(s), conn, unread, now)) == Err::<(), SpecError>(
            SpecError::Closed,
        ),
        open_outcome(after_checkout(after_close(s))) == Err::<(), SpecError>(SpecError::Closed),
        open_outcome(after_close(after_close(s))) == Err::<(), SpecError>(SpecError::Closed),
        checkout_outcome(after_close(s), now, idle_timeout) == Checkout::<C>::Dial,
{
}

} // verus!
