//! Connection-server bookkeeping: the bounded admission gate, the graceful
//! shutdown control, and the accept-retry backoff.
//!
//! These hold every decision the connection server takes; the caller owns
//! the listener and the tasks, acquires a slot before spawning a handler,
//! releases it exactly once when the handler exits, and polls the shutdown
//! control at every suspension point.

use vstd::prelude::*;

verus! {

// ---------------------------------------------------------------------------
// Admission gate
// ---------------------------------------------------------------------------

/// What an acquire attempt does to the number of held slots: one more and
/// admitted below the bound, unchanged and turned away at it.
pub open spec fn acquire_spec(active: nat, max: nat) -> (nat, bool) {
    if active < max {
        ((active + 1) as nat, true)
    } else {
        (active, false)
    }
}

/// What a release does: one slot handed back.
pub open spec fn release_spec(active: nat) -> nat {
    (active - 1) as nat
}

/// The bounded counting gate that admits at most `max` concurrent
/// connections.
#[derive(Copy, Clone, Debug)]
pub struct AdmissionGate {
    active: usize,
    max: usize,
}

impl AdmissionGate {
    /// Slots currently held.
    pub closed spec fn spec_active(&self) -> nat {
        self.active as nat
    }

    /// The fixed bound.
    pub closed spec fn spec_max(&self) -> nat {
        self.max as nat
    }

    /// Invariant: the held slots never exceed the bound.
    pub open spec fn wf(&self) -> bool {
        self.spec_active() <= self.spec_max()
    }

    /// A gate for at most `max` concurrent connections, all slots free.
    pub fn new(max: usize) -> (g: AdmissionGate)
        ensures
            g.wf(),
            g.spec_active() == 0,
            g.spec_max() == max,
    {
        AdmissionGate { active: 0, max }
    }

    /// Try to take a slot, exactly as [`acquire_spec`] describes. A caller
    /// that is refused must wait for a release and try again.
    pub fn try_acquire(&mut self) -> (ok: bool)
        requires
            old(self).wf(),
        ensures
            final(self).wf(),
            final(self).spec_max() == old(self).spec_max(),
            final(self).spec_active() == acquire_spec(
                old(self).spec_active(),
                old(self).spec_max(),
            ).0,
            ok == acquire_spec(old(self).spec_active(), old(self).spec_max()).1,
    {
        if self.active < self.max {
            self.active = self.active + 1;
            true
        } else {
            false
        }
    }

    /// Hand a slot back, exactly as [`release_spec`] describes; called
    /// exactly once per admitted connection, when its handler exits.
    pub fn release(&mut self)
        requires
            old(self).wf(),
            old(self).spec_active() > 0,
        ensures
            final(self).wf(),
            final(self).spec_max() == old(self).spec_max(),
            final(self).spec_active() == release_spec(old(self).spec_active()),
    {
        self.active = self.active - 1;
    }

    /// Slots currently held.
    pub fn active(&self) -> (r: usize)
        ensures
            r == self.spec_active(),
    {
        self.active
    }

    /// The fixed bound.
    pub fn capacity(&self) -> (r: usize)
        ensures
            r == self.spec_max(),
    {
        self.max
    }
}

/// Admission control: a full gate turns every new accept away, and the
/// gate stays full; as soon as one handler releases its slot, the very
/// next attempt is admitted.
pub proof fn lemma_admission_blocks_until_release(active: nat, max: nat)
    requires
        active == max,
    ensures
        !acquire_spec(active, max).1,
        acquire_spec(active, max).0 == active,
        max > 0 ==> acquire_spec(release_spec(active), max).1,
{
}

// ---------------------------------------------------------------------------
// Graceful shutdown
// ---------------------------------------------------------------------------

/// The mathematical shape of the shutdown control: whether the signal has
/// been raised, and how many handlers are live.
#[verifier::ext_equal]
pub struct CtlV {
    pub shutting_down: bool,
    pub live: nat,
}

/// Raising the signal.
pub open spec fn trigger_spec(c: CtlV) -> CtlV {
    CtlV { shutting_down: true, ..c }
}

/// One handler spawned.
pub open spec fn spawn_spec(c: CtlV) -> CtlV {
    CtlV { live: c.live + 1, ..c }
}

/// One handler finished.
pub open spec fn exit_spec(c: CtlV) -> CtlV {
    CtlV { live: (c.live - 1) as nat, ..c }
}

/// May a fresh connection be admitted?
pub open spec fn admit_spec(c: CtlV) -> bool {
    !c.shutting_down
}

/// Shutdown is complete: the signal is up and no handler is left.
pub open spec fn drained_spec(c: CtlV) -> bool {
    c.shutting_down && c.live == 0
}

/// `k` handlers finishing, one after the other.
pub open spec fn exits(c: CtlV, k: nat) -> CtlV
    decreases k,
{
    if k == 0 {
        c
    } else {
        exits(exit_spec(c), (k - 1) as nat)
    }
}

/// Handlers finishing never touch the signal, and each takes one off the
/// live count.
pub proof fn lemma_exits(c: CtlV, k: nat)
    requires
        k <= c.live,
    ensures
        exits(c, k).shutting_down == c.shutting_down,
        exits(c, k).live == c.live - k,
    decreases k,
{
    if k > 0 {
        lemma_exits(exit_spec(c), (k - 1) as nat);
    }
}

/// Graceful shutdown: once the signal is raised no new connection is ever
/// admitted, however many handlers finish meanwhile; and when each of the
/// N handlers that were live has finished, the server is drained.
pub proof fn lemma_shutdown_drains(c: CtlV)
    ensures
        forall|k: nat| k <= c.live ==> !admit_spec(#[trigger] exits(trigger_spec(c), k)),
        drained_spec(exits(trigger_spec(c), c.live)),
{
    assert forall|k: nat| k <= c.live implies !admit_spec(#[trigger] exits(trigger_spec(c), k)) by {
        lemma_exits(trigger_spec(c), k);
    }
    lemma_exits(trigger_spec(c), c.live);
}

/// The shutdown control a server and its handlers share.
#[derive(Copy, Clone, Debug)]
pub struct ServerCtl {
    shutting_down: bool,
    live: usize,
}

impl View for ServerCtl {
    type V = CtlV;

    closed spec fn view(&self) -> CtlV {
        CtlV { shutting_down: self.shutting_down, live: self.live as nat }
    }
}

impl ServerCtl {
    /// A fresh control: signal down, no handler live.
    pub fn new() -> (c: ServerCtl)
        ensures
            c@ == (CtlV { shutting_down: false, live: 0 }),
    {
        ServerCtl { shutting_down: false, live: 0 }
    }

    /// May a fresh connection be admitted? False from the moment the
    /// signal is raised.
    pub fn admit_allowed(&self) -> (r: bool)
        ensures
            r == admit_spec(self@),
    {
        !self.shutting_down
    }

    /// A handler was spawned for an admitted connection.
    pub fn on_spawn(&mut self)
        requires
            admit_spec(old(self)@),
            old(self)@.live < usize::MAX,
        ensures
            final(self)@ == spawn_spec(old(self)@),
    {
        self.live = self.live + 1;
        proof {
            assert(self@ =~= spawn_spec(old(self)@));
        }
    }

    /// Raise the shutdown signal: stop accepting, let the live handlers
    /// finish.
    pub fn trigger_shutdown(&mut self)
        ensures
            final(self)@ == trigger_spec(old(self)@),
    {
        self.shutting_down = true;
        proof {
            assert(self@ =~= trigger_spec(old(self)@));
        }
    }

    /// A handler finished and gave its token back.
    pub fn on_handler_exit(&mut self)
        requires
            old(self)@.live > 0,
        ensures
            final(self)@ == exit_spec(old(self)@),
    {
        self.live = self.live - 1;
        proof {
            assert(self@ =~= exit_spec(old(self)@));
        }
    }

    /// How many handlers are live.
    pub fn live(&self) -> (r: usize)
        ensures
            r == self@.live,
    {
        self.live
    }

    /// Shutdown is complete: the signal is up and every handler has
    /// finished.
    pub fn drained(&self) -> (r: bool)
        ensures
            r == drained_spec(self@),
    {
        self.shutting_down && self.live == 0
    }
}

// ---------------------------------------------------------------------------
// Accept-retry backoff
// ---------------------------------------------------------------------------

/// The largest delay still retried; one doubling past it gives up.
pub const MAX_BACKOFF: u64 = 64;

/// Exponential backoff for transient accept failures: delays of 1, 2, 4,
/// up to [`MAX_BACKOFF`] time-units, then giving up.
#[derive(Copy, Clone, Debug)]
pub struct Backoff {
    delay: u64,
}

impl Backoff {
    /// The delay the next failure will draw.
    pub closed spec fn spec_delay(&self) -> nat {
        self.delay as nat
    }

    /// The backoff's invariant.
    pub open spec fn wf(&self) -> bool {
        1 <= self.spec_delay() <= 2 * MAX_BACKOFF
    }

    /// A fresh backoff, at the initial one time-unit.
    pub fn new() -> (b: Backoff)
        ensures
            b.wf(),
            b.spec_delay() == 1,
    {
        Backoff { delay: 1 }
    }

    /// The delay to sleep before the next retry, doubling each time;
    /// `None` once the delay has grown past [`MAX_BACKOFF`], when the
    /// caller gives up and propagates the accept error.
    pub fn next_delay(&mut self) -> (r: Option<u64>)
        requires
            old(self).wf(),
        ensures
            final(self).wf(),
            old(self).spec_delay() > MAX_BACKOFF ==> r is None && final(self).spec_delay() == old(
                self,
            ).spec_delay(),
            old(self).spec_delay() <= MAX_BACKOFF ==> r == Some(
                (old(self).spec_delay()) as u64,
            ) && final(self).spec_delay() == 2 * old(self).spec_delay(),
    {
        if self.delay > MAX_BACKOFF {
            None
        } else {
            let d = self.delay;
            self.delay = self.delay * 2;
            Some(d)
        }
    }

    /// An accept succeeded: start over at one time-unit.
    pub fn reset(&mut self)
        ensures
            final(self).wf(),
            final(self).spec_delay() == 1,
    {
        self.delay = 1;
    }
}

} // verus!
