//! The admission gate: whether a new connection may be served now.

use vstd::prelude::*;

verus! {

/// What an admission gate holds.
pub struct GateState {
    /// The most live references to the registry with which a connection is
    /// still admitted.
    pub limit: nat,
    /// The references that the dispatcher holds itself.
    pub own: nat,
    /// The workers that are serving a connection.
    pub workers: nat,
}

impl GateState {
    /// An admission gate with the given limit and no worker, where the
    /// dispatcher's own reference counts as one.
    pub open spec fn idle(limit: nat) -> GateState {
        GateState { limit, own: 1, workers: 0 }
    }

    /// The live references to the registry: one that each worker holds, and
    /// those that the dispatcher holds itself.
    pub open spec fn live_references(self) -> nat {
        self.workers + self.own
    }

    /// A connection is admitted while the live references do not exceed the
    /// limit. Where the dispatcher's own reference counts as one, this is
    /// while fewer than `limit` workers are serving.
    pub open spec fn admits(self) -> bool {
        self.live_references() <= self.limit
    }

    /// The most workers that can be serving at once.
    pub open spec fn capacity(self) -> nat {
        if self.own <= self.limit {
            (self.limit - self.own + 1) as nat
        } else {
            0
        }
    }

    /// An admission gate after a connection has come: with one worker more
    /// where it was admitted, unchanged where it was not.
    pub open spec fn arrived(self) -> GateState {
        if self.admits() {
            GateState { limit: self.limit, own: self.own, workers: self.workers + 1 }
        } else {
            self
        }
    }

    /// An admission gate after a worker has finished.
    pub open spec fn left(self) -> GateState {
        if self.workers > 0 {
            GateState { limit: self.limit, own: self.own, workers: (self.workers - 1) as nat }
        } else {
            self
        }
    }

    /// An admission gate after `n` connections have come in a row while no
    /// worker finished.
    pub open spec fn after_arrivals(self, n: nat) -> GateState
        decreases n,
    {
        if n == 0 {
            self
        } else {
            self.after_arrivals((n - 1) as nat).arrived()
        }
    }

    /// How many of `n` connections that come in a row, while no worker
    /// finishes, are turned away.
    pub open spec fn refused_of(self, n: nat) -> nat
        decreases n,
    {
        if n == 0 {
            0
        } else if self.after_arrivals((n - 1) as nat).admits() {
            self.refused_of((n - 1) as nat)
        } else {
            self.refused_of((n - 1) as nat) + 1
        }
    }
}

/// The admission gate of a dispatcher.
pub struct AdmissionGate {
    limit: usize,
    own: usize,
    workers: usize,
}

impl View for AdmissionGate {
    type V = GateState;

    closed spec fn view(&self) -> GateState {
        GateState { limit: self.limit as nat, own: self.own as nat, workers: self.workers as nat }
    }
}

impl AdmissionGate {
    /// There are never more workers than can serve at once, and their
    /// number can be counted.
    #[verifier::type_invariant]
    pub closed spec fn wf(&self) -> bool {
        &&& self.workers <= self@.capacity()
        &&& self.own >= 1 || self.limit < usize::MAX
    }

    /// A gate with the given limit and no worker, where the dispatcher's own
    /// reference counts as one: at most `max_threads_number` workers serve
    /// at once.
    pub fn new(max_threads_number: usize) -> (gate: Self)
        ensures
            gate@ == GateState::idle(max_threads_number as nat),
    {
        AdmissionGate { limit: max_threads_number, own: 1, workers: 0 }
    }

    /// A gate with the given limit and no worker, where the dispatcher's own
    /// references count as `own`. With none, `max_threads_number + 1`
    /// workers serve at once, which must be a number that can be counted.
    pub fn with_own_references(max_threads_number: usize, own: usize) -> (gate: Self)
        requires
            own >= 1 || max_threads_number < usize::MAX,
        ensures
            gate@ == (GateState { limit: max_threads_number as nat, own: own as nat, workers: 0 }),
    {
        AdmissionGate { limit: max_threads_number, own, workers: 0 }
    }

    /// Whether a connection that comes now is admitted.
    pub fn admits(&self) -> (admitted: bool)
        ensures
            admitted == self@.admits(),
            self@.workers <= self@.capacity(),
    {
        proof {
            use_type_invariant(self);
        }
        self.own <= self.limit && self.workers <= self.limit - self.own
    }

    /// Takes note of a connection that has come, and says whether it is admitted.
    pub fn arrive(&mut self) -> (admitted: bool)
        ensures
            admitted == old(self)@.admits(),
            final(self)@ == old(self)@.arrived(),
    {
        proof {
            use_type_invariant(&*self);
        }
        if self.own <= self.limit && self.workers <= self.limit - self.own {
            self.workers = self.workers + 1;
            true
        } else {
            false
        }
    }

    /// Takes note of a worker that has finished.
    pub fn leave(&mut self)
        ensures
            final(self)@ == old(self)@.left(),
    {
        proof {
            use_type_invariant(&*self);
        }
        if self.workers > 0 {
            self.workers = self.workers - 1;
        }
    }
}

/// Of connections that come in a row while no worker finishes, a gate
/// without workers admits as many as can be served at once, and turns away
/// all that come after them.
pub proof fn lemma_burst(gate: GateState, n: nat)
    requires
        gate.workers == 0,
    ensures
        gate.after_arrivals(n).workers == if n <= gate.capacity() {
            n
        } else {
            gate.capacity()
        },
        gate.after_arrivals(n).limit == gate.limit,
        gate.after_arrivals(n).own == gate.own,
        gate.refused_of(n) == if n <= gate.capacity() {
            0
        } else {
            n - gate.capacity()
        },
    decreases n,
{
    if n > 0 {
        lemma_burst(gate, (n - 1) as nat);
    }
}

/// With a limit of `limit`, where the dispatcher's own reference counts as
/// one, of `limit + 1` connections that come at once exactly one is turned
/// away, and the admitted ones are all still being served.
pub proof fn lemma_one_too_many(limit: nat)
    ensures
        GateState::idle(limit).capacity() == limit,
        GateState::idle(limit).refused_of(limit + 1) == 1,
        GateState::idle(limit).after_arrivals(limit + 1).workers == limit,
        !GateState::idle(limit).after_arrivals(limit + 1).admits(),
{
    lemma_burst(GateState::idle(limit), limit + 1);
}

/// Where the dispatcher's own references count at all, of `limit + 1`
/// connections that come at once at least one is turned away.
pub proof fn lemma_over_the_limit(gate: GateState)
    requires
        gate.workers == 0,
        gate.own >= 1,
    ensures
        gate.refused_of(gate.limit + 1) >= 1,
{
    lemma_burst(gate, gate.limit + 1);
}

/// A worker that finishes at a gate that admits nobody frees room for
/// exactly one connection: the next one is admitted, the one after it is not.
pub proof fn lemma_release_frees_one(gate: GateState)
    requires
        gate.workers <= gate.capacity(),
        gate.workers > 0,
        !gate.admits(),
    ensures
        gate.left().admits(),
        !gate.left().arrived().admits(),
        gate.left().arrived() == gate,
{
}

} // verus!
