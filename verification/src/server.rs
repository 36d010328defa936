//! The dispatcher: the one place where handlers are registered and where it
//! is decided whether a connection is served.

use crate::gate::{lemma_burst, lemma_release_frees_one, AdmissionGate, GateState};
use crate::registry::{total, Handler, Registry, RequestError, Routing};
use crate::table::share;
use std::sync::Arc;
use vstd::prelude::*;

verus! {

/// What can reach the dispatcher. `C` is the connection, which the
/// dispatcher hands on and never looks into.
pub enum Impulse<H, C> {
    /// Register a handler for a method and a path.
    Handler(String, String, H),
    /// Register a handler for an error.
    ErrorHandler(RequestError, H),
    /// A connection has come.
    Request(C),
    /// A worker has finished with its connection.
    Finished,
    /// Stop.
    Shutdown,
}

impl<H: Handler, C> Impulse<H, C> {
    /// A handler that is to be registered can be called on every request.
    pub open spec fn acceptable(self) -> bool {
        match self {
            Impulse::Handler(_, _, handler) => total(handler),
            Impulse::ErrorHandler(_, handler) => total(handler),
            _ => true,
        }
    }
}

/// What the dispatcher asks for in answer to an impulse.
pub enum Directive<H: Handler, C> {
    /// Nothing: wait for the next impulse.
    Wait,
    /// Start a worker that serves the connection from this snapshot of the
    /// registry, and send `Finished` when it is done.
    Serve(C, Arc<Registry<H>>),
    /// Write this response on the connection and close it.
    Refuse(C, String),
    /// Stop the loop; what is still waiting is dropped.
    Stop,
}

/// What a dispatcher holds.
pub struct DispatcherView<H> {
    pub routing: Routing<H>,
    pub gate: GateState,
    /// Whether it has been told to stop.
    pub stopped: bool,
}

impl<H: Handler> DispatcherView<H> {
    /// The dispatcher after an impulse. Once it has been told to stop,
    /// nothing changes it any more.
    pub open spec fn after<C>(self, impulse: Impulse<H, C>) -> Self {
        if self.stopped {
            self
        } else {
            match impulse {
                Impulse::Handler(method, path, handler) => DispatcherView {
                    routing: self.routing.with_route(method@, path@, handler),
                    ..self
                },
                Impulse::ErrorHandler(error, handler) => DispatcherView {
                    routing: self.routing.with_fallback(error, handler),
                    ..self
                },
                Impulse::Request(_) => DispatcherView { gate: self.gate.arrived(), ..self },
                Impulse::Finished => DispatcherView { gate: self.gate.left(), ..self },
                Impulse::Shutdown => DispatcherView { stopped: true, ..self },
            }
        }
    }

    /// `directive` is what the dispatcher asks for in answer to `impulse`.
    ///
    /// A connection that is admitted is served from the registry as it
    /// is at that moment; one that is not admitted is turned away with
    /// the answer to `ServiceUnavailable`. Once the dispatcher has been told
    /// to stop, it answers every impulse with `Stop`.
    pub open spec fn directs<C>(self, impulse: Impulse<H, C>, directive: Directive<H, C>) -> bool {
        if self.stopped {
            directive is Stop
        } else {
            match impulse {
                Impulse::Request(connection) => if self.gate.admits() {
                    &&& directive matches Directive::Serve(served, snapshot)
                    &&& served == connection
                    &&& snapshot@ == self.routing
                } else {
                    &&& directive matches Directive::Refuse(refused, text)
                    &&& refused == connection
                    &&& self.routing.refuses(text@)
                },
                Impulse::Shutdown => directive is Stop,
                _ => directive is Wait,
            }
        }
    }

    /// The dispatcher after the connections have come one after the other
    /// while no worker finished.
    pub open spec fn after_connections<C>(self, connections: Seq<C>) -> Self
        decreases connections.len(),
    {
        if connections.len() == 0 {
            self
        } else {
            self.after_connections(connections.drop_last()).after(
                Impulse::<H, C>::Request(connections.last()),
            )
        }
    }
}

/// Connections change nothing in the registry, and the admission gate counts
/// each of them.
pub proof fn lemma_connections_are_counted<H: Handler, C>(state: DispatcherView<H>, connections: Seq<C>)
    requires
        !state.stopped,
    ensures
        state.after_connections(connections).routing == state.routing,
        state.after_connections(connections).gate == state.gate.after_arrivals(connections.len()),
        !state.after_connections(connections).stopped,
    decreases connections.len(),
{
    if connections.len() > 0 {
        lemma_connections_are_counted(state, connections.drop_last());
    }
}

/// With a limit of `limit`, the connection that comes when `limit` others
/// have come and none of their workers has finished is turned away, with
/// the answer to `ServiceUnavailable`; the others are still being served.
pub proof fn lemma_one_too_many_is_refused<H: Handler, C>(
    state: DispatcherView<H>,
    limit: nat,
    connections: Seq<C>,
    late: C,
    directive: Directive<H, C>,
)
    requires
        !state.stopped,
        state.gate == GateState::idle(limit),
        connections.len() == limit,
        state.after_connections(connections).directs(Impulse::Request(late), directive),
    ensures
        state.after_connections(connections).gate.workers == limit,
        directive matches Directive::Refuse(refused, text) && refused == late && state.routing.refuses(
            text@,
        ),
        state.after_connections(connections).after(Impulse::<H, C>::Request(late))
            == state.after_connections(connections),
{
    lemma_connections_are_counted(state, connections);
    lemma_burst(state.gate, limit);
}

/// When nobody is admitted and a worker finishes, the next connection is
/// served and the one after it is turned away.
pub proof fn lemma_finished_worker_frees_one<H: Handler, C>(
    state: DispatcherView<H>,
    next: C,
    served: Directive<H, C>,
    late: C,
    refused: Directive<H, C>,
)
    requires
        !state.stopped,
        state.gate.workers <= state.gate.capacity(),
        state.gate.workers > 0,
        !state.gate.admits(),
        state.after(Impulse::<H, C>::Finished).directs(Impulse::Request(next), served),
        state.after(Impulse::<H, C>::Finished).after(Impulse::<H, C>::Request(next)).directs(
            Impulse::Request(late),
            refused,
        ),
    ensures
        served is Serve,
        refused is Refuse,
{
    lemma_release_frees_one(state.gate);
}

/// A handler that is registered before a connection comes is in the
/// registry that the connection is served from.
pub proof fn lemma_registered_before_is_served<H: Handler, C>(
    state: DispatcherView<H>,
    method: String,
    path: String,
    handler: H,
    connection: C,
    directive: Directive<H, C>,
)
    requires
        !state.stopped,
        state.gate.admits(),
        state.after(Impulse::<H, C>::Handler(method, path, handler)).directs(
            Impulse::Request(connection),
            directive,
        ),
    ensures
        directive matches Directive::Serve(_, snapshot) && snapshot@.route(method@, path@) == Some(
            handler,
        ),
{
}

/// Once the dispatcher has been told to stop, it takes up nothing more:
/// whatever comes is answered with `Stop` and changes nothing.
pub proof fn lemma_stopped_stays_stopped<H: Handler, C>(
    state: DispatcherView<H>,
    impulse: Impulse<H, C>,
    directive: Directive<H, C>,
)
    requires
        state.after(Impulse::<H, C>::Shutdown).directs(impulse, directive),
    ensures
        directive is Stop,
        state.after(Impulse::<H, C>::Shutdown).after(impulse) == state.after(Impulse::<H, C>::Shutdown),
{
}

/// The dispatcher: the registry and the admission gate.
pub struct Dispatcher<H: Handler> {
    registry: Arc<Registry<H>>,
    gate: AdmissionGate,
    stopped: bool,
}

impl<H: Handler> View for Dispatcher<H> {
    type V = DispatcherView<H>;

    closed spec fn view(&self) -> DispatcherView<H> {
        DispatcherView { routing: self.registry@, gate: self.gate@, stopped: self.stopped }
    }
}

impl<H: Handler> Dispatcher<H> {
    /// A dispatcher without handlers, whose gate has the given limit and
    /// counts the dispatcher's own reference as one.
    pub fn new(max_threads_number: usize) -> (dispatcher: Self)
        ensures
            dispatcher@.routing.routes == Map::<Seq<char>, H>::empty(),
            dispatcher@.routing.fallbacks == Map::<RequestError, H>::empty(),
            dispatcher@.gate == GateState::idle(max_threads_number as nat),
            !dispatcher@.stopped,
    {
        Dispatcher {
            registry: Arc::new(Registry::new()),
            gate: AdmissionGate::new(max_threads_number),
            stopped: false,
        }
    }

    /// A dispatcher without handlers that admits connections through `gate`.
    pub fn with_gate(gate: AdmissionGate) -> (dispatcher: Self)
        ensures
            dispatcher@.routing.routes == Map::<Seq<char>, H>::empty(),
            dispatcher@.routing.fallbacks == Map::<RequestError, H>::empty(),
            dispatcher@.gate == gate@,
            !dispatcher@.stopped,
    {
        Dispatcher { registry: Arc::new(Registry::new()), gate, stopped: false }
    }

    /// The registry as it is now, shared.
    pub fn snapshot(&self) -> (snapshot: Arc<Registry<H>>)
        ensures
            snapshot@ == self@.routing,
    {
        share(&self.registry)
    }

    /// Takes one impulse and says what is to be done.
    pub fn process<C>(&mut self, impulse: Impulse<H, C>) -> (directive: Directive<H, C>)
        requires
            impulse.acceptable(),
        ensures
            final(self)@ == old(self)@.after(impulse),
            old(self)@.directs(impulse, directive),
    {
        if self.stopped {
            return Directive::Stop;
        }
        match impulse {
            Impulse::Handler(method, path, handler) => {
                let mut next = self.registry.duplicate();
                next.add_handler(method.as_str(), path.as_str(), handler);
                self.registry = Arc::new(next);
                Directive::Wait
            },
            Impulse::ErrorHandler(error, handler) => {
                let mut next = self.registry.duplicate();
                next.add_error_handler(error, handler);
                self.registry = Arc::new(next);
                Directive::Wait
            },
            Impulse::Request(connection) => {
                if self.gate.arrive() {
                    Directive::Serve(connection, share(&self.registry))
                } else {
                    Directive::Refuse(connection, self.registry.refuse())
                }
            },
            Impulse::Finished => {
                self.gate.leave();
                Directive::Wait
            },
            Impulse::Shutdown => {
                self.stopped = true;
                Directive::Stop
            },
        }
    }
}

} // verus!
