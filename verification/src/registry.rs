//! The registry: which handler answers which request.

use crate::request::{
    lemma_request_words, request_in, request_of, ParseError, Params, Request, RequestView,
};
use crate::response::{response_text, Response};
use crate::table::{share, Table};
use std::sync::Arc;
use vstd::prelude::*;
use vstd::utf8::valid_utf8;

verus! {

/// The errors that the engine answers by itself.
#[derive(Debug, Clone, Copy, PartialEq, Eq, Hash, Structural)]
pub enum RequestError {
    NotFound,
    BadRequest,
    ServiceUnavailable,
}

impl RequestError {
    /// The status line of the answer that the engine gives to this error
    /// where no handler is registered for it.
    pub open spec fn status_line(self) -> Seq<char> {
        match self {
            RequestError::NotFound => "HTTP/1.1 404 Not Found"@,
            RequestError::BadRequest => "HTTP/1.1 400 Bad Request"@,
            RequestError::ServiceUnavailable => "HTTP/1.1 503 Service Unavailable"@,
        }
    }

    /// The status line of the built-in answer to this error.
    pub fn status(self) -> (line: &'static str)
        ensures
            line@ == self.status_line(),
    {
        match self {
            RequestError::NotFound => "HTTP/1.1 404 Not Found",
            RequestError::BadRequest => "HTTP/1.1 400 Bad Request",
            RequestError::ServiceUnavailable => "HTTP/1.1 503 Service Unavailable",
        }
    }
}

/// What a handler returns: the header lines, the status line first, and the body.
pub type Reply = (Vec<String>, String);

/// A handler: a callback from the query parameters, the header lines and the
/// body of a request to a reply. Every function and closure of that shape is one.
pub trait Handler: Fn(&Params, &Vec<String>, &str) -> Reply {

}

impl<F: Fn(&Params, &Vec<String>, &str) -> Reply> Handler for F {

}

/// The handler can be called on every request.
pub open spec fn total<H: Handler>(handler: H) -> bool {
    forall|params: &Params, headers: &Vec<String>, body: &str| #[trigger]
        call_requires(handler, (params, headers, body))
}

/// The key under which the handler for a method and a path is kept: the
/// method, a space, the path.
pub open spec fn route_key(method: Seq<char>, path: Seq<char>) -> Seq<char> {
    method + seq![' '] + path
}

/// What is handed to a handler.
pub struct Context {
    pub params: Map<Seq<char>, Seq<char>>,
    pub headers: Seq<Seq<char>>,
    pub body: Seq<char>,
}

/// The context that the handlers for errors are called with: nothing.
pub open spec fn empty_context() -> Context {
    Context { params: Map::empty(), headers: Seq::empty(), body: Seq::empty() }
}

/// The reply of the engine itself to an error: its status line and no body.
pub open spec fn builtin_reply(error: RequestError) -> (Seq<Seq<char>>, Seq<char>) {
    (seq![error.status_line()], Seq::empty())
}

/// `reply` is something that `handler` may return when it is called with `context`.
pub open spec fn produces<H: Handler>(
    handler: H,
    context: Context,
    reply: (Seq<Seq<char>>, Seq<char>),
) -> bool {
    exists|params: Params, headers: Vec<String>, body: &str, out: Reply|
        {
            &&& params@ == context.params
            &&& headers.deep_view() == context.headers
            &&& body@ == context.body
            &&& #[trigger] call_ensures(handler, (&params, &headers, body), out)
            &&& out.0.deep_view() == reply.0
            &&& out.1@ == reply.1
        }
}

/// Who answers a request: a registered handler, or the engine itself.
pub enum Answerer<H> {
    Handler(H),
    Builtin(RequestError),
}

/// What a registry holds: the handler for each route key, and the handler for
/// each error that has one.
pub struct Routing<H> {
    pub routes: Map<Seq<char>, H>,
    pub fallbacks: Map<RequestError, H>,
}

impl<H: Handler> Routing<H> {
    /// The handler registered for a method and a path.
    pub open spec fn route(self, method: Seq<char>, path: Seq<char>) -> Option<H> {
        if self.routes.contains_key(route_key(method, path)) {
            Some(self.routes[route_key(method, path)])
        } else {
            None
        }
    }

    /// Who answers an error: the handler registered for it, else the engine.
    pub open spec fn fallback(self, error: RequestError) -> Answerer<H> {
        if self.fallbacks.contains_key(error) {
            Answerer::Handler(self.fallbacks[error])
        } else {
            Answerer::Builtin(error)
        }
    }

    /// Who answers what was read from a connection: for a request, the
    /// handler of its method and path, and whoever answers `NotFound` where
    /// there is none; for bytes that hold no request, whoever answers
    /// `BadRequest`.
    pub open spec fn answerer(self, request: Option<RequestView>) -> Answerer<H> {
        match request {
            Some(r) => match self.route(r.method, r.path) {
                Some(handler) => Answerer::Handler(handler),
                None => self.fallback(RequestError::NotFound),
            },
            None => self.fallback(RequestError::BadRequest),
        }
    }

    /// What the answerer is called with: the request's own parameters,
    /// headers and body where a handler is registered for its method and
    /// path, and nothing in every other case.
    pub open spec fn context(self, request: Option<RequestView>) -> Context {
        match request {
            Some(r) if self.route(r.method, r.path) is Some => Context {
                params: r.params,
                headers: r.headers,
                body: r.body,
            },
            _ => empty_context(),
        }
    }

    /// `reply` is an answer to what was read from a connection.
    pub open spec fn replies(
        self,
        request: Option<RequestView>,
        reply: (Seq<Seq<char>>, Seq<char>),
    ) -> bool {
        match self.answerer(request) {
            Answerer::Handler(handler) => produces(handler, self.context(request), reply),
            Answerer::Builtin(error) => reply == builtin_reply(error),
        }
    }

    /// `reply` is an answer to the error.
    pub open spec fn excuses(self, error: RequestError, reply: (Seq<Seq<char>>, Seq<char>)) -> bool {
        match self.fallback(error) {
            Answerer::Handler(handler) => produces(handler, empty_context(), reply),
            Answerer::Builtin(error) => reply == builtin_reply(error),
        }
    }

    /// `text` is the response to what was read from a connection: an answer
    /// to it, laid out for the wire.
    pub open spec fn responds(self, request: Option<RequestView>, text: Seq<char>) -> bool {
        exists|reply: (Seq<Seq<char>>, Seq<char>)|
            #[trigger] self.replies(request, reply) && text == response_text(reply.0, reply.1)
    }

    /// `text` is the response that turns a connection away: an answer to
    /// `ServiceUnavailable`, laid out for the wire.
    pub open spec fn refuses(self, text: Seq<char>) -> bool {
        exists|reply: (Seq<Seq<char>>, Seq<char>)|
            #[trigger] self.excuses(RequestError::ServiceUnavailable, reply) && text == response_text(
                reply.0,
                reply.1,
            )
    }

    /// With one more handler for a method and a path.
    pub open spec fn with_route(self, method: Seq<char>, path: Seq<char>, handler: H) -> Self {
        Routing {
            routes: self.routes.insert(route_key(method, path), handler),
            fallbacks: self.fallbacks,
        }
    }

    /// With one more handler for an error.
    pub open spec fn with_fallback(self, error: RequestError, handler: H) -> Self {
        Routing { routes: self.routes, fallbacks: self.fallbacks.insert(error, handler) }
    }
}

/// Two route keys are the same only where the methods and the paths are,
/// as long as neither method holds a space.
pub proof fn lemma_route_keys_differ(
    method: Seq<char>,
    path: Seq<char>,
    other_method: Seq<char>,
    other_path: Seq<char>,
)
    requires
        !method.contains(' '),
        !other_method.contains(' '),
        method != other_method || path != other_path,
    ensures
        route_key(method, path) != route_key(other_method, other_path),
{
    let key = route_key(method, path);
    let other = route_key(other_method, other_path);
    if key == other {
        if method.len() < other_method.len() {
            assert(key[method.len() as int] == ' ');
            assert(other[method.len() as int] == other_method[method.len() as int]);
        } else if other_method.len() < method.len() {
            assert(other[other_method.len() as int] == ' ');
            assert(key[other_method.len() as int] == method[other_method.len() as int]);
        } else {
            assert(key.take(method.len() as int) =~= method);
            assert(other.take(method.len() as int) =~= other_method);
            assert(key.skip(method.len() as int + 1) =~= path);
            assert(other.skip(method.len() as int + 1) =~= other_path);
        }
    }
}

/// A request whose method and path have a handler is answered by that
/// handler, which is called with what the request holds.
pub proof fn lemma_registered_route_answers<H: Handler>(routing: Routing<H>, request: RequestView)
    requires
        routing.routes.contains_key(route_key(request.method, request.path)),
    ensures
        routing.answerer(Some(request)) == Answerer::Handler(
            routing.routes[route_key(request.method, request.path)],
        ),
        routing.context(Some(request)) == (Context {
            params: request.params,
            headers: request.headers,
            body: request.body,
        }),
{
}

/// Once a handler is registered for a method and a path, it answers the
/// requests with that method and that path.
pub proof fn lemma_registration_takes_effect<H: Handler>(
    routing: Routing<H>,
    method: Seq<char>,
    path: Seq<char>,
    handler: H,
    request: RequestView,
)
    requires
        request.method == method,
        request.path == path,
    ensures
        routing.with_route(method, path, handler).answerer(Some(request)) == Answerer::Handler(handler),
{
}

/// A handler answers no request but those of its own method and path:
/// registering it for a method without a space changes nothing for the
/// requests read from a connection that have another method or another path.
pub proof fn lemma_registration_leaves_others<H: Handler>(
    routing: Routing<H>,
    method: Seq<char>,
    path: Seq<char>,
    handler: H,
    text: Seq<char>,
)
    requires
        !method.contains(' '),
        request_of(text).method != method || request_of(text).path != path,
    ensures
        routing.with_route(method, path, handler).answerer(Some(request_of(text))) == routing.answerer(
            Some(request_of(text)),
        ),
        routing.with_route(method, path, handler).context(Some(request_of(text))) == routing.context(
            Some(request_of(text)),
        ),
{
    let request = request_of(text);
    lemma_request_words(text);
    lemma_route_keys_differ(request.method, request.path, method, path);
}

/// A request whose method and path have no handler is answered as
/// `NotFound`: by the handler registered for that error, called with
/// nothing, and by the engine's own reply where there is none.
pub proof fn lemma_unregistered_is_not_found<H: Handler>(routing: Routing<H>, request: RequestView)
    requires
        !routing.routes.contains_key(route_key(request.method, request.path)),
    ensures
        routing.answerer(Some(request)) == routing.fallback(RequestError::NotFound),
        routing.context(Some(request)) == empty_context(),
        routing.fallbacks.contains_key(RequestError::NotFound) ==> routing.answerer(Some(request))
            == Answerer::Handler(routing.fallbacks[RequestError::NotFound]),
        !routing.fallbacks.contains_key(RequestError::NotFound) ==> forall|
            reply: (Seq<Seq<char>>, Seq<char>),
        |
            routing.replies(Some(request), reply) <==> reply == builtin_reply(RequestError::NotFound),
{
}

/// Bytes that are not well-formed UTF-8 are answered as `BadRequest`: by the
/// handler registered for that error, called with nothing, and by the
/// engine's own reply where there is none.
pub proof fn lemma_undecodable_is_bad_request<H: Handler>(routing: Routing<H>, buffer: Seq<u8>)
    requires
        !valid_utf8(buffer),
    ensures
        request_in(buffer) is None,
        routing.answerer(request_in(buffer)) == routing.fallback(RequestError::BadRequest),
        routing.context(request_in(buffer)) == empty_context(),
        routing.fallbacks.contains_key(RequestError::BadRequest) ==> routing.answerer(request_in(buffer))
            == Answerer::Handler(routing.fallbacks[RequestError::BadRequest]),
        !routing.fallbacks.contains_key(RequestError::BadRequest) ==> forall|
            reply: (Seq<Seq<char>>, Seq<char>),
        |
            routing.replies(request_in(buffer), reply) <==> reply == builtin_reply(
                RequestError::BadRequest,
            ),
{
}

/// The handlers that the application has registered: one for each method and
/// path at most, and one for each error at most.
pub struct Registry<H: Handler> {
    routes: Table<Arc<H>>,
    not_found: Option<Arc<H>>,
    bad_request: Option<Arc<H>>,
    service_unavailable: Option<Arc<H>>,
}

impl<H: Handler> View for Registry<H> {
    type V = Routing<H>;

    closed spec fn view(&self) -> Routing<H> {
        Routing {
            routes: Map::new(
                |key: Seq<char>| self.routes@.contains_key(key),
                |key: Seq<char>| *self.routes@[key],
            ),
            fallbacks: Map::new(
                |error: RequestError| self.slot(error) is Some,
                |error: RequestError| *self.slot(error)->0,
            ),
        }
    }
}

impl<H: Handler> Registry<H> {
    /// The handler kept for an error.
    spec fn slot(&self, error: RequestError) -> Option<Arc<H>> {
        match error {
            RequestError::NotFound => self.not_found,
            RequestError::BadRequest => self.bad_request,
            RequestError::ServiceUnavailable => self.service_unavailable,
        }
    }

    /// Every handler in the registry can be called on every request.
    #[verifier::type_invariant]
    pub closed spec fn wf(&self) -> bool {
        &&& self.routes.wf()
        &&& forall|i: int|
            0 <= i < self.routes.values().len() ==> total(*#[trigger] self.routes.values()[i])
        &&& self.not_found matches Some(handler) ==> total(*handler)
        &&& self.bad_request matches Some(handler) ==> total(*handler)
        &&& self.service_unavailable matches Some(handler) ==> total(*handler)
    }

    /// In a well-formed registry every handler can be called on every request.
    pub proof fn lemma_total(&self)
        requires
            self.wf(),
        ensures
            forall|key: Seq<char>| #[trigger]
                self@.routes.contains_key(key) ==> total(self@.routes[key]),
            forall|error: RequestError| #[trigger]
                self@.fallbacks.contains_key(error) ==> total(self@.fallbacks[error]),
    {
        self.routes.lemma_view();
        assert forall|key: Seq<char>| #[trigger] self@.routes.contains_key(key) implies total(
            self@.routes[key],
        ) by {
            let i = self.routes.names().index_of(key);
            assert(self.routes.names().contains(key));
            assert(self.routes@[self.routes.names()[i]] == self.routes.values()[i]);
        }
        assert forall|error: RequestError| #[trigger] self@.fallbacks.contains_key(error) implies total(
            self@.fallbacks[error],
        ) by {
            assert(self.slot(error) is Some);
        }
    }

    /// A registry without handlers.
    pub fn new() -> (registry: Self)
        ensures
            registry@.routes == Map::<Seq<char>, H>::empty(),
            registry@.fallbacks == Map::<RequestError, H>::empty(),
    {
        let routes: Table<Arc<H>> = Table::new();
        let registry = Registry {
            routes,
            not_found: None,
            bad_request: None,
            service_unavailable: None,
        };
        assert(registry@.routes =~= Map::<Seq<char>, H>::empty());
        assert(registry@.fallbacks =~= Map::<RequestError, H>::empty()) by {
            assert forall|error: RequestError| !registry@.fallbacks.contains_key(error) by {
                assert(registry.slot(error) is None);
            }
        }
        registry
    }

    /// Registers the handler for a method and a path, in place of the one
    /// that was registered for them before.
    pub fn add_handler(&mut self, method: &str, path: &str, handler: H)
        requires
            total(handler),
        ensures
            final(self)@ == old(self)@.with_route(method@, path@, handler),
    {
        proof {
            use_type_invariant(&*self);
            reveal_strlit(" ");
        }
        assert(" "@ =~= seq![' ']);
        let mut key = String::from_str(method);
        key.append(" ");
        key.append(path);
        let mut routes: Table<Arc<H>> = Table::new();
        core::mem::swap(&mut routes, &mut self.routes);
        let ghost before = routes;
        let shared = Arc::new(handler);
        routes.insert(key, shared);
        proof {
            use_type_invariant(&routes);
            routes.lemma_view();
            before.lemma_view();
            assert forall|i: int| 0 <= i < routes.values().len() implies total(
                *#[trigger] routes.values()[i],
            ) by {
                let name = routes.names()[i];
                assert(routes@[name] == routes.values()[i]);
                if name != key@ {
                    assert(before@.contains_key(name));
                    let k = before.names().index_of(name);
                    assert(before.names().contains(name));
                    assert(before@[before.names()[k]] == before.values()[k]);
                }
            }
        }
        self.routes = routes;
        proof {
            assert(self@.routes =~= old(self)@.routes.insert(route_key(method@, path@), handler));
            assert(self@.fallbacks =~= old(self)@.fallbacks) by {
                assert forall|error: RequestError| self.slot(error) == old(self).slot(error) by {}
            }
        }
    }

    /// Registers the handler for an error, in place of the one that was
    /// registered for it before.
    pub fn add_error_handler(&mut self, error: RequestError, handler: H)
        requires
            total(handler),
        ensures
            final(self)@ == old(self)@.with_fallback(error, handler),
    {
        proof {
            use_type_invariant(&*self);
        }
        let shared = Arc::new(handler);
        match error {
            RequestError::NotFound => {
                self.not_found = Some(shared);
            },
            RequestError::BadRequest => {
                self.bad_request = Some(shared);
            },
            RequestError::ServiceUnavailable => {
                self.service_unavailable = Some(shared);
            },
        }
        proof {
            assert(self@.routes =~= old(self)@.routes);
            assert forall|e: RequestError| #[trigger] self.slot(e) == (if e == error {
                Some(shared)
            } else {
                old(self).slot(e)
            }) by {}
            assert(self@.fallbacks =~= old(self)@.fallbacks.insert(error, handler));
        }
    }

    /// The handler registered for a method and a path.
    pub fn handler(&self, method: &str, path: &str) -> (found: Option<&H>)
        ensures
            match found {
                Some(handler) => self@.route(method@, path@) == Some(*handler) && total(*handler),
                None => self@.route(method@, path@) is None,
            },
    {
        proof {
            use_type_invariant(self);
            self.lemma_total();
            reveal_strlit(" ");
        }
        assert(" "@ =~= seq![' ']);
        let mut key = String::from_str(method);
        key.append(" ");
        key.append(path);
        match self.routes.get(key.as_str()) {
            Some(shared) => {
                let handler: &H = shared;
                Some(handler)
            },
            None => None,
        }
    }

    /// The handler registered for an error.
    pub fn error_handler(&self, error: RequestError) -> (found: Option<&H>)
        ensures
            match found {
                Some(handler) => self@.fallback(error) == Answerer::Handler(*handler) && total(*handler),
                None => self@.fallback(error) == Answerer::<H>::Builtin(error),
            },
    {
        proof {
            use_type_invariant(self);
        }
        let slot = match error {
            RequestError::NotFound => &self.not_found,
            RequestError::BadRequest => &self.bad_request,
            RequestError::ServiceUnavailable => &self.service_unavailable,
        };
        assert(*slot == self.slot(error));
        match slot {
            Some(shared) => {
                let handler: &H = shared;
                Some(handler)
            },
            None => None,
        }
    }

    /// Answers an error: with the handler registered for it, called with
    /// nothing, or with the status line of the error and no body.
    pub fn excuse(&self, error: RequestError) -> (reply: Reply)
        ensures
            self@.excuses(error, (reply.0.deep_view(), reply.1@)),
    {
        match self.error_handler(error) {
            Some(handler) => {
                let params = Params::new();
                let headers: Vec<String> = Vec::new();
                let reply = handler(&params, &headers, "");
                proof {
                    reveal_strlit("");
                    assert(""@ =~= Seq::<char>::empty());
                    assert(headers.deep_view() =~= Seq::<Seq<char>>::empty());
                    assert(call_ensures(*handler, (&params, &headers, ""), reply));
                }
                reply
            },
            None => {
                let mut headers: Vec<String> = Vec::new();
                headers.push(String::from_str(error.status()));
                proof {
                    assert(headers.deep_view() =~= seq![error.status_line()]);
                }
                (headers, String::new())
            },
        }
    }

    /// Answers what was read from a connection.
    ///
    /// A request goes to the handler registered for its method and path,
    /// with its parameters, headers and body. A request for which none is
    /// registered is answered as `NotFound`, bytes that hold no request as
    /// `BadRequest`.
    pub fn answer(&self, outcome: &Result<Request, ParseError>) -> (reply: Reply)
        ensures
            self@.replies(
                match outcome {
                    Ok(request) => Some(request@),
                    Err(_) => None,
                },
                (reply.0.deep_view(), reply.1@),
            ),
    {
        match outcome {
            Ok(request) => {
                match self.handler(request.method.as_str(), request.path.as_str()) {
                    Some(handler) => {
                        let body = request.body.as_str();
                        let reply = handler(&request.params, &request.headers, body);
                        proof {
                            assert(call_ensures(
                                *handler,
                                (&request.params, &request.headers, body),
                                reply,
                            ));
                        }
                        reply
                    },
                    None => self.excuse(RequestError::NotFound),
                }
            },
            Err(_) => self.excuse(RequestError::BadRequest),
        }
    }

    /// The response to the bytes that were read from a connection.
    pub fn respond(&self, buffer: &[u8]) -> (text: String)
        ensures
            self@.responds(request_in(buffer@), text@),
    {
        let outcome = Request::process(buffer);
        let reply = self.answer(&outcome);
        let text = Response::process(&reply.0, reply.1.as_str());
        proof {
            let request = match outcome {
                Ok(request) => Some(request@),
                Err(_) => None,
            };
            assert(request == request_in(buffer@));
            assert(self@.replies(request_in(buffer@), (reply.0.deep_view(), reply.1@)));
        }
        text
    }

    /// The response that turns a connection away.
    pub fn refuse(&self) -> (text: String)
        ensures
            self@.refuses(text@),
    {
        let reply = self.excuse(RequestError::ServiceUnavailable);
        let text = Response::process(&reply.0, reply.1.as_str());
        proof {
            assert(self@.excuses(RequestError::ServiceUnavailable, (reply.0.deep_view(), reply.1@)));
        }
        text
    }

    /// A second registry with the same handlers, shared with this one.
    pub fn duplicate(&self) -> (copy: Self)
        ensures
            copy@ == self@,
    {
        proof {
            use_type_invariant(self);
        }
        let routes = self.routes.duplicate();
        let not_found = match &self.not_found {
            Some(shared) => Some(share(shared)),
            None => None,
        };
        let bad_request = match &self.bad_request {
            Some(shared) => Some(share(shared)),
            None => None,
        };
        let service_unavailable = match &self.service_unavailable {
            Some(shared) => Some(share(shared)),
            None => None,
        };
        let copy = Registry { routes, not_found, bad_request, service_unavailable };
        proof {
            assert(copy@.routes =~= self@.routes);
            assert forall|error: RequestError| #[trigger] copy.slot(error) == self.slot(error) by {}
            assert(copy@.fallbacks =~= self@.fallbacks);
        }
        copy
    }
}

} // verus!
