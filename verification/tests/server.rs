use std::sync::Arc;

use talkback::gate::AdmissionGate;
use talkback::registry::{Registry, Reply, RequestError};
use talkback::request::{Params, ParseError, Request};
use talkback::server::{Directive, Dispatcher, Impulse};

type Job = Box<dyn Fn(&Params, &Vec<String>, &str) -> Reply>;

fn fixed(status: &'static str, body: &'static str) -> Job {
    Box::new(move |_, _, _| {
        let mut headers = Vec::new();
        headers.push(String::from(status));
        headers.push(String::from("Content-type: text/html; charset=utf-8"));
        headers.push(format!("Content-length: {}", body.len()));
        (headers, String::from(body))
    })
}

fn echo() -> Job {
    Box::new(|_, _, body| (vec![String::from("HTTP/1.1 200 OK")], String::from(body)))
}

/// What a worker reads from a connection: the request in a buffer of zeros.
fn read(request: &[u8]) -> [u8; 1024] {
    let mut buffer = [0; 1024];
    buffer[..request.len()].copy_from_slice(request);
    buffer
}

fn body_of(response: &str) -> &str {
    match response.find("\r\n\r\n") {
        Some(at) => &response[at + 4..],
        None => panic!("no blank line in {:?}", response),
    }
}

fn status_of(response: &str) -> &str {
    match response.find("\r\n") {
        Some(at) => &response[..at],
        None => panic!("no line break in {:?}", response),
    }
}

fn register(dispatcher: &mut Dispatcher<Job>, method: &str, path: &str, job: Job) {
    let directive =
        dispatcher.process::<u32>(Impulse::Handler(String::from(method), String::from(path), job));
    assert!(matches!(directive, Directive::Wait));
}

fn register_fallback(dispatcher: &mut Dispatcher<Job>, error: RequestError, job: Job) {
    let directive = dispatcher.process::<u32>(Impulse::ErrorHandler(error, job));
    assert!(matches!(directive, Directive::Wait));
}

/// A connection comes. Where it is admitted, the worker's response to
/// `request`; where it is not, the response that turns it away.
fn connect(dispatcher: &mut Dispatcher<Job>, connection: u32, request: &[u8]) -> (bool, String) {
    match dispatcher.process(Impulse::Request(connection)) {
        Directive::Serve(served, registry) => {
            assert_eq!(served, connection);
            (true, registry.respond(&read(request)))
        }
        Directive::Refuse(refused, response) => {
            assert_eq!(refused, connection);
            (false, response)
        }
        _ => panic!("a connection is served or refused"),
    }
}

fn finish(dispatcher: &mut Dispatcher<Job>) {
    assert!(matches!(dispatcher.process::<u32>(Impulse::Finished), Directive::Wait));
}

#[test]
fn start_server() {
    let mut server: Dispatcher<Job> = Dispatcher::new(2);

    register_fallback(
        &mut server,
        RequestError::NotFound,
        fixed("HTTP/1.1 404 Not Found", "<h1>404</h1>"),
    );
    register_fallback(
        &mut server,
        RequestError::BadRequest,
        fixed("HTTP/1.1 400 Bad Request", "<h1>400</h1>"),
    );
    register_fallback(
        &mut server,
        RequestError::ServiceUnavailable,
        fixed("HTTP/1.1 503 Service Unavailable", "<h1>503</h1>"),
    );
    register(&mut server, "GET", "/hello.html", fixed("HTTP/1.1 200 OK", "<h1>Welcome</h1>"));
    register(&mut server, "GET", "/highload.html", fixed("HTTP/1.1 200 OK", "DONE!"));

    // hello endpoint
    let (served, response) = connect(&mut server, 1, b"GET /hello.html HTTP/1.1");
    assert!(served);
    assert_ne!(response.find("Welcome"), None);
    finish(&mut server);

    // 404 endpoint
    let (served, response) = connect(&mut server, 2, b"GET /asdasd.html HTTP/1.1");
    assert!(served);
    assert_ne!(response.find("Not Found"), None);
    finish(&mut server);

    // two connections that stay busy
    let (first, first_response) = connect(&mut server, 3, b"GET /highload.html HTTP/1.1");
    let (second, second_response) = connect(&mut server, 4, b"GET /highload.html HTTP/1.1");
    assert!(first && second);

    // a third one while they are busy
    let (served, response) = connect(&mut server, 5, b"GET /highload.html HTTP/1.1");
    assert!(!served);
    assert_ne!(response.find("Service Unavailable"), None);

    assert_ne!(first_response.find("DONE"), None);
    assert_ne!(second_response.find("DONE"), None);
}

#[test]
fn hello_endpoint_returns_body() {
    let mut registry: Registry<Job> = Registry::new();
    registry.add_handler(
        "GET",
        "/hello",
        Box::new(|_, _, _| (vec![String::from("HTTP/1.1 200 OK")], String::from("hi"))),
    );

    let response = registry.respond(b"GET /hello HTTP/1.1\r\n\r\n");
    assert_eq!(body_of(&response), "hi");
    assert_eq!(response, "HTTP/1.1 200 OK\r\n\r\nhi");
}

#[test]
fn missing_route_is_not_found() {
    let registry: Registry<Job> = Registry::new();

    let response = registry.respond(b"GET /missing HTTP/1.1\r\n\r\n");
    assert_eq!(status_of(&response), "HTTP/1.1 404 Not Found");
    assert_eq!(response, "HTTP/1.1 404 Not Found\r\n\r\n");
}

#[test]
fn echo_returns_request_body() {
    let mut dispatcher: Dispatcher<Job> = Dispatcher::new(5);
    register(&mut dispatcher, "POST", "/echo", echo());

    let (served, response) = connect(&mut dispatcher, 1, b"POST /echo HTTP/1.1\r\n\r\nx=1");
    assert!(served);
    assert_eq!(body_of(&response), "x=1");
}

#[test]
fn request_goes_to_handler_of_its_method_and_path() {
    let mut registry: Registry<Job> = Registry::new();
    registry.add_handler("GET", "/a", fixed("HTTP/1.1 200 OK", "get a"));
    registry.add_handler("POST", "/a", fixed("HTTP/1.1 200 OK", "post a"));
    registry.add_handler("GET", "/b", fixed("HTTP/1.1 200 OK", "get b"));
    registry.add_handler("GET", "/", fixed("HTTP/1.1 200 OK", "root"));

    assert_eq!(body_of(&registry.respond(b"GET /a HTTP/1.1")), "get a");
    assert_eq!(body_of(&registry.respond(b"POST /a HTTP/1.1")), "post a");
    assert_eq!(body_of(&registry.respond(b"GET /b HTTP/1.1")), "get b");
    assert_eq!(body_of(&registry.respond(b"GET / HTTP/1.1")), "root");
    assert_eq!(body_of(&registry.respond(b"GET /a?x=1 HTTP/1.1")), "get a");

    assert_eq!(status_of(&registry.respond(b"PUT /a HTTP/1.1")), "HTTP/1.1 404 Not Found");
    assert_eq!(status_of(&registry.respond(b"GET /a/ HTTP/1.1")), "HTTP/1.1 404 Not Found");
    assert_eq!(status_of(&registry.respond(b"get /a HTTP/1.1")), "HTTP/1.1 404 Not Found");
    assert_eq!(status_of(&registry.respond(b"GET  /a HTTP/1.1")), "HTTP/1.1 404 Not Found");

    assert!(registry.handler("GET", "/a").is_some());
    assert!(registry.handler("GET", "/c").is_none());
}

#[test]
fn handler_gets_parameters_headers_and_body() {
    let mut registry: Registry<Job> = Registry::new();
    registry.add_handler(
        "POST",
        "/show",
        Box::new(|params, headers, body| {
            let shown = format!(
                "{}|{}|{}|{}",
                params.get("x").unwrap(),
                params.len(),
                headers.join(","),
                body
            );
            (vec![String::from("HTTP/1.1 200 OK")], shown)
        }),
    );

    let response = registry.respond(b"POST /show?x=1&y=2 HTTP/1.1\r\nA: b\r\nC: d\r\n\r\npayload");
    assert_eq!(body_of(&response), "1|2|A: b,C: d|payload");
}

#[test]
fn later_registration_replaces_handler() {
    let mut registry: Registry<Job> = Registry::new();
    registry.add_handler("GET", "/a", fixed("HTTP/1.1 200 OK", "old"));
    registry.add_handler("GET", "/a", fixed("HTTP/1.1 200 OK", "new"));
    assert_eq!(body_of(&registry.respond(b"GET /a HTTP/1.1")), "new");

    registry.add_error_handler(RequestError::NotFound, fixed("HTTP/1.1 404 Not Found", "old"));
    registry.add_error_handler(RequestError::NotFound, fixed("HTTP/1.1 404 Not Found", "new"));
    assert_eq!(body_of(&registry.respond(b"GET /b HTTP/1.1")), "new");
}

#[test]
fn custom_not_found_handler_is_called_with_nothing() {
    let mut registry: Registry<Job> = Registry::new();
    registry.add_error_handler(
        RequestError::NotFound,
        Box::new(|params, headers, body| {
            let seen = format!("{} {} {:?}", params.len(), headers.len(), body);
            (vec![String::from("HTTP/1.1 404 Not Found")], seen)
        }),
    );

    let response = registry.respond(b"GET /missing?x=1 HTTP/1.1\r\nA: b\r\n\r\npayload");
    assert_eq!(response, "HTTP/1.1 404 Not Found\r\n\r\n0 0 \"\"");
    assert!(registry.error_handler(RequestError::NotFound).is_some());
    assert!(registry.error_handler(RequestError::BadRequest).is_none());
}

#[test]
fn undecodable_bytes_get_bad_request() {
    let mut registry: Registry<Job> = Registry::new();
    registry.add_handler("GET", "/", fixed("HTTP/1.1 200 OK", "root"));

    let broken = [b'G', b'E', b'T', b' ', b'/', 0xff, 0xfe];
    assert_eq!(registry.respond(&broken), "HTTP/1.1 400 Bad Request\r\n\r\n");
    assert_eq!(registry.respond(&[0xc3]), "HTTP/1.1 400 Bad Request\r\n\r\n");

    registry.add_error_handler(RequestError::BadRequest, fixed("HTTP/1.1 400 Bad Request", "bad"));
    assert_eq!(body_of(&registry.respond(&broken)), "bad");
    assert_eq!(status_of(&registry.respond(&broken)), "HTTP/1.1 400 Bad Request");
}

#[test]
fn answer_takes_the_outcome_of_reading() {
    let mut registry: Registry<Job> = Registry::new();
    registry.add_handler("POST", "/echo", echo());

    let read = Request::process(b"POST /echo HTTP/1.1\n\nabc");
    assert_eq!(registry.answer(&read), (vec![String::from("HTTP/1.1 200 OK")], String::from("abc")));

    let unread: Result<Request, ParseError> = Err(ParseError::InvalidUtf8);
    assert_eq!(
        registry.answer(&unread),
        (vec![String::from("HTTP/1.1 400 Bad Request")], String::new())
    );

    let unknown = Request::process(b"GET /echo HTTP/1.1\n\nabc");
    assert_eq!(registry.answer(&unknown), (vec![String::from("HTTP/1.1 404 Not Found")], String::new()));
}

#[test]
fn built_in_replies_have_a_status_line_and_no_body() {
    let registry: Registry<Job> = Registry::new();

    assert_eq!(
        registry.excuse(RequestError::NotFound),
        (vec![String::from("HTTP/1.1 404 Not Found")], String::new())
    );
    assert_eq!(
        registry.excuse(RequestError::BadRequest),
        (vec![String::from("HTTP/1.1 400 Bad Request")], String::new())
    );
    assert_eq!(
        registry.excuse(RequestError::ServiceUnavailable),
        (vec![String::from("HTTP/1.1 503 Service Unavailable")], String::new())
    );
    assert_eq!(registry.refuse(), "HTTP/1.1 503 Service Unavailable\r\n\r\n");
    assert_eq!(RequestError::NotFound.status(), "HTTP/1.1 404 Not Found");
}

#[test]
fn duplicate_registry_shares_handlers() {
    let mut registry: Registry<Job> = Registry::new();
    registry.add_handler("GET", "/a", fixed("HTTP/1.1 200 OK", "a"));
    registry.add_error_handler(RequestError::NotFound, fixed("HTTP/1.1 404 Not Found", "nf"));

    let mut copy = registry.duplicate();
    copy.add_handler("GET", "/b", fixed("HTTP/1.1 200 OK", "b"));

    assert_eq!(body_of(&copy.respond(b"GET /a HTTP/1.1")), "a");
    assert_eq!(body_of(&copy.respond(b"GET /b HTTP/1.1")), "b");
    assert_eq!(body_of(&copy.respond(b"GET /c HTTP/1.1")), "nf");
    assert_eq!(body_of(&registry.respond(b"GET /b HTTP/1.1")), "nf");
}

#[test]
fn burst_over_the_limit_is_refused() {
    let limit = 3;
    let mut dispatcher: Dispatcher<Job> = Dispatcher::new(limit);
    register(&mut dispatcher, "GET", "/wait", fixed("HTTP/1.1 200 OK", "waited"));

    let mut refused = 0;
    for connection in 0..(limit as u32 + 1) {
        let (served, response) = connect(&mut dispatcher, connection, b"GET /wait HTTP/1.1");
        if served {
            assert_eq!(body_of(&response), "waited");
        } else {
            assert_eq!(response, "HTTP/1.1 503 Service Unavailable\r\n\r\n");
            refused += 1;
        }
    }
    assert_eq!(refused, 1);

    // still full
    assert!(!connect(&mut dispatcher, 10, b"GET /wait HTTP/1.1").0);

    // one worker finishes: room for exactly one
    finish(&mut dispatcher);
    assert!(connect(&mut dispatcher, 11, b"GET /wait HTTP/1.1").0);
    assert!(!connect(&mut dispatcher, 12, b"GET /wait HTTP/1.1").0);
}

#[test]
fn refusal_uses_the_registered_handler() {
    let mut dispatcher: Dispatcher<Job> = Dispatcher::new(0);
    assert_eq!(
        connect(&mut dispatcher, 1, b"GET / HTTP/1.1"),
        (false, String::from("HTTP/1.1 503 Service Unavailable\r\n\r\n"))
    );

    register_fallback(
        &mut dispatcher,
        RequestError::ServiceUnavailable,
        fixed("HTTP/1.1 503 Service Unavailable", "busy"),
    );
    let (served, response) = connect(&mut dispatcher, 2, b"GET / HTTP/1.1");
    assert!(!served);
    assert_eq!(
        response,
        "HTTP/1.1 503 Service Unavailable\r\nContent-type: text/html; charset=utf-8\r\nContent-length: 4\r\n\r\nbusy"
    );
}

#[test]
fn snapshot_holds_what_was_registered_before_the_connection() {
    let mut dispatcher: Dispatcher<Job> = Dispatcher::new(5);
    register(&mut dispatcher, "GET", "/early", fixed("HTTP/1.1 200 OK", "early"));

    let snapshot: Arc<Registry<Job>> = match dispatcher.process(Impulse::Request(1u32)) {
        Directive::Serve(_, registry) => registry,
        _ => panic!("the connection is admitted"),
    };
    register(&mut dispatcher, "GET", "/late", fixed("HTTP/1.1 200 OK", "late"));

    assert_eq!(body_of(&snapshot.respond(b"GET /early HTTP/1.1")), "early");
    assert_eq!(status_of(&snapshot.respond(b"GET /late HTTP/1.1")), "HTTP/1.1 404 Not Found");

    let now = dispatcher.snapshot();
    assert_eq!(body_of(&now.respond(b"GET /early HTTP/1.1")), "early");
    assert_eq!(body_of(&now.respond(b"GET /late HTTP/1.1")), "late");
}

#[test]
fn nothing_is_taken_up_after_shutdown() {
    let mut dispatcher: Dispatcher<Job> = Dispatcher::new(1);
    register(&mut dispatcher, "GET", "/", fixed("HTTP/1.1 200 OK", "root"));
    assert!(matches!(dispatcher.process::<u32>(Impulse::Finished), Directive::Wait));

    assert!(matches!(dispatcher.process::<u32>(Impulse::Shutdown), Directive::Stop));

    assert!(matches!(dispatcher.process(Impulse::Request(1u32)), Directive::Stop));
    assert!(matches!(dispatcher.process::<u32>(Impulse::Finished), Directive::Stop));
    assert!(matches!(dispatcher.process::<u32>(Impulse::Shutdown), Directive::Stop));
    assert!(matches!(
        dispatcher.process::<u32>(Impulse::Handler(
            String::from("GET"),
            String::from("/late"),
            fixed("HTTP/1.1 200 OK", "late")
        )),
        Directive::Stop
    ));
    assert_eq!(
        status_of(&dispatcher.snapshot().respond(b"GET /late HTTP/1.1")),
        "HTTP/1.1 404 Not Found"
    );
    assert_eq!(body_of(&dispatcher.snapshot().respond(b"GET / HTTP/1.1")), "root");
}

#[test]
fn gate_counts_its_own_reference() {
    let mut gate = AdmissionGate::new(2);
    assert!(gate.admits());
    assert!(gate.arrive());
    assert!(gate.admits());
    assert!(gate.arrive());
    assert!(!gate.admits());
    assert!(!gate.arrive());

    gate.leave();
    assert!(gate.admits());
    assert!(gate.arrive());
    assert!(!gate.arrive());

    gate.leave();
    gate.leave();
    gate.leave();
    gate.leave();
    assert!(gate.arrive());
    assert!(gate.arrive());
    assert!(!gate.arrive());
}

#[test]
fn gate_with_limit_zero_admits_nobody() {
    let mut gate = AdmissionGate::new(0);
    assert!(!gate.admits());
    assert!(!gate.arrive());
    gate.leave();
    assert!(!gate.arrive());

    let mut one = AdmissionGate::new(1);
    assert!(one.arrive());
    assert!(!one.arrive());
}

#[test]
fn own_references_shift_the_cap() {
    let mut none = AdmissionGate::with_own_references(2, 0);
    assert!(none.arrive());
    assert!(none.arrive());
    assert!(none.arrive());
    assert!(!none.arrive());

    let mut one = AdmissionGate::with_own_references(2, 1);
    assert!(one.arrive());
    assert!(one.arrive());
    assert!(!one.arrive());

    let mut two = AdmissionGate::with_own_references(2, 2);
    assert!(two.arrive());
    assert!(!two.arrive());

    let mut three = AdmissionGate::with_own_references(2, 3);
    assert!(!three.admits());
    assert!(!three.arrive());

    let mut widest = AdmissionGate::with_own_references(usize::MAX, usize::MAX);
    assert!(widest.arrive());
    assert!(!widest.arrive());
}

#[test]
fn dispatcher_admits_through_the_given_gate() {
    let gate = AdmissionGate::with_own_references(1, 0);
    let mut dispatcher: Dispatcher<Job> = Dispatcher::with_gate(gate);
    register(&mut dispatcher, "GET", "/", fixed("HTTP/1.1 200 OK", "root"));

    assert!(connect(&mut dispatcher, 1, b"GET / HTTP/1.1").0);
    assert!(connect(&mut dispatcher, 2, b"GET / HTTP/1.1").0);
    assert!(!connect(&mut dispatcher, 3, b"GET / HTTP/1.1").0);
    finish(&mut dispatcher);
    assert!(connect(&mut dispatcher, 4, b"GET / HTTP/1.1").0);
}
