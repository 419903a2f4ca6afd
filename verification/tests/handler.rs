use echo_server::handler::{Action, Event, Handler};
use echo_server::request::{Method, ParsedRequest};
use echo_server::response::ResponseSpec;

fn request(method: Method, path: &str, query: Option<&str>, body: &[u8]) -> ParsedRequest {
    ParsedRequest::new(method, path.to_string(), query.map(|q| q.to_string()), body.to_vec())
}

fn written(action: Action) -> ResponseSpec {
    match action {
        Action::Write(response) => response,
        _ => panic!("the action is not to write"),
    }
}

fn reading() -> Handler {
    let (handler, action) = Handler::new().step(Event::Continue);
    assert!(matches!(handler, Handler::Reading));
    assert!(matches!(action, Action::Read));
    handler
}

fn routing(request: ParsedRequest) -> Handler {
    let (handler, action) = reading().step(Event::Request(request));
    assert!(matches!(handler, Handler::Routing(_)));
    assert!(matches!(action, Action::Route));
    handler
}

fn writing() -> Handler {
    let (handler, action) = reading().step(Event::ClientError);
    assert!(matches!(handler, Handler::Writing));
    assert!(matches!(action, Action::Write(_)));
    handler
}

fn events() -> Vec<Event> {
    vec![
        Event::Continue,
        Event::Request(request(Method::Get, "/echo", None, b"")),
        Event::ClientError,
        Event::TransportError,
        Event::Written,
    ]
}

#[test]
fn a_new_handler_is_accepted() {
    let handler = Handler::new();
    assert!(matches!(handler, Handler::Accepted));
    assert!(!handler.is_closed());
}

#[test]
fn an_undisturbed_cycle_passes_all_phases() {
    let handler = Handler::new();
    let (handler, action) = handler.step(Event::Continue);
    assert!(matches!(handler, Handler::Reading));
    assert!(matches!(action, Action::Read));
    let (handler, action) = handler.step(Event::Request(request(Method::Post, "/echo", None, b"hello world")));
    assert!(matches!(handler, Handler::Routing(_)));
    assert!(matches!(action, Action::Route));
    let (handler, action) = handler.step(Event::Continue);
    assert!(matches!(handler, Handler::Writing));
    let response = written(action);
    assert_eq!(response.status.code(), 200);
    assert_eq!(response.body, b"hello world");
    assert_eq!(response.headers.get(b"Content-Length").unwrap(), b"11");
    assert_eq!(response.headers.get(b"Connection").unwrap(), b"close");
    assert!(!handler.is_closed());
    let (handler, action) = handler.step(Event::Written);
    assert!(handler.is_closed());
    assert!(matches!(action, Action::Close));
}

#[test]
fn the_routed_response_is_what_is_written() {
    let (_, action) = routing(request(Method::Get, "/echo", Some("msg=hi%20there"), b"")).step(Event::Continue);
    assert_eq!(written(action).body, b"hi there");
    let (_, action) = routing(request(Method::Other, "/echo", None, b"")).step(Event::Continue);
    let response = written(action);
    assert_eq!(response.status.code(), 404);
    assert_eq!(response.body, b"Not Found");
}

#[test]
fn a_body_that_cannot_be_read_is_a_bad_request() {
    let (handler, action) = reading().step(Event::ClientError);
    assert!(matches!(handler, Handler::Writing));
    let response = written(action);
    assert_eq!(response.status.code(), 400);
    assert_eq!(response.body, b"Bad Request");
    assert_eq!(response.headers.get(b"Content-Length").unwrap(), b"11");
    assert_eq!(response.headers.get(b"Connection").unwrap(), b"close");
    let (handler, action) = handler.step(Event::Written);
    assert!(handler.is_closed());
    assert!(matches!(action, Action::Close));
}

#[test]
fn a_transport_error_closes_from_every_phase() {
    let phases = vec![
        Handler::new(),
        reading(),
        routing(request(Method::Get, "/echo", None, b"")),
        writing(),
        Handler::Closed,
    ];
    for phase in phases {
        let (handler, action) = phase.step(Event::TransportError);
        assert!(handler.is_closed());
        assert!(matches!(action, Action::Close));
    }
}

#[test]
fn an_event_out_of_turn_closes() {
    for (index, event) in events().into_iter().enumerate() {
        let (handler, action) = Handler::new().step(event);
        assert_eq!(handler.is_closed(), index != 0);
        assert_eq!(matches!(action, Action::Close), index != 0);
    }
    for (index, event) in events().into_iter().enumerate() {
        let (handler, action) = reading().step(event);
        assert_eq!(handler.is_closed(), index != 1 && index != 2);
        assert_eq!(matches!(action, Action::Close), index != 1 && index != 2);
    }
    for (index, event) in events().into_iter().enumerate() {
        let (handler, action) = routing(request(Method::Get, "/echo", None, b"")).step(event);
        assert_eq!(handler.is_closed(), index != 0);
        assert_eq!(matches!(action, Action::Close), index != 0);
    }
    for (index, event) in events().into_iter().enumerate() {
        let (handler, action) = writing().step(event);
        assert!(handler.is_closed(), "event {}", index);
        assert!(matches!(action, Action::Close));
    }
}

#[test]
fn a_closed_connection_stays_closed() {
    for event in events() {
        let (handler, action) = Handler::Closed.step(event);
        assert!(handler.is_closed());
        assert!(matches!(action, Action::Close));
    }
}

#[test]
fn four_steps_always_close() {
    let starts: Vec<fn() -> Handler> = vec![
        Handler::new,
        reading,
        || routing(request(Method::Get, "/echo", None, b"")),
        writing,
        || Handler::Closed,
    ];
    for start in starts {
        for a in 0..5 {
            for b in 0..5 {
                for c in 0..5 {
                    for d in 0..5 {
                        let mut handler = start();
                        for pick in [a, b, c, d] {
                            let event = events().swap_remove(pick);
                            handler = handler.step(event).0;
                        }
                        assert!(handler.is_closed());
                    }
                }
            }
        }
    }
}

#[test]
fn interleaved_connections_keep_to_their_own_requests() {
    let count = 16;
    let bodies: Vec<Vec<u8>> = (0..count).map(|n| format!("body of connection {}", n).into_bytes()).collect();
    let mut handlers: Vec<Option<Handler>> = (0..count).map(|_| Some(Handler::new())).collect();
    let mut answers: Vec<Option<ResponseSpec>> = (0..count).map(|_| None).collect();
    let orders: Vec<Vec<usize>> = vec![
        (0..count).collect(),
        (0..count).rev().collect(),
        (0..count).map(|n| (n * 7 + 3) % count).collect(),
        (0..count).map(|n| (n * 5 + 11) % count).collect(),
    ];
    for (round, order) in orders.iter().enumerate() {
        for &n in order {
            let event = match round {
                0 => Event::Continue,
                1 => Event::Request(request(Method::Post, "/echo", None, &bodies[n])),
                2 => Event::Continue,
                _ => Event::Written,
            };
            let (next, action) = handlers[n].take().unwrap().step(event);
            if let Action::Write(response) = action {
                answers[n] = Some(response);
            }
            handlers[n] = Some(next);
        }
    }
    for n in 0..count {
        assert!(handlers[n].as_ref().unwrap().is_closed());
        let response = answers[n].take().unwrap();
        assert_eq!(response.status.code(), 200);
        assert_eq!(response.body, bodies[n]);
        assert_eq!(
            response.headers.get(b"Content-Length").unwrap(),
            &bodies[n].len().to_string().into_bytes()
        );
    }
}
