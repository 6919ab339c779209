use tide::chain::Endpoint;
use tide::chain::Event;
use tide::chain::Middleware;
use tide::message::Method;
use tide::message::RawRequest;
use tide::message::Response;

fn raw_get(path: &[u8]) -> RawRequest {
    RawRequest {
        method: Method::Get,
        path: path.to_vec(),
        headers: Vec::new(),
        body: Vec::new(),
    }
}

#[test]
fn unregistered_path_gives_404() {
    let app = tide::new();
    let mut trace = Vec::new();
    let resp = app.respond(raw_get(b"/missing"), &mut trace);
    assert_eq!(resp.status, 404);
}

#[test]
fn wrong_method_gives_405() {
    let mut app = tide::new();
    let route = app.at(&b"/only-get".to_vec()).get(Endpoint::Fixed {
        status: 200,
        body: Vec::new(),
    });
    app.mount(&route).unwrap();
    let mut trace = Vec::new();
    let raw = RawRequest {
        method: Method::Post,
        path: b"/only-get".to_vec(),
        headers: Vec::new(),
        body: Vec::new(),
    };
    let resp = app.respond(raw, &mut trace);
    assert_eq!(resp.status, 405);
}

#[test]
fn onion_order_pre_and_post_phases() {
    let mut app = tide::new();
    app.with(Middleware::Probe { id: 1 });
    let route = app
        .at(&b"/probe".to_vec())
        .with(Middleware::Probe { id: 2 })
        .get(Endpoint::Probe { id: 3, status: 200, body: Vec::new() });
    app.mount(&route).unwrap();
    let mut trace = Vec::new();
    let resp = app.respond(raw_get(b"/probe"), &mut trace);
    assert_eq!(resp.status, 200);
    assert_eq!(
        trace,
        vec![
            Event::PrePhase(1),
            Event::PrePhase(2),
            Event::EndpointRun(3),
            Event::PostPhase(2),
            Event::PostPhase(1),
        ]
    );
}

#[test]
fn short_circuit_skips_endpoint() {
    let mut app = tide::new();
    app.with(Middleware::Probe { id: 1 });
    app.with(Middleware::Halt { status: 403, body: b"halted".to_vec() });
    let route = app.at(&b"/guarded".to_vec()).get(Endpoint::Probe {
        id: 9,
        status: 200,
        body: Vec::new(),
    });
    app.mount(&route).unwrap();
    let mut trace = Vec::new();
    let resp = app.respond(raw_get(b"/guarded"), &mut trace);
    assert_eq!(resp.status, 403);
    assert_eq!(resp.body, b"halted".to_vec());
    // the endpoint left no side effect: its probe event is absent
    assert!(trace.iter().all(|e| !matches!(e, Event::EndpointRun(_))));
    assert_eq!(trace, vec![Event::PrePhase(1), Event::PostPhase(1)]);
}

#[test]
fn header_guard_lets_marked_requests_through() {
    let mut app = tide::new();
    app.with(Middleware::HeaderGuard { name: b"authorization".to_vec(), status: 401 });
    let route = app.at(&b"/private".to_vec()).get(Endpoint::Fixed {
        status: 200,
        body: b"ok".to_vec(),
    });
    app.mount(&route).unwrap();

    let mut trace = Vec::new();
    let denied = app.respond(raw_get(b"/private"), &mut trace);
    assert_eq!(denied.status, 401);

    let raw = RawRequest {
        method: Method::Get,
        path: b"/private".to_vec(),
        headers: vec![(b"authorization".to_vec(), b"token".to_vec())],
        body: Vec::new(),
    };
    let granted = app.respond(raw, &mut trace);
    assert_eq!(granted.status, 200);
    assert_eq!(granted.body, b"ok".to_vec());
}

#[test]
fn tag_middleware_stamps_response() {
    let mut app = tide::new();
    app.with(Middleware::Tag { name: b"server".to_vec(), value: b"tide".to_vec() });
    let route = app.at(&b"/tagged".to_vec()).get(Endpoint::Fixed {
        status: 200,
        body: Vec::new(),
    });
    app.mount(&route).unwrap();
    let mut trace = Vec::new();
    let resp = app.respond(raw_get(b"/tagged"), &mut trace);
    assert_eq!(resp.headers.len(), 1);
    assert_eq!(resp.headers[0].0, b"server".to_vec());
    assert_eq!(resp.headers[0].1, b"tide".to_vec());
}

#[test]
fn deliberate_failure_keeps_its_status() {
    let mut app = tide::new();
    let route = app.at(&b"/teapot".to_vec()).get(Endpoint::Fail {
        status: 418,
        message: b"short and stout".to_vec(),
    });
    app.mount(&route).unwrap();
    let mut trace = Vec::new();
    let resp = app.respond(raw_get(b"/teapot"), &mut trace);
    assert_eq!(resp.status, 418);
    assert_eq!(resp.body, b"short and stout".to_vec());
}

#[test]
fn unexpected_failure_becomes_500() {
    let mut app = tide::new();
    let route = app.at(&b"/broken".to_vec()).get(Endpoint::Crash {
        message: b"defect".to_vec(),
    });
    app.mount(&route).unwrap();
    let mut trace = Vec::new();
    let resp = app.respond(raw_get(b"/broken"), &mut trace);
    assert_eq!(resp.status, 500);
    assert_eq!(resp.body, b"defect".to_vec());
}

#[test]
fn missing_parameter_becomes_500() {
    let mut app = tide::new();
    let route = app.at(&b"/fixed".to_vec()).get(Endpoint::ParamEcho {
        name: b"absent".to_vec(),
    });
    app.mount(&route).unwrap();
    let mut trace = Vec::new();
    let resp = app.respond(raw_get(b"/fixed"), &mut trace);
    assert_eq!(resp.status, 500);
}

#[test]
fn path_echo_sees_the_raw_path() {
    let mut app = tide::new();
    let route = app.at(&b"/echo/*rest".to_vec()).get(Endpoint::PathEcho);
    app.mount(&route).unwrap();
    let mut trace = Vec::new();
    let resp = app.respond(raw_get(b"/echo/a/b"), &mut trace);
    assert_eq!(resp.status, 200);
    assert_eq!(resp.body, b"/echo/a/b".to_vec());
}

#[test]
fn shared_state_is_reference_identical_across_requests() {
    let app = tide::with_state(vec![1u8, 2, 3]);
    let req1 = app.make_request(raw_get(b"/one"), Vec::new());
    let req2 = app.make_request(raw_get(b"/two"), Vec::new());
    assert!(std::ptr::eq(req1.state(), app.state()));
    assert!(std::ptr::eq(req2.state(), app.state()));
    assert!(std::ptr::eq(req1.state(), req2.state()));
}

#[test]
fn request_accessors_see_the_inbound_data() {
    let app = tide::with_state(0u8);
    let raw = RawRequest {
        method: Method::Put,
        path: b"/things/9".to_vec(),
        headers: vec![(b"accept".to_vec(), b"text".to_vec())],
        body: b"payload".to_vec(),
    };
    let params = vec![(b"id".to_vec(), b"9".to_vec())];
    let req = app.make_request(raw, params);
    assert_eq!(req.method(), Method::Put);
    assert_eq!(req.path(), &b"/things/9".to_vec());
    assert_eq!(req.body(), &b"payload".to_vec());
    assert_eq!(req.header(&b"accept".to_vec()), Some(&b"text".to_vec()));
    assert_eq!(req.header(&b"missing".to_vec()), None);
    assert_eq!(req.param(&b"id".to_vec()), Some(&b"9".to_vec()));
    assert_eq!(req.param(&b"other".to_vec()), None);
}

#[test]
fn response_construction_validates_the_status_range() {
    assert!(Response::checked(99, Vec::new()).is_none());
    assert!(Response::checked(1000, Vec::new()).is_none());
    let ok = Response::checked(200, b"hello".to_vec()).unwrap();
    assert_eq!(ok.status, 200);
    assert_eq!(ok.body, b"hello".to_vec());
    let edge_low = Response::checked(100, Vec::new()).unwrap();
    assert_eq!(edge_low.status, 100);
    let edge_high = Response::checked(999, Vec::new()).unwrap();
    assert_eq!(edge_high.status, 999);
}

#[test]
fn method_names_round_trip() {
    let all = [
        Method::Get,
        Method::Post,
        Method::Put,
        Method::Delete,
        Method::Patch,
        Method::Head,
        Method::Options,
    ];
    for m in all.iter() {
        let name = m.name_of();
        assert_eq!(Method::from_name(&name), Some(*m));
    }
    assert_eq!(Method::from_name(&b"BREW".to_vec()), None);
    assert_eq!(Method::from_name(&b"get".to_vec()), None);
}

#[test]
fn response_builder_methods() {
    let mut resp = Response::new(204);
    assert_eq!(resp.status, 204);
    assert!(resp.headers.is_empty());
    assert!(resp.body.is_empty());
    resp.set_body(b"abc".to_vec());
    resp.append_header(b"k".to_vec(), b"v".to_vec());
    assert_eq!(resp.body, b"abc".to_vec());
    assert_eq!(resp.headers, vec![(b"k".to_vec(), b"v".to_vec())]);
}
