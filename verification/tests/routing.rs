use tide::chain::Endpoint;
use tide::message::Method;
use tide::message::RegistrationError;
use tide::router::RouteMatch;

fn fixed(status: u16) -> Endpoint {
    Endpoint::Fixed { status, body: Vec::new() }
}

#[test]
fn named_segment_binds_value() {
    let mut app = tide::new();
    let route = app.at(&b"/users/:id".to_vec()).get(fixed(200));
    app.mount(&route).unwrap();
    match app.router.route(Method::Get, &b"/users/42".to_vec()) {
        RouteMatch::Matched { node: _, params } => {
            assert_eq!(params.len(), 1);
            assert_eq!(params[0].0, b"id".to_vec());
            assert_eq!(params[0].1, b"42".to_vec());
        }
        _ => panic!("expected a match"),
    }
}

#[test]
fn wildcard_binds_remainder() {
    let mut app = tide::new();
    let route = app.at(&b"/files/*rest".to_vec()).get(fixed(200));
    app.mount(&route).unwrap();
    match app.router.route(Method::Get, &b"/files/a/b/c".to_vec()) {
        RouteMatch::Matched { node: _, params } => {
            assert_eq!(params.len(), 1);
            assert_eq!(params[0].0, b"rest".to_vec());
            assert_eq!(params[0].1, b"a/b/c".to_vec());
        }
        _ => panic!("expected a match"),
    }
}

#[test]
fn literal_pattern_binds_nothing() {
    let mut app = tide::new();
    let route = app.at(&b"/exact".to_vec()).get(fixed(200));
    app.mount(&route).unwrap();
    match app.router.route(Method::Get, &b"/exact".to_vec()) {
        RouteMatch::Matched { node: _, params } => {
            assert_eq!(params.len(), 0);
        }
        _ => panic!("expected a match"),
    }
}

#[test]
fn trailing_slash_is_normalized() {
    let mut app = tide::new();
    let route = app.at(&b"/exact".to_vec()).get(fixed(200));
    app.mount(&route).unwrap();
    assert!(matches!(
        app.router.route(Method::Get, &b"/exact/".to_vec()),
        RouteMatch::Matched { .. }
    ));
}

#[test]
fn literal_wins_over_named() {
    let mut app = tide::new();
    let named = app.at(&b"/users/:id".to_vec()).get(fixed(201));
    let literal = app.at(&b"/users/me".to_vec()).get(fixed(202));
    app.mount(&named).unwrap();
    app.mount(&literal).unwrap();
    let mut trace = Vec::new();
    let raw = tide::message::RawRequest {
        method: Method::Get,
        path: b"/users/me".to_vec(),
        headers: Vec::new(),
        body: Vec::new(),
    };
    let resp = app.respond(raw, &mut trace);
    assert_eq!(resp.status, 202);
}

#[test]
fn backtracks_to_named_when_literal_subtree_fails() {
    let mut app = tide::new();
    let deep = app.at(&b"/a/b/c".to_vec()).get(fixed(201));
    let named = app.at(&b"/a/:x".to_vec()).get(fixed(202));
    app.mount(&deep).unwrap();
    app.mount(&named).unwrap();
    // `/a/b` walks into the literal `b` subtree, finds no terminal there,
    // and must back out to the named child
    let mut trace = Vec::new();
    let raw = tide::message::RawRequest {
        method: Method::Get,
        path: b"/a/b".to_vec(),
        headers: Vec::new(),
        body: Vec::new(),
    };
    let resp = app.respond(raw, &mut trace);
    assert_eq!(resp.status, 202);
}

#[test]
fn wildcard_needs_a_remainder() {
    let mut app = tide::new();
    let route = app.at(&b"/files/*rest".to_vec()).get(fixed(200));
    app.mount(&route).unwrap();
    assert!(matches!(
        app.router.route(Method::Get, &b"/files".to_vec()),
        RouteMatch::NoPath
    ));
    assert!(matches!(
        app.router.route(Method::Get, &b"/files/".to_vec()),
        RouteMatch::NoPath
    ));
}

#[test]
fn disjoint_patterns_commute() {
    let paths: [&[u8]; 3] = [b"/alpha", b"/beta", b"/gamma"];
    let mut one = tide::new();
    let r1 = one.at(&b"/alpha".to_vec()).get(fixed(201));
    let r2 = one.at(&b"/beta".to_vec()).get(fixed(202));
    one.mount(&r1).unwrap();
    one.mount(&r2).unwrap();

    let mut two = tide::new();
    let r2b = two.at(&b"/beta".to_vec()).get(fixed(202));
    let r1b = two.at(&b"/alpha".to_vec()).get(fixed(201));
    two.mount(&r2b).unwrap();
    two.mount(&r1b).unwrap();

    for p in paths.iter() {
        let raw_one = tide::message::RawRequest {
            method: Method::Get,
            path: p.to_vec(),
            headers: Vec::new(),
            body: Vec::new(),
        };
        let raw_two = tide::message::RawRequest {
            method: Method::Get,
            path: p.to_vec(),
            headers: Vec::new(),
            body: Vec::new(),
        };
        let mut t1 = Vec::new();
        let mut t2 = Vec::new();
        let a = one.respond(raw_one, &mut t1);
        let b = two.respond(raw_two, &mut t2);
        assert_eq!(a.status, b.status);
        assert_eq!(a.body, b.body);
    }
}

#[test]
fn ambiguous_named_fails_either_order() {
    let mut one = tide::new();
    let ra = one.at(&b"/a/:x".to_vec()).get(fixed(200));
    let rb = one.at(&b"/a/:y".to_vec()).get(fixed(200));
    one.mount(&ra).unwrap();
    assert_eq!(one.mount(&rb), Err(RegistrationError::AmbiguousNamed));

    let mut two = tide::new();
    let rb2 = two.at(&b"/a/:y".to_vec()).get(fixed(200));
    let ra2 = two.at(&b"/a/:x".to_vec()).get(fixed(200));
    two.mount(&rb2).unwrap();
    assert_eq!(two.mount(&ra2), Err(RegistrationError::AmbiguousNamed));
}

#[test]
fn ambiguous_wildcard_fails() {
    let mut app = tide::new();
    let ra = app.at(&b"/f/*rest".to_vec()).get(fixed(200));
    let rb = app.at(&b"/f/*other".to_vec()).post(fixed(200));
    app.mount(&ra).unwrap();
    assert_eq!(app.mount(&rb), Err(RegistrationError::AmbiguousWildcard));
}

#[test]
fn duplicate_method_fails() {
    let mut app = tide::new();
    let route = app.at(&b"/x".to_vec()).get(fixed(200)).get(fixed(201));
    assert_eq!(app.mount(&route), Err(RegistrationError::DuplicateMethod));
}

#[test]
fn wildcard_must_be_last() {
    let mut app = tide::new();
    let route = app.at(&b"/files/*rest/more".to_vec()).get(fixed(200));
    assert_eq!(app.mount(&route), Err(RegistrationError::MalformedPattern));
}

#[test]
fn nested_route_composes_prefix() {
    let mut app = tide::new();
    let api = app.at(&b"/api".to_vec());
    let users = api.at(&b"/v1/users/:id".to_vec()).get(Endpoint::ParamEcho {
        name: b"id".to_vec(),
    });
    app.mount(&users).unwrap();
    let mut trace = Vec::new();
    let raw = tide::message::RawRequest {
        method: Method::Get,
        path: b"/api/v1/users/7".to_vec(),
        headers: Vec::new(),
        body: Vec::new(),
    };
    let resp = app.respond(raw, &mut trace);
    assert_eq!(resp.status, 200);
    assert_eq!(resp.body, b"7".to_vec());
}

#[test]
fn nesting_under_a_wildcard_is_malformed() {
    let app = tide::new();
    let files = app.at(&b"/files/*rest".to_vec());
    let nested = files.at(&b"/deeper".to_vec());
    let mut app = app;
    let nested = nested.get(fixed(200));
    assert_eq!(app.mount(&nested), Err(RegistrationError::MalformedPattern));
}
