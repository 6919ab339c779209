//! The top-level server: it owns the route table, the server-global
//! middleware, and the long-lived shared application state, and it turns
//! every inbound request into exactly one response.
//!
//! Registration happens through [`Route`] builders and [`Server::mount`];
//! once serving begins the table is only read. Each dispatch resolves the
//! path, composes the runtime chain — global middleware first, then the
//! route's own middleware, then the endpoint — and runs it; a failure that
//! carries no deliberate status becomes a 500 response, so no request is
//! left without an answer.

use vstd::prelude::*;
use crate::bytes::pair_views;
use crate::chain::Endpoint;
use crate::chain::EndpointModel;
use crate::chain::Event;
use crate::chain::Middleware;
use crate::chain::MiddlewareModel;
use crate::chain::duplicate_endpoint;
use crate::chain::duplicate_middleware;
use crate::chain::middleware_views;
use crate::chain::run_from;
use crate::chain::run_model;
use crate::message::ErrorModel;
use crate::message::HandlerError;
use crate::message::Method;
use crate::message::RawRequest;
use crate::message::RegistrationError;
use crate::message::Request;
use crate::message::RequestModel;
use crate::message::Response;
use crate::message::ResponseModel;
use crate::message::raw_view;
use crate::path::Segment;
use crate::path::SegmentModel;
use crate::path::parse_pattern;
use crate::path::pattern_of;
use crate::path::pattern_ok;
use crate::path::segment_views;
use crate::router::ChainModel;
use crate::router::NodeModel;
use crate::router::RouteChain;
use crate::router::RouteMatch;
use crate::router::RouteOutcome;
use crate::router::Router;
use crate::router::empty_model;
use crate::router::model_insert_at;
use crate::router::model_route;

verus! {

/// The views of a sequence of endpoint registrations.
pub open spec fn registration_views(v: Seq<(Method, Endpoint)>) -> Seq<(Method, EndpointModel)> {
    v.map_values(|p: (Method, Endpoint)| (p.0, p.1@))
}

/// A fresh copy of a middleware list.
pub fn duplicate_middlewares(v: &Vec<Middleware>) -> (r: Vec<Middleware>)
    ensures
        middleware_views(r@) == middleware_views(v@),
{
    let n: usize = v.len();
    let mut r: Vec<Middleware> = Vec::new();
    let mut i: usize = 0;
    proof {
        assert(middleware_views(r@) =~= middleware_views(v@.subrange(0, 0)));
    }
    while i < n
        invariant
            n == v@.len(),
            0 <= i <= n,
            r@.len() == i,
            middleware_views(r@) == middleware_views(v@.subrange(0, i as int)),
        decreases n - i,
    {
        let dup = duplicate_middleware(&v[i]);
        let ghost prev = r@;
        r.push(dup);
        proof {
            assert forall|k: int|
                0 <= k < r@.len() implies #[trigger] middleware_views(r@)[k] == middleware_views(
                v@.subrange(0, i as int + 1),
            )[k] by {
                if k < i as int {
                    assert(r@[k] == prev[k]);
                    assert(middleware_views(prev)[k] == middleware_views(
                        v@.subrange(0, i as int),
                    )[k]);
                    assert(v@.subrange(0, i as int)[k] == v@.subrange(0, i as int + 1)[k]);
                }
            }
            assert(middleware_views(r@) =~= middleware_views(v@.subrange(0, i as int + 1)));
        }
        i += 1;
    }
    proof {
        assert(v@.subrange(0, n as int) =~= v@);
    }
    r
}

/// A route builder, bound to one path pattern: collects per-method endpoints
/// and route-scoped middleware, to be mounted on a server.
pub struct Route {
    pub segments: Vec<Segment>,
    pub malformed: bool,
    pub middleware: Vec<Middleware>,
    pub registrations: Vec<(Method, Endpoint)>,
}

/// The mathematical form of a route builder.
#[verifier::ext_equal]
pub struct RouteModel {
    pub segments: Seq<SegmentModel>,
    pub malformed: bool,
    pub middleware: Seq<MiddlewareModel>,
    pub registrations: Seq<(Method, EndpointModel)>,
}

impl View for Route {
    type V = RouteModel;

    open spec fn view(&self) -> RouteModel {
        RouteModel {
            segments: segment_views(self.segments@),
            malformed: self.malformed,
            middleware: middleware_views(self.middleware@),
            registrations: registration_views(self.registrations@),
        }
    }
}

impl Route {
    /// A route that is not marked malformed carries a well-formed pattern.
    pub open spec fn wf(&self) -> bool {
        !self@.malformed ==> pattern_ok(self@.segments)
    }

    /// A builder bound to `pattern`; marked malformed when the pattern has a
    /// wildcard anywhere but last.
    pub fn new(pattern: &Vec<u8>) -> (r: Route)
        ensures
            r.wf(),
            r@.malformed == !pattern_ok(pattern_of(pattern@)),
            !r@.malformed ==> r@.segments == pattern_of(pattern@),
            r@.middleware.len() == 0,
            r@.registrations.len() == 0,
    {
        match parse_pattern(pattern) {
            Ok(segments) => Route {
                segments,
                malformed: false,
                middleware: Vec::new(),
                registrations: Vec::new(),
            },
            Err(_) => Route {
                segments: Vec::new(),
                malformed: true,
                middleware: Vec::new(),
                registrations: Vec::new(),
            },
        }
    }

    /// A builder for a nested route: the sub-pattern's segments follow this
    /// route's, and this route's middleware carry over to the nested scope.
    pub fn at(&self, sub: &Vec<u8>) -> (r: Route)
        requires
            self.wf(),
        ensures
            r.wf(),
            r@.malformed == (self@.malformed || !pattern_ok(pattern_of(sub@)) || !pattern_ok(
                self@.segments + pattern_of(sub@),
            )),
            !r@.malformed ==> r@.segments == self@.segments + pattern_of(sub@),
            r@.middleware == self@.middleware,
            r@.registrations.len() == 0,
    {
        let mws = duplicate_middlewares(&self.middleware);
        if self.malformed {
            return Route {
                segments: Vec::new(),
                malformed: true,
                middleware: mws,
                registrations: Vec::new(),
            };
        }
        match parse_pattern(sub) {
            Err(_) => Route {
                segments: Vec::new(),
                malformed: true,
                middleware: mws,
                registrations: Vec::new(),
            },
            Ok(sub_segments) => {
                let mut segments = duplicate_segments(&self.segments);
                let mut tail = sub_segments;
                segments.append(&mut tail);
                proof {
                    assert(segment_views(segments@) =~= self@.segments + pattern_of(sub@));
                }
                // the concatenation may put this route's trailing wildcard
                // in the middle: check the joined pattern as a whole
                let ok = pattern_wildcard_last(&segments);
                if ok {
                    Route { segments, malformed: false, middleware: mws, registrations: Vec::new() }
                } else {
                    Route {
                        segments: Vec::new(),
                        malformed: true,
                        middleware: mws,
                        registrations: Vec::new(),
                    }
                }
            },
        }
    }

    /// Register `endpoint` for `method` on this route's pattern.
    pub fn method(self, method: Method, endpoint: Endpoint) -> (r: Route)
        requires
            self.wf(),
        ensures
            r.wf(),
            r@.segments == self@.segments,
            r@.malformed == self@.malformed,
            r@.middleware == self@.middleware,
            r@.registrations == self@.registrations.push((method, endpoint@)),
    {
        let mut r = self;
        r.registrations.push((method, endpoint));
        proof {
            assert(r@.registrations =~= registration_views(r.registrations@.drop_last()).push(
                (method, r.registrations@.last().1@),
            ));
        }
        r
    }

    /// Register `endpoint` for GET.
    pub fn get(self, endpoint: Endpoint) -> (r: Route)
        requires
            self.wf(),
        ensures
            r.wf(),
            r@.segments == self@.segments,
            r@.malformed == self@.malformed,
            r@.middleware == self@.middleware,
            r@.registrations == self@.registrations.push((Method::Get, endpoint@)),
    {
        self.method(Method::Get, endpoint)
    }

    /// Register `endpoint` for POST.
    pub fn post(self, endpoint: Endpoint) -> (r: Route)
        requires
            self.wf(),
        ensures
            r.wf(),
            r@.segments == self@.segments,
            r@.malformed == self@.malformed,
            r@.middleware == self@.middleware,
            r@.registrations == self@.registrations.push((Method::Post, endpoint@)),
    {
        self.method(Method::Post, endpoint)
    }

    /// Register `endpoint` for PUT.
    pub fn put(self, endpoint: Endpoint) -> (r: Route)
        requires
            self.wf(),
        ensures
            r.wf(),
            r@.segments == self@.segments,
            r@.malformed == self@.malformed,
            r@.middleware == self@.middleware,
            r@.registrations == self@.registrations.push((Method::Put, endpoint@)),
    {
        self.method(Method::Put, endpoint)
    }

    /// Register `endpoint` for DELETE.
    pub fn delete(self, endpoint: Endpoint) -> (r: Route)
        requires
            self.wf(),
        ensures
            r.wf(),
            r@.segments == self@.segments,
            r@.malformed == self@.malformed,
            r@.middleware == self@.middleware,
            r@.registrations == self@.registrations.push((Method::Delete, endpoint@)),
    {
        self.method(Method::Delete, endpoint)
    }

    /// Append a route-scoped middleware; it applies to every method
    /// registered on this route.
    pub fn with(self, mw: Middleware) -> (r: Route)
        requires
            self.wf(),
        ensures
            r.wf(),
            r@.segments == self@.segments,
            r@.malformed == self@.malformed,
            r@.middleware == self@.middleware.push(mw@),
            r@.registrations == self@.registrations,
    {
        let mut r = self;
        r.middleware.push(mw);
        proof {
            assert(r@.middleware =~= middleware_views(r.middleware@.drop_last()).push(
                r.middleware@.last()@,
            ));
        }
        r
    }
}

/// A fresh copy of a pattern segment list.
fn duplicate_segments(v: &Vec<Segment>) -> (r: Vec<Segment>)
    ensures
        segment_views(r@) == segment_views(v@),
{
    let n: usize = v.len();
    let mut r: Vec<Segment> = Vec::new();
    let mut i: usize = 0;
    proof {
        assert(segment_views(r@) =~= segment_views(v@.subrange(0, 0)));
    }
    while i < n
        invariant
            n == v@.len(),
            0 <= i <= n,
            r@.len() == i,
            segment_views(r@) == segment_views(v@.subrange(0, i as int)),
        decreases n - i,
    {
        let copy = match &v[i] {
            Segment::Literal(b) => Segment::Literal(crate::bytes::copy_bytes(b)),
            Segment::Named(b) => Segment::Named(crate::bytes::copy_bytes(b)),
            Segment::Wildcard(b) => Segment::Wildcard(crate::bytes::copy_bytes(b)),
        };
        let ghost prev = r@;
        r.push(copy);
        proof {
            assert forall|k: int|
                0 <= k < r@.len() implies #[trigger] segment_views(r@)[k] == segment_views(
                v@.subrange(0, i as int + 1),
            )[k] by {
                if k < i as int {
                    assert(r@[k] == prev[k]);
                    assert(segment_views(prev)[k] == segment_views(v@.subrange(0, i as int))[k]);
                    assert(v@.subrange(0, i as int)[k] == v@.subrange(0, i as int + 1)[k]);
                }
            }
            assert(segment_views(r@) =~= segment_views(v@.subrange(0, i as int + 1)));
        }
        i += 1;
    }
    proof {
        assert(v@.subrange(0, n as int) =~= v@);
    }
    r
}

/// Whether every wildcard segment stands in the final position.
fn pattern_wildcard_last(v: &Vec<Segment>) -> (r: bool)
    ensures
        r == pattern_ok(segment_views(v@)),
{
    let n: usize = v.len();
    let mut i: usize = 0;
    while i < n
        invariant
            n == v@.len(),
            0 <= i <= n,
            forall|k: int|
                0 <= k < i && k < n - 1 ==> !((#[trigger] segment_views(v@)[k]) is Wildcard),
        decreases n - i,
    {
        let is_wild = match &v[i] {
            Segment::Wildcard(_) => true,
            _ => false,
        };
        proof {
            assert(segment_views(v@)[i as int] == v@[i as int]@);
        }
        if is_wild && i + 1 < n {
            proof {
                assert(segment_views(v@)[i as int] is Wildcard);
            }
            return false;
        }
        i += 1;
    }
    true
}

/// Mount route registrations one after the other: each method of the route
/// gets the route's middleware and its endpoint as the registered chain. On
/// the first conflict the walk stops; `.1` is the table it leaves behind.
pub open spec fn model_mount(
    nodes: Seq<NodeModel>,
    segments: Seq<SegmentModel>,
    mws: Seq<MiddlewareModel>,
    regs: Seq<(Method, EndpointModel)>,
    k: int,
) -> (Result<(), RegistrationError>, Seq<NodeModel>)
    decreases regs.len() - k,
{
    if k < 0 || k >= regs.len() {
        (Ok(()), nodes)
    } else {
        match model_insert_at(
            nodes,
            0,
            segments,
            0,
            regs[k].0,
            ChainModel { middleware: mws, endpoint: regs[k].1 },
        ) {
            Ok(ns) => model_mount(ns, segments, mws, regs, k + 1),
            Err(e) => (Err(e), nodes),
        }
    }
}

/// What the dispatcher answers, and the trace it records, for one inbound
/// request: resolve the path, then run the composed chain; map a deliberate
/// failure to its own status, any other failure to 500, an unmatched path
/// to 404, and a matched path without the method to 405.
pub open spec fn model_dispatch(
    nodes: Seq<NodeModel>,
    globals: Seq<MiddlewareModel>,
    raw: RequestModel,
) -> (ResponseModel, Seq<Event>) {
    match model_route(nodes, raw.method, raw.path) {
        RouteOutcome::NoPath => (
            ResponseModel { status: 404, headers: Seq::empty(), body: Seq::empty() },
            Seq::empty(),
        ),
        RouteOutcome::WrongMethod => (
            ResponseModel { status: 405, headers: Seq::empty(), body: Seq::empty() },
            Seq::empty(),
        ),
        RouteOutcome::Matched { chain, params } => {
            let req = RequestModel {
                method: raw.method,
                path: raw.path,
                headers: raw.headers,
                params,
                body: raw.body,
            };
            let out = run_model(globals + chain.middleware, 0, chain.endpoint, req);
            (
                match out.0 {
                    Ok(resp) => resp,
                    Err(ErrorModel::Status { status, message }) => ResponseModel {
                        status,
                        headers: Seq::empty(),
                        body: message,
                    },
                    Err(ErrorModel::Internal { message }) => ResponseModel {
                        status: 500,
                        headers: Seq::empty(),
                        body: message,
                    },
                },
                out.1,
            )
        },
    }
}

/// The mathematical form of a server.
#[verifier::ext_equal]
pub struct ServerModel<State> {
    pub nodes: Seq<NodeModel>,
    pub globals: Seq<MiddlewareModel>,
    pub state: State,
}

/// The server: the route table, the global middleware, and the shared state.
pub struct Server<State> {
    pub router: Router,
    pub globals: Vec<Middleware>,
    pub state: State,
}

impl<State> Server<State> {
    pub open spec fn view(&self) -> ServerModel<State> {
        ServerModel {
            nodes: self.router@,
            globals: middleware_views(self.globals@),
            state: self.state,
        }
    }

    pub open spec fn wf(&self) -> bool {
        self.router.wf()
    }

    /// Construct a server owning the shared state `state`, with an empty
    /// route table and no global middleware.
    pub fn with_state(state: State) -> (s: Self)
        ensures
            s.wf(),
            s@.state == state,
            s@.globals.len() == 0,
            s@.nodes == seq![empty_model()],
    {
        let s = Server { router: Router::empty(), globals: Vec::new(), state };
        proof {
            assert(s@.globals =~= Seq::<MiddlewareModel>::empty());
        }
        s
    }

    /// The shared state this server owns.
    pub fn state(&self) -> (r: &State)
        ensures
            r == self.state,
    {
        &self.state
    }

    /// A route builder bound to `pattern`.
    pub fn at(&self, pattern: &Vec<u8>) -> (r: Route)
        ensures
            r.wf(),
            r@.malformed == !pattern_ok(pattern_of(pattern@)),
            !r@.malformed ==> r@.segments == pattern_of(pattern@),
            r@.middleware.len() == 0,
            r@.registrations.len() == 0,
    {
        Route::new(pattern)
    }

    /// Append a server-global middleware; it wraps every route, outside the
    /// route's own middleware.
    pub fn with(&mut self, mw: Middleware)
        requires
            old(self).wf(),
        ensures
            final(self).wf(),
            final(self)@.nodes == old(self)@.nodes,
            final(self)@.state == old(self)@.state,
            final(self)@.globals == old(self)@.globals.push(mw@),
    {
        self.globals.push(mw);
        proof {
            assert(self@.globals =~= middleware_views(self.globals@.drop_last()).push(
                self.globals@.last()@,
            ));
        }
    }

    /// Mount a route: register each of its (method, endpoint) pairs at its
    /// pattern, with the route's middleware as the chain. Fails on a
    /// malformed pattern or on the first structural conflict, and such a
    /// failure is meant to abort startup.
    pub fn mount(&mut self, route: &Route) -> (r: Result<(), RegistrationError>)
        requires
            old(self).wf(),
            route.wf(),
        ensures
            final(self).wf(),
            final(self)@.globals == old(self)@.globals,
            final(self)@.state == old(self)@.state,
            route@.malformed ==> (r matches Err(e) && e == RegistrationError::MalformedPattern)
                && final(self)@.nodes == old(self)@.nodes,
            !route@.malformed ==> ({
                let mm = model_mount(
                    old(self)@.nodes,
                    route@.segments,
                    route@.middleware,
                    route@.registrations,
                    0,
                );
                &&& (match mm.0 {
                    Ok(u) => r is Ok,
                    Err(e) => r matches Err(e2) && e2 == e,
                })
                &&& final(self)@.nodes == mm.1
            }),
    {
        if route.malformed {
            return Err(RegistrationError::MalformedPattern);
        }
        let n: usize = route.registrations.len();
        let mut k: usize = 0;
        while k < n
            invariant
                n == route.registrations@.len(),
                0 <= k <= n,
                self.wf(),
                route.wf(),
                !route@.malformed,
                self@.globals == old(self)@.globals,
                self@.state == old(self)@.state,
                model_mount(
                    old(self)@.nodes,
                    route@.segments,
                    route@.middleware,
                    route@.registrations,
                    0,
                ) == model_mount(
                    self@.nodes,
                    route@.segments,
                    route@.middleware,
                    route@.registrations,
                    k as int,
                ),
            decreases n - k,
        {
            let method = route.registrations[k].0;
            let chain = RouteChain {
                middleware: duplicate_middlewares(&route.middleware),
                endpoint: duplicate_endpoint(&route.registrations[k].1),
            };
            proof {
                assert(chain@ =~= (ChainModel {
                    middleware: route@.middleware,
                    endpoint: route@.registrations[k as int].1,
                }));
                assert(registration_views(route.registrations@)[k as int] == (
                    route.registrations@[k as int].0,
                    route.registrations@[k as int].1@,
                ));
            }
            let res = self.router.insert(method, &route.segments, chain);
            match res {
                Ok(_) => {},
                Err(e) => {
                    return Err(e);
                },
            }
            k += 1;
        }
        Ok(())
    }

    /// Wrap raw inbound data and matched parameters into the request a
    /// handler receives. The request refers to the server's own state; it
    /// never owns or copies it.
    pub fn make_request(&self, raw: RawRequest, params: Vec<(Vec<u8>, Vec<u8>)>) -> (req: Request<
        '_,
        State,
    >)
        ensures
            req@ == (RequestModel {
                method: raw.method,
                path: raw.path@,
                headers: pair_views(raw.headers@),
                params: pair_views(params@),
                body: raw.body@,
            }),
            req.state == self.state,
    {
        Request {
            method: raw.method,
            path: raw.path,
            headers: raw.headers,
            params,
            body: raw.body,
            state: &self.state,
        }
    }

    /// Dispatch one inbound request to exactly one response, appending the
    /// instrumentation events of the chain run to `trace`.
    pub fn respond(&self, raw: RawRequest, trace: &mut Vec<Event>) -> (r: Response)
        requires
            self.wf(),
        ensures
            r@ == model_dispatch(self@.nodes, self@.globals, raw_view(raw)).0,
            final(trace)@ == old(trace)@ + model_dispatch(
                self@.nodes,
                self@.globals,
                raw_view(raw),
            ).1,
    {
        let method = raw.method;
        match self.router.route(method, &raw.path) {
            RouteMatch::NoPath => {
                proof {
                    assert(trace@ =~= old(trace)@ + Seq::<Event>::empty());
                }
                Response::simple(404, Vec::new())
            },
            RouteMatch::WrongMethod => {
                proof {
                    assert(trace@ =~= old(trace)@ + Seq::<Event>::empty());
                }
                Response::simple(405, Vec::new())
            },
            RouteMatch::Matched { node, params } => {
                let chain = self.router.chain_at(node, method);
                let mut mws = duplicate_middlewares(&self.globals);
                let mut route_mws = duplicate_middlewares(&chain.middleware);
                mws.append(&mut route_mws);
                proof {
                    assert(middleware_views(mws@) =~= self@.globals + chain@.middleware);
                }
                let endpoint = duplicate_endpoint(&chain.endpoint);
                let req = self.make_request(raw, params);
                let out = run_from(&mws, 0, &endpoint, &req, trace);
                match out {
                    Ok(resp) => resp,
                    Err(HandlerError::Status { status, message }) => Response::simple(
                        status,
                        message,
                    ),
                    Err(HandlerError::Internal { message }) => Response::simple(500, message),
                }
            },
        }
    }
}

/// The shared-state law: every request built by one server observes the very
/// state that server owns, so any two requests observe the same value. The
/// premises are what [`Server::make_request`] establishes for every request
/// it wraps.
pub proof fn lemma_state_shared<State>(
    s: Server<State>,
    q1: Request<State>,
    q2: Request<State>,
)
    requires
        q1.state == s.state,
        q2.state == s.state,
    ensures
        q1.state == q2.state,
{
}

} // verus!
