//! Middleware, endpoints, and the onion-shaped execution of a handler chain.
//!
//! A chain is an ordered list of middleware wrapping one endpoint. Running
//! it invokes the first middleware with the rest of the chain as its
//! continuation: pre-phases run first-to-last, the endpoint runs at the
//! centre, post-phases run last-to-first. A middleware calls its
//! continuation exactly once or not at all (short-circuiting); the
//! structural recursion leaves no way to call it twice.
//!
//! The handler set is closed: handlers are a tagged enum interpreted by
//! [`run_from`], so one declared type can stand in the route table for
//! heterogeneous behaviours. An instrumented run records an [`Event`] trace,
//! which is what the ordering laws below speak about.

use vstd::prelude::*;
use crate::bytes::copy_bytes;
use crate::bytes::find_value;
use crate::bytes::lookup;
use crate::bytes::pair_views;
use crate::message::ErrorModel;
use crate::message::HandlerError;
use crate::message::Request;
use crate::message::RequestModel;
use crate::message::Response;
use crate::message::ResponseModel;
use crate::message::outcome_view;

verus! {

/// One entry of the instrumentation trace of a chain run.
#[derive(Clone, Copy, Debug, PartialEq, Eq, Structural)]
pub enum Event {
    /// A middleware's pre-phase ran.
    PrePhase(u64),
    /// The endpoint ran.
    EndpointRun(u64),
    /// A middleware's post-phase ran.
    PostPhase(u64),
}

/// A middleware: wraps the rest of the chain, may work before and after it,
/// and may short-circuit by answering without invoking it.
pub enum Middleware {
    /// Records `PrePhase(id)` before its continuation and `PostPhase(id)`
    /// after it; otherwise passes everything through.
    Probe { id: u64 },
    /// Short-circuits unconditionally with its own response.
    Halt { status: u16, body: Vec<u8> },
    /// Lets the request through only when it carries a header named `name`;
    /// otherwise short-circuits with `status` and an empty body.
    HeaderGuard { name: Vec<u8>, status: u16 },
    /// Appends the header `(name, value)` to whatever response its
    /// continuation produces; an error passes through untouched.
    Tag { name: Vec<u8>, value: Vec<u8> },
}

/// The mathematical form of a middleware.
#[verifier::ext_equal]
pub enum MiddlewareModel {
    Probe { id: u64 },
    Halt { status: u16, body: Seq<u8> },
    HeaderGuard { name: Seq<u8>, status: u16 },
    Tag { name: Seq<u8>, value: Seq<u8> },
}

impl View for Middleware {
    type V = MiddlewareModel;

    open spec fn view(&self) -> MiddlewareModel {
        match self {
            Middleware::Probe { id } => (MiddlewareModel::Probe { id: *id }),
            Middleware::Halt { status, body } => (MiddlewareModel::Halt {
                status: *status,
                body: body@,
            }),
            Middleware::HeaderGuard { name, status } => (MiddlewareModel::HeaderGuard {
                name: name@,
                status: *status,
            }),
            Middleware::Tag { name, value } => (MiddlewareModel::Tag {
                name: name@,
                value: value@,
            }),
        }
    }
}

/// The views of a sequence of middleware.
pub open spec fn middleware_views(v: Seq<Middleware>) -> Seq<MiddlewareModel> {
    v.map_values(|m: Middleware| m@)
}

/// An endpoint: the terminal handler of a chain.
pub enum Endpoint {
    /// Responds with a fixed status and body.
    Fixed { status: u16, body: Vec<u8> },
    /// Records `EndpointRun(id)`, then responds with a fixed status and body.
    Probe { id: u64, status: u16, body: Vec<u8> },
    /// Responds 200 with the value bound to path parameter `name`; fails
    /// unexpectedly when the matched pattern bound no such parameter.
    ParamEcho { name: Vec<u8> },
    /// Responds 200 with the request path as the body.
    PathEcho,
    /// Fails deliberately with a carried status and message.
    Fail { status: u16, message: Vec<u8> },
    /// Fails unexpectedly, with no deliberate status.
    Crash { message: Vec<u8> },
}

/// The mathematical form of an endpoint.
#[verifier::ext_equal]
pub enum EndpointModel {
    Fixed { status: u16, body: Seq<u8> },
    Probe { id: u64, status: u16, body: Seq<u8> },
    ParamEcho { name: Seq<u8> },
    PathEcho,
    Fail { status: u16, message: Seq<u8> },
    Crash { message: Seq<u8> },
}

impl View for Endpoint {
    type V = EndpointModel;

    open spec fn view(&self) -> EndpointModel {
        match self {
            Endpoint::Fixed { status, body } => (EndpointModel::Fixed {
                status: *status,
                body: body@,
            }),
            Endpoint::Probe { id, status, body } => (EndpointModel::Probe {
                id: *id,
                status: *status,
                body: body@,
            }),
            Endpoint::ParamEcho { name } => (EndpointModel::ParamEcho { name: name@ }),
            Endpoint::PathEcho => EndpointModel::PathEcho,
            Endpoint::Fail { status, message } => (EndpointModel::Fail {
                status: *status,
                message: message@,
            }),
            Endpoint::Crash { message } => (EndpointModel::Crash { message: message@ }),
        }
    }
}

/// What an endpoint answers on a given request.
pub open spec fn endpoint_result(ep: EndpointModel, req: RequestModel) -> Result<
    ResponseModel,
    ErrorModel,
> {
    match ep {
        EndpointModel::Fixed { status, body } => Ok(
            ResponseModel { status, headers: Seq::empty(), body },
        ),
        EndpointModel::Probe { id, status, body } => Ok(
            ResponseModel { status, headers: Seq::empty(), body },
        ),
        EndpointModel::ParamEcho { name } => (match lookup(req.params, name) {
            Some(v) => Ok(ResponseModel { status: 200, headers: Seq::empty(), body: v }),
            None => Err(ErrorModel::Internal { message: name }),
        }),
        EndpointModel::PathEcho => Ok(
            ResponseModel { status: 200, headers: Seq::empty(), body: req.path },
        ),
        EndpointModel::Fail { status, message } => Err(ErrorModel::Status { status, message }),
        EndpointModel::Crash { message } => Err(ErrorModel::Internal { message }),
    }
}

/// The trace an endpoint records.
pub open spec fn endpoint_events(ep: EndpointModel) -> Seq<Event> {
    match ep {
        EndpointModel::Probe { id, status, body } => seq![Event::EndpointRun(id)],
        _ => Seq::empty(),
    }
}

/// The outcome and trace of running the chain suffix `mws[i..]` around the
/// endpoint `ep` on request `req`: middleware `i` wraps the rest of the
/// chain as its continuation.
pub open spec fn run_model(
    mws: Seq<MiddlewareModel>,
    i: int,
    ep: EndpointModel,
    req: RequestModel,
) -> (Result<ResponseModel, ErrorModel>, Seq<Event>)
    decreases mws.len() - i,
{
    if i < 0 || i >= mws.len() {
        (endpoint_result(ep, req), endpoint_events(ep))
    } else {
        match mws[i] {
            MiddlewareModel::Probe { id } => {
                let inner = run_model(mws, i + 1, ep, req);
                (
                    inner.0,
                    seq![Event::PrePhase(id)] + inner.1 + seq![Event::PostPhase(id)],
                )
            },
            MiddlewareModel::Halt { status, body } => (
                Ok(ResponseModel { status, headers: Seq::empty(), body }),
                Seq::empty(),
            ),
            MiddlewareModel::HeaderGuard { name, status } => {
                if lookup(req.headers, name) is Some {
                    run_model(mws, i + 1, ep, req)
                } else {
                    (
                        Ok(ResponseModel { status, headers: Seq::empty(), body: Seq::empty() }),
                        Seq::empty(),
                    )
                }
            },
            MiddlewareModel::Tag { name, value } => {
                let inner = run_model(mws, i + 1, ep, req);
                (
                    match inner.0 {
                        Ok(resp) => Ok(
                            ResponseModel {
                                status: resp.status,
                                headers: resp.headers.push((name, value)),
                                body: resp.body,
                            },
                        ),
                        Err(e) => Err(e),
                    },
                    inner.1,
                )
            },
        }
    }
}

/// Run the chain suffix `mws[i..]` around `ep` on `req`, appending the
/// recorded events to `trace`.
pub fn run_from<State>(
    mws: &Vec<Middleware>,
    i: usize,
    ep: &Endpoint,
    req: &Request<'_, State>,
    trace: &mut Vec<Event>,
) -> (r: Result<Response, HandlerError>)
    requires
        i <= mws@.len(),
    ensures
        outcome_view(r) == run_model(middleware_views(mws@), i as int, ep@, req@).0,
        final(trace)@ == old(trace)@ + run_model(middleware_views(mws@), i as int, ep@, req@).1,
    decreases mws@.len() - i,
{
    if i == mws.len() {
        let r = run_endpoint(ep, req, trace);
        proof {
            assert(i as int >= middleware_views(mws@).len());
            assert(outcome_view(r) == run_model(middleware_views(mws@), i as int, ep@, req@).0);
        }
        r
    } else {
        match &mws[i] {
            Middleware::Probe { id } => {
                trace.push(Event::PrePhase(*id));
                let r = run_from(mws, i + 1, ep, req, trace);
                trace.push(Event::PostPhase(*id));
                proof {
                    let inner = run_model(middleware_views(mws@), i as int + 1, ep@, req@);
                    assert(middleware_views(mws@)[i as int] == mws@[i as int]@);
                    assert(trace@ =~= old(trace)@ + (seq![Event::PrePhase(*id)] + inner.1
                        + seq![Event::PostPhase(*id)]));
                }
                r
            },
            Middleware::Halt { status, body } => {
                proof {
                    assert(middleware_views(mws@)[i as int] == mws@[i as int]@);
                    assert(trace@ =~= old(trace)@ + Seq::<Event>::empty());
                }
                Ok(Response::simple(*status, copy_bytes(body)))
            },
            Middleware::HeaderGuard { name, status } => {
                proof {
                    assert(middleware_views(mws@)[i as int] == mws@[i as int]@);
                }
                if find_value(&req.headers, name).is_some() {
                    run_from(mws, i + 1, ep, req, trace)
                } else {
                    proof {
                        assert(trace@ =~= old(trace)@ + Seq::<Event>::empty());
                    }
                    Ok(Response::simple(*status, Vec::new()))
                }
            },
            Middleware::Tag { name, value } => {
                proof {
                    assert(middleware_views(mws@)[i as int] == mws@[i as int]@);
                }
                let r = run_from(mws, i + 1, ep, req, trace);
                match r {
                    Ok(mut resp) => {
                        let ghost before = resp@;
                        let ghost inner = run_model(middleware_views(mws@), i as int + 1, ep@, req@);
                        resp.append_header(copy_bytes(name), copy_bytes(value));
                        proof {
                            assert(inner.0 == Ok::<ResponseModel, ErrorModel>(before));
                            assert(pair_views(resp.headers@) =~= before.headers.push(
                                (name@, value@),
                            ));
                            assert(resp@ =~= (ResponseModel {
                                status: before.status,
                                headers: before.headers.push((name@, value@)),
                                body: before.body,
                            }));
                        }
                        Ok(resp)
                    },
                    Err(e) => Err(e),
                }
            },
        }
    }
}

/// Run the endpoint itself: the centre of the onion.
fn run_endpoint<State>(ep: &Endpoint, req: &Request<'_, State>, trace: &mut Vec<Event>) -> (r:
    Result<Response, HandlerError>)
    ensures
        outcome_view(r) == endpoint_result(ep@, req@),
        final(trace)@ == old(trace)@ + endpoint_events(ep@),
{
    match ep {
        Endpoint::Fixed { status, body } => {
            proof {
                assert(final(trace)@ =~= old(trace)@ + endpoint_events(ep@));
            }
            Ok(Response::simple(*status, copy_bytes(body)))
        },
        Endpoint::Probe { id, status, body } => {
            trace.push(Event::EndpointRun(*id));
            proof {
                assert(final(trace)@ =~= old(trace)@ + endpoint_events(ep@));
            }
            Ok(Response::simple(*status, copy_bytes(body)))
        },
        Endpoint::ParamEcho { name } => {
            proof {
                assert(final(trace)@ =~= old(trace)@ + endpoint_events(ep@));
            }
            match find_value(&req.params, name) {
                Some(v) => Ok(Response::simple(200, copy_bytes(v))),
                None => Err(HandlerError::Internal { message: copy_bytes(name) }),
            }
        },
        Endpoint::PathEcho => {
            proof {
                assert(final(trace)@ =~= old(trace)@ + endpoint_events(ep@));
            }
            Ok(Response::simple(200, copy_bytes(&req.path)))
        },
        Endpoint::Fail { status, message } => {
            proof {
                assert(final(trace)@ =~= old(trace)@ + endpoint_events(ep@));
            }
            Err(HandlerError::Status { status: *status, message: copy_bytes(message) })
        },
        Endpoint::Crash { message } => {
            proof {
                assert(final(trace)@ =~= old(trace)@ + endpoint_events(ep@));
            }
            Err(HandlerError::Internal { message: copy_bytes(message) })
        },
    }
}

/// A fresh copy of a middleware.
pub fn duplicate_middleware(m: &Middleware) -> (r: Middleware)
    ensures
        r@ == m@,
{
    match m {
        Middleware::Probe { id } => (Middleware::Probe { id: *id }),
        Middleware::Halt { status, body } => (Middleware::Halt {
            status: *status,
            body: copy_bytes(body),
        }),
        Middleware::HeaderGuard { name, status } => (Middleware::HeaderGuard {
            name: copy_bytes(name),
            status: *status,
        }),
        Middleware::Tag { name, value } => (Middleware::Tag {
            name: copy_bytes(name),
            value: copy_bytes(value),
        }),
    }
}

/// A fresh copy of an endpoint.
pub fn duplicate_endpoint(ep: &Endpoint) -> (r: Endpoint)
    ensures
        r@ == ep@,
{
    match ep {
        Endpoint::Fixed { status, body } => (Endpoint::Fixed {
            status: *status,
            body: copy_bytes(body),
        }),
        Endpoint::Probe { id, status, body } => (Endpoint::Probe {
            id: *id,
            status: *status,
            body: copy_bytes(body),
        }),
        Endpoint::ParamEcho { name } => (Endpoint::ParamEcho { name: copy_bytes(name) }),
        Endpoint::PathEcho => Endpoint::PathEcho,
        Endpoint::Fail { status, message } => (Endpoint::Fail {
            status: *status,
            message: copy_bytes(message),
        }),
        Endpoint::Crash { message } => (Endpoint::Crash { message: copy_bytes(message) }),
    }
}

/// A chain of probing middleware with these identities.
pub open spec fn probe_chain(ids: Seq<u64>) -> Seq<MiddlewareModel> {
    ids.map_values(|x: u64| MiddlewareModel::Probe { id: x })
}

/// The pre-phase events of the probes `ids[i..]`, first to last.
pub open spec fn pre_events_from(ids: Seq<u64>, i: int) -> Seq<Event>
    decreases ids.len() - i,
{
    if i < 0 || i >= ids.len() {
        Seq::empty()
    } else {
        seq![Event::PrePhase(ids[i])] + pre_events_from(ids, i + 1)
    }
}

/// The post-phase events of the probes `ids[i..]`, last to first: the exact
/// reverse of the pre-phase order.
pub open spec fn post_events_from(ids: Seq<u64>, i: int) -> Seq<Event>
    decreases ids.len() - i,
{
    if i < 0 || i >= ids.len() {
        Seq::empty()
    } else {
        post_events_from(ids, i + 1) + seq![Event::PostPhase(ids[i])]
    }
}

/// The onion ordering law, from chain position `i` on.
proof fn lemma_onion_order_from(ids: Seq<u64>, i: int, eid: u64, status: u16, body: Seq<u8>, req: RequestModel)
    requires
        0 <= i <= ids.len(),
    ensures
        run_model(probe_chain(ids), i, EndpointModel::Probe { id: eid, status, body }, req).1
            == pre_events_from(ids, i) + seq![Event::EndpointRun(eid)] + post_events_from(ids, i),
    decreases ids.len() - i,
{
    let ep = EndpointModel::Probe { id: eid, status, body };
    if i == ids.len() {
        assert(run_model(probe_chain(ids), i, ep, req).1 =~= pre_events_from(ids, i) + seq![
            Event::EndpointRun(eid),
        ] + post_events_from(ids, i));
    } else {
        lemma_onion_order_from(ids, i + 1, eid, status, body, req);
        assert(probe_chain(ids)[i] == (MiddlewareModel::Probe { id: ids[i] }));
        assert(run_model(probe_chain(ids), i, ep, req).1 =~= pre_events_from(ids, i) + seq![
            Event::EndpointRun(eid),
        ] + post_events_from(ids, i));
    }
}

/// The onion ordering law: for a chain of middleware `ids` around an
/// endpoint, the recorded pre-phases run in chain order, the endpoint runs
/// once at the centre, and the post-phases run in the exact reverse order.
pub proof fn lemma_onion_order(ids: Seq<u64>, eid: u64, status: u16, body: Seq<u8>, req: RequestModel)
    ensures
        run_model(probe_chain(ids), 0, EndpointModel::Probe { id: eid, status, body }, req).1
            == pre_events_from(ids, 0) + seq![Event::EndpointRun(eid)] + post_events_from(ids, 0),
{
    lemma_onion_order_from(ids, 0, eid, status, body, req);
}

/// The short-circuit law, from chain position `i` on.
proof fn lemma_short_circuit_from(
    mws: Seq<MiddlewareModel>,
    i: int,
    k: int,
    ep: EndpointModel,
    req: RequestModel,
)
    requires
        0 <= i <= k < mws.len(),
        mws[k] matches MiddlewareModel::Halt { .. },
        forall|j: int| i <= j < k ==> (#[trigger] mws[j]) matches MiddlewareModel::Probe { .. },
    ensures
        run_model(mws, i, ep, req).0 == Ok::<ResponseModel, ErrorModel>(
            ResponseModel {
                status: mws[k]->Halt_status,
                headers: Seq::empty(),
                body: mws[k]->Halt_body,
            },
        ),
        forall|j: int|
            0 <= j < run_model(mws, i, ep, req).1.len() ==> !((#[trigger] run_model(
                mws,
                i,
                ep,
                req,
            ).1[j]) is EndpointRun),
    decreases k - i,
{
    if i == k {
    } else {
        lemma_short_circuit_from(mws, i + 1, k, ep, req);
        let inner = run_model(mws, i + 1, ep, req);
        let id = mws[i]->Probe_id;
        assert(run_model(mws, i, ep, req).1 == seq![Event::PrePhase(id)] + inner.1 + seq![
            Event::PostPhase(id),
        ]);
    }
}

/// The short-circuit law: a middleware that answers without invoking its
/// continuation prevents the endpoint, and everything wrapped behind it,
/// from running at all. When every middleware before the halting one passes
/// the request through, the chain's answer is the halting middleware's own
/// response and the trace holds no endpoint event.
pub proof fn lemma_short_circuit(
    mws: Seq<MiddlewareModel>,
    k: int,
    ep: EndpointModel,
    req: RequestModel,
)
    requires
        0 <= k < mws.len(),
        mws[k] matches MiddlewareModel::Halt { .. },
        forall|j: int| 0 <= j < k ==> (#[trigger] mws[j]) matches MiddlewareModel::Probe { .. },
    ensures
        run_model(mws, 0, ep, req).0 == Ok::<ResponseModel, ErrorModel>(
            ResponseModel {
                status: mws[k]->Halt_status,
                headers: Seq::empty(),
                body: mws[k]->Halt_body,
            },
        ),
        forall|j: int|
            0 <= j < run_model(mws, 0, ep, req).1.len() ==> !((#[trigger] run_model(
                mws,
                0,
                ep,
                req,
            ).1[j]) is EndpointRun),
{
    lemma_short_circuit_from(mws, 0, k, ep, req);
}

} // verus!
