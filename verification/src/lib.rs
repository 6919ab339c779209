//! A verified request-routing and middleware-composition core for an HTTP
//! application framework: a prefix trie maps (method, path pattern) to a
//! handler chain, middleware wrap the handler as an onion, and a dispatcher
//! turns every incoming request into exactly one response.

use vstd::prelude::*;

pub mod bytes;
pub mod chain;
pub mod message;
pub mod path;
pub mod router;
pub mod server;

verus! {

/// Create a new server with no shared state.
pub fn new() -> (s: server::Server<()>)
    ensures
        s.wf(),
        s@.globals.len() == 0,
        s@.nodes == seq![router::empty_model()],
{
    server::Server::<()>::with_state(())
}

/// Create a new server that owns the shared application state `state`.
pub fn with_state<State>(state: State) -> (s: server::Server<State>)
    ensures
        s.wf(),
        s@.state == state,
        s@.globals.len() == 0,
        s@.nodes == seq![router::empty_model()],
{
    server::Server::with_state(state)
}

} // verus!
