//! The route table: a prefix trie keyed by path segments.
//!
//! Nodes live in an arena and refer to their children by index. Each node
//! holds literal children looked up by exact segment text, at most one named
//! child, at most one wildcard child, and — where a pattern ends — a table
//! from method to the registered chain.
//!
//! Matching walks the path segment by segment, trying children in priority
//! order: literal first, then named, then wildcard; it backtracks when a
//! deeper walk finds no terminal, so a more specific literal elsewhere still
//! wins. A wildcard consumes the whole (non-empty) remainder of the path,
//! re-joined with `/`. When the walk ends at a terminal node, the method
//! table decides between a match and a wrong-method answer.

use vstd::prelude::*;
use crate::bytes::bytes_eq;
use crate::bytes::copy_bytes;
use crate::bytes::pair_views;
use crate::chain::Endpoint;
use crate::chain::EndpointModel;
use crate::chain::Middleware;
use crate::chain::MiddlewareModel;
use crate::chain::middleware_views;
use crate::message::Method;
use crate::message::RegistrationError;
use crate::path::SLASH;
use crate::path::Segment;
use crate::path::SegmentModel;
use crate::path::path_segments;
use crate::path::segment_views;
use crate::path::views;

verus! {

/// What a route registers for one method: the route-scoped middleware, in
/// registration order, and the endpoint they wrap.
pub struct RouteChain {
    pub middleware: Vec<Middleware>,
    pub endpoint: Endpoint,
}

/// The mathematical form of a registered chain.
#[verifier::ext_equal]
pub struct ChainModel {
    pub middleware: Seq<MiddlewareModel>,
    pub endpoint: EndpointModel,
}

impl View for RouteChain {
    type V = ChainModel;

    open spec fn view(&self) -> ChainModel {
        ChainModel { middleware: middleware_views(self.middleware@), endpoint: self.endpoint@ }
    }
}

/// One trie node.
pub struct Node {
    pub literals: Vec<(Vec<u8>, usize)>,
    pub named: Option<(Vec<u8>, usize)>,
    pub wildcard: Option<(Vec<u8>, usize)>,
    pub methods: Vec<(Method, RouteChain)>,
}

/// The mathematical form of a trie node.
#[verifier::ext_equal]
pub struct NodeModel {
    pub literals: Seq<(Seq<u8>, int)>,
    pub named: Option<(Seq<u8>, int)>,
    pub wildcard: Option<(Seq<u8>, int)>,
    pub methods: Seq<(Method, ChainModel)>,
}

/// The views of the literal-child table.
pub open spec fn literal_views(v: Seq<(Vec<u8>, usize)>) -> Seq<(Seq<u8>, int)> {
    v.map_values(|p: (Vec<u8>, usize)| (p.0@, p.1 as int))
}

/// The views of the method table.
pub open spec fn method_views(v: Seq<(Method, RouteChain)>) -> Seq<(Method, ChainModel)> {
    v.map_values(|p: (Method, RouteChain)| (p.0, p.1@))
}

impl View for Node {
    type V = NodeModel;

    open spec fn view(&self) -> NodeModel {
        NodeModel {
            literals: literal_views(self.literals@),
            named: (match self.named {
                Some(p) => Some((p.0@, p.1 as int)),
                None => None,
            }),
            wildcard: (match self.wildcard {
                Some(p) => Some((p.0@, p.1 as int)),
                None => None,
            }),
            methods: method_views(self.methods@),
        }
    }
}

/// The views of the node arena.
pub open spec fn node_views(v: Seq<Node>) -> Seq<NodeModel> {
    v.map_values(|nd: Node| nd@)
}

/// A node with no children and no methods.
pub open spec fn empty_model() -> NodeModel {
    NodeModel { literals: Seq::empty(), named: None, wildcard: None, methods: Seq::empty() }
}

fn empty_node() -> (r: Node)
    ensures
        r@ == empty_model(),
{
    let r = Node { literals: Vec::new(), named: None, wildcard: None, methods: Vec::new() };
    proof {
        assert(r@ =~= empty_model());
    }
    r
}

/// Every child index of `nd` points into `nodes`.
pub open spec fn node_wf(nodes: Seq<NodeModel>, nd: NodeModel) -> bool {
    &&& forall|k: int|
        0 <= k < nd.literals.len() ==> 0 <= (#[trigger] nd.literals[k]).1 < nodes.len()
    &&& (nd.named matches Some(p) ==> 0 <= p.1 < nodes.len())
    &&& (nd.wildcard matches Some(p) ==> 0 <= p.1 < nodes.len())
}

/// The arena is non-empty (node 0 is the root) and every child index of
/// every node points into it.
pub open spec fn nodes_wf(nodes: Seq<NodeModel>) -> bool {
    &&& nodes.len() >= 1
    &&& forall|n: int| 0 <= n < nodes.len() ==> node_wf(nodes, #[trigger] nodes[n])
}

/// The child index under the first literal entry with text `key`, scanning
/// from entry `k`.
pub open spec fn literal_lookup_from(lits: Seq<(Seq<u8>, int)>, key: Seq<u8>, k: int) -> Option<
    int,
>
    decreases lits.len() - k,
{
    if k < 0 || k >= lits.len() {
        None
    } else if lits[k].0 == key {
        Some(lits[k].1)
    } else {
        literal_lookup_from(lits, key, k + 1)
    }
}

/// The child index under the literal entry with text `key`, if any.
pub open spec fn literal_lookup(lits: Seq<(Seq<u8>, int)>, key: Seq<u8>) -> Option<int> {
    literal_lookup_from(lits, key, 0)
}

/// The chain under the first method-table entry for `m`, scanning from
/// entry `k`.
pub open spec fn method_lookup_from(ms: Seq<(Method, ChainModel)>, m: Method, k: int) -> Option<
    ChainModel,
>
    decreases ms.len() - k,
{
    if k < 0 || k >= ms.len() {
        None
    } else if ms[k].0 == m {
        Some(ms[k].1)
    } else {
        method_lookup_from(ms, m, k + 1)
    }
}

/// The chain the method table holds for `m`, if any.
pub open spec fn method_lookup(ms: Seq<(Method, ChainModel)>, m: Method) -> Option<ChainModel> {
    method_lookup_from(ms, m, 0)
}

/// The segments `segs[i..]` re-joined with `/`.
pub open spec fn join_from(segs: Seq<Seq<u8>>, i: int) -> Seq<u8>
    decreases segs.len() - i,
{
    if i < 0 || i >= segs.len() {
        Seq::empty()
    } else if i == segs.len() - 1 {
        segs[i]
    } else {
        segs[i] + seq![SLASH] + join_from(segs, i + 1)
    }
}

/// The walk of the trie from node `n` against `segs[i..]`: the terminal node
/// reached and the parameters bound on the way, or `None` when no terminal
/// is reachable. Children are tried literal first, then named, then
/// wildcard; a branch whose deeper walk fails is backtracked. A terminal is
/// a node with at least one registered method. A wildcard needs at least one
/// remaining segment and binds the re-joined remainder.
pub open spec fn model_match_at(
    nodes: Seq<NodeModel>,
    n: int,
    segs: Seq<Seq<u8>>,
    i: int,
) -> Option<(int, Seq<(Seq<u8>, Seq<u8>)>)>
    decreases segs.len() - i,
{
    if i < 0 || i >= segs.len() {
        if nodes[n].methods.len() > 0 {
            Some((n, Seq::empty()))
        } else {
            None
        }
    } else {
        let via_literal = match literal_lookup(nodes[n].literals, segs[i]) {
            Some(c) => model_match_at(nodes, c, segs, i + 1),
            None => None,
        };
        if via_literal is Some {
            via_literal
        } else {
            let via_named = match nodes[n].named {
                Some(p) => (match model_match_at(nodes, p.1, segs, i + 1) {
                    Some(t) => Some((t.0, seq![(p.0, segs[i])] + t.1)),
                    None => None,
                }),
                None => None,
            };
            if via_named is Some {
                via_named
            } else {
                match nodes[n].wildcard {
                    Some(p) => {
                        if nodes[p.1].methods.len() > 0 {
                            Some((p.1, seq![(p.0, join_from(segs, i))]))
                        } else {
                            None
                        }
                    },
                    None => None,
                }
            }
        }
    }
}

/// A matched terminal lies in the arena and has at least one method.
pub proof fn lemma_match_node_ok(nodes: Seq<NodeModel>, n: int, segs: Seq<Seq<u8>>, i: int)
    requires
        nodes_wf(nodes),
        0 <= n < nodes.len(),
    ensures
        model_match_at(nodes, n, segs, i) matches Some(t) ==> 0 <= t.0 < nodes.len()
            && nodes[t.0].methods.len() > 0,
    decreases segs.len() - i,
{
    if i < 0 || i >= segs.len() {
    } else {
        match literal_lookup(nodes[n].literals, segs[i]) {
            Some(c) => {
                lemma_literal_lookup_in_bounds(nodes, nodes[n], segs[i], 0);
                lemma_match_node_ok(nodes, c, segs, i + 1);
            },
            None => {},
        }
        match nodes[n].named {
            Some(p) => {
                lemma_match_node_ok(nodes, p.1, segs, i + 1);
            },
            None => {},
        }
    }
}

/// A literal lookup that finds a child returns an index into the arena.
proof fn lemma_literal_lookup_in_bounds(
    nodes: Seq<NodeModel>,
    nd: NodeModel,
    key: Seq<u8>,
    k: int,
)
    requires
        node_wf(nodes, nd),
    ensures
        literal_lookup_from(nd.literals, key, k) matches Some(c) ==> 0 <= c < nodes.len(),
    decreases nd.literals.len() - k,
{
    if k < 0 || k >= nd.literals.len() {
    } else if nd.literals[k].0 == key {
    } else {
        lemma_literal_lookup_in_bounds(nodes, nd, key, k + 1);
    }
}

/// The outcome of resolving one request against the route table.
#[verifier::ext_equal]
pub enum RouteOutcome {
    /// A chain is registered for this method at a pattern matching the path;
    /// `params` bind the pattern's named and wildcard segments, left to
    /// right.
    Matched { chain: ChainModel, params: Seq<(Seq<u8>, Seq<u8>)> },
    /// A pattern matches the path, but the method table there lacks the
    /// requested method.
    WrongMethod,
    /// No registered pattern matches the path.
    NoPath,
}

/// Resolve `(m, path)` against the route table.
pub open spec fn model_route(nodes: Seq<NodeModel>, m: Method, path: Seq<u8>) -> RouteOutcome {
    match model_match_at(nodes, 0, path_segments(path), 0) {
        None => RouteOutcome::NoPath,
        Some(t) => (match method_lookup(nodes[t.0].methods, m) {
            Some(chain) => RouteOutcome::Matched { chain, params: t.1 },
            None => RouteOutcome::WrongMethod,
        }),
    }
}

/// Insert `(method, pat[j..]) -> chain` below node `n`, growing the arena as
/// needed. Reports a conflict with what is already registered instead of
/// making matching ambiguous: a second named (or wildcard) name at one
/// position, or a second chain for one method at one pattern.
pub open spec fn model_insert_at(
    nodes: Seq<NodeModel>,
    n: int,
    pat: Seq<SegmentModel>,
    j: int,
    method: Method,
    chain: ChainModel,
) -> Result<Seq<NodeModel>, RegistrationError>
    decreases pat.len() - j,
{
    if j < 0 || j >= pat.len() {
        if method_lookup(nodes[n].methods, method) is Some {
            Err(RegistrationError::DuplicateMethod)
        } else {
            let nd = nodes[n];
            Ok(
                nodes.update(
                    n,
                    NodeModel {
                        literals: nd.literals,
                        named: nd.named,
                        wildcard: nd.wildcard,
                        methods: nd.methods.push((method, chain)),
                    },
                ),
            )
        }
    } else {
        match pat[j] {
            SegmentModel::Literal(text) => {
                match literal_lookup(nodes[n].literals, text) {
                    Some(c) => model_insert_at(nodes, c, pat, j + 1, method, chain),
                    None => {
                        let c = nodes.len() as int;
                        let nd = nodes[n];
                        let grown = nodes.push(empty_model()).update(
                            n,
                            NodeModel {
                                literals: nd.literals.push((text, c)),
                                named: nd.named,
                                wildcard: nd.wildcard,
                                methods: nd.methods,
                            },
                        );
                        model_insert_at(grown, c, pat, j + 1, method, chain)
                    },
                }
            },
            SegmentModel::Named(name) => {
                match nodes[n].named {
                    Some(p) => {
                        if p.0 == name {
                            model_insert_at(nodes, p.1, pat, j + 1, method, chain)
                        } else {
                            Err(RegistrationError::AmbiguousNamed)
                        }
                    },
                    None => {
                        let c = nodes.len() as int;
                        let nd = nodes[n];
                        let grown = nodes.push(empty_model()).update(
                            n,
                            NodeModel {
                                literals: nd.literals,
                                named: Some((name, c)),
                                wildcard: nd.wildcard,
                                methods: nd.methods,
                            },
                        );
                        model_insert_at(grown, c, pat, j + 1, method, chain)
                    },
                }
            },
            SegmentModel::Wildcard(name) => {
                match nodes[n].wildcard {
                    Some(p) => {
                        if p.0 == name {
                            model_insert_at(nodes, p.1, pat, j + 1, method, chain)
                        } else {
                            Err(RegistrationError::AmbiguousWildcard)
                        }
                    },
                    None => {
                        let c = nodes.len() as int;
                        let nd = nodes[n];
                        let grown = nodes.push(empty_model()).update(
                            n,
                            NodeModel {
                                literals: nd.literals,
                                named: nd.named,
                                wildcard: Some((name, c)),
                                methods: nd.methods,
                            },
                        );
                        model_insert_at(grown, c, pat, j + 1, method, chain)
                    },
                }
            },
        }
    }
}

/// Insert a whole pattern at the root: a pattern with a wildcard anywhere
/// but last is malformed.
pub open spec fn model_insert(
    nodes: Seq<NodeModel>,
    pat: Seq<SegmentModel>,
    method: Method,
    chain: ChainModel,
) -> Result<Seq<NodeModel>, RegistrationError> {
    if !crate::path::pattern_ok(pat) {
        Err(RegistrationError::MalformedPattern)
    } else {
        model_insert_at(nodes, 0, pat, 0, method, chain)
    }
}

/// The route table.
pub struct Router {
    pub nodes: Vec<Node>,
}

/// The exec answer of resolving one request: on a match, the terminal node
/// index (whose method table holds the chain) and the bound parameters.
pub enum RouteMatch {
    Matched { node: usize, params: Vec<(Vec<u8>, Vec<u8>)> },
    WrongMethod,
    NoPath,
}

impl Router {
    pub open spec fn view(&self) -> Seq<NodeModel> {
        node_views(self.nodes@)
    }

    pub open spec fn wf(&self) -> bool {
        nodes_wf(self@)
    }

    /// An empty route table: a lone root node.
    pub fn empty() -> (r: Router)
        ensures
            r.wf(),
            r@ == seq![empty_model()],
    {
        let mut nodes: Vec<Node> = Vec::new();
        nodes.push(empty_node());
        let r = Router { nodes };
        proof {
            assert(r@ =~= seq![empty_model()]);
        }
        r
    }

    /// Register `(method, pattern) -> chain`. Fails, leaving the table
    /// unchanged, exactly when the pattern is malformed or conflicts with
    /// what is already registered.
    pub fn insert(&mut self, method: Method, pattern: &Vec<Segment>, chain: RouteChain) -> (r:
        Result<(), RegistrationError>)
        requires
            old(self).wf(),
        ensures
            final(self).wf(),
            (match model_insert(old(self)@, segment_views(pattern@), method, chain@) {
                Ok(ns) => r is Ok && final(self)@ == ns,
                Err(e) => (r matches Err(e2) && e2 == e) && final(self)@ == old(self)@,
            }),
    {
        // a wildcard anywhere but the final position never matches anything:
        // reject it at registration time
        let n: usize = pattern.len();
        let mut j: usize = 0;
        while j < n
            invariant
                n == pattern@.len(),
                0 <= j <= n,
                *self == *old(self),
                old(self).wf(),
                forall|k: int|
                    0 <= k < j && k < n - 1 ==> !((#[trigger] segment_views(pattern@)[k])
                        is Wildcard),
            decreases n - j,
        {
            let is_wild = match &pattern[j] {
                Segment::Wildcard(_) => true,
                _ => false,
            };
            proof {
                assert(segment_views(pattern@)[j as int] == pattern@[j as int]@);
            }
            if is_wild && j + 1 < n {
                proof {
                    assert(!crate::path::pattern_ok(segment_views(pattern@)));
                }
                return Err(RegistrationError::MalformedPattern);
            }
            j += 1;
        }
        proof {
            assert(crate::path::pattern_ok(segment_views(pattern@)));
        }
        insert_at(&mut self.nodes, 0, pattern, 0, method, chain)
    }

    /// Resolve `(method, path)` against the table.
    pub fn route(&self, method: Method, path: &Vec<u8>) -> (r: RouteMatch)
        requires
            self.wf(),
        ensures
            (r is Matched <==> model_route(self@, method, path@) is Matched),
            (r is WrongMethod <==> model_route(self@, method, path@) is WrongMethod),
            (r is NoPath <==> model_route(self@, method, path@) is NoPath),
            (r matches RouteMatch::Matched { node, params } ==> {
                &&& (node as int) < self@.len()
                &&& pair_views(params@) == model_route(self@, method, path@)->Matched_params
                &&& method_lookup(self@[node as int].methods, method) == Some(
                    model_route(self@, method, path@)->Matched_chain,
                )
            }),
    {
        let segs = crate::path::split_path(path);
        proof {
            lemma_match_node_ok(self@, 0, views(segs@), 0);
        }
        match match_at(&self.nodes, 0, &segs, 0) {
            None => RouteMatch::NoPath,
            Some(t) => {
                if method_present(&self.nodes[t.0].methods, method) {
                    RouteMatch::Matched { node: t.0, params: t.1 }
                } else {
                    RouteMatch::WrongMethod
                }
            },
        }
    }

    /// The chain the table holds at `node` for `method`.
    pub fn chain_at(&self, node: usize, method: Method) -> (r: &RouteChain)
        requires
            self.wf(),
            (node as int) < self@.len(),
            method_lookup(self@[node as int].methods, method) is Some,
        ensures
            Some(r@) == method_lookup(self@[node as int].methods, method),
    {
        let ms = &self.nodes[node].methods;
        let n: usize = ms.len();
        let mut k: usize = 0;
        proof {
            assert(self@[node as int] == self.nodes@[node as int]@);
        }
        while k < n
            invariant
                n == ms@.len(),
                0 <= k <= n,
                method_views(ms@) == self@[node as int].methods,
                method_lookup(self@[node as int].methods, method) is Some,
                method_lookup_from(method_views(ms@), method, 0) == method_lookup_from(
                    method_views(ms@),
                    method,
                    k as int,
                ),
            decreases n - k,
        {
            if ms[k].0 == method {
                proof {
                    assert(method_views(ms@)[k as int] == (ms@[k as int].0, ms@[k as int].1@));
                }
                return &ms[k].1;
            }
            proof {
                assert(method_views(ms@)[k as int].0 != method);
            }
            k += 1;
        }
        proof {
            assert(method_lookup_from(method_views(ms@), method, n as int) is None);
            assert(false);
        }
        unreached()
    }
}

/// Whether the method table holds an entry for `m`.
fn method_present(ms: &Vec<(Method, RouteChain)>, m: Method) -> (r: bool)
    ensures
        r == (method_lookup(method_views(ms@), m) is Some),
{
    let n: usize = ms.len();
    let mut k: usize = 0;
    while k < n
        invariant
            n == ms@.len(),
            0 <= k <= n,
            method_lookup_from(method_views(ms@), m, 0) == method_lookup_from(
                method_views(ms@),
                m,
                k as int,
            ),
        decreases n - k,
    {
        if ms[k].0 == m {
            proof {
                assert(method_views(ms@)[k as int].0 == m);
            }
            return true;
        }
        proof {
            assert(method_views(ms@)[k as int].0 != m);
        }
        k += 1;
    }
    false
}

/// Find the literal child for `key`.
fn literal_find(lits: &Vec<(Vec<u8>, usize)>, key: &Vec<u8>) -> (r: Option<usize>)
    ensures
        (match literal_lookup(literal_views(lits@), key@) {
            Some(c) => r matches Some(rc) && rc as int == c,
            None => r is None,
        }),
{
    let n: usize = lits.len();
    let mut k: usize = 0;
    while k < n
        invariant
            n == lits@.len(),
            0 <= k <= n,
            literal_lookup_from(literal_views(lits@), key@, 0) == literal_lookup_from(
                literal_views(lits@),
                key@,
                k as int,
            ),
        decreases n - k,
    {
        if bytes_eq(&lits[k].0, key) {
            proof {
                assert(literal_views(lits@)[k as int] == (lits@[k as int].0@, lits@[k as int].1 as int));
            }
            return Some(lits[k].1);
        }
        proof {
            assert(literal_views(lits@)[k as int].0 != key@);
        }
        k += 1;
    }
    None
}

/// `segs[i..]` re-joined with `/`.
fn join_tail(segs: &Vec<Vec<u8>>, i: usize) -> (r: Vec<u8>)
    requires
        i <= segs@.len(),
    ensures
        r@ == join_from(views(segs@), i as int),
    decreases segs@.len() - i,
{
    if i == segs.len() {
        proof {
            assert(join_from(views(segs@), i as int) =~= Seq::<u8>::empty());
        }
        Vec::new()
    } else if i + 1 == segs.len() {
        proof {
            assert(views(segs@)[i as int] == segs@[i as int]@);
        }
        copy_bytes(&segs[i])
    } else {
        let mut r = copy_bytes(&segs[i]);
        r.push(SLASH);
        let mut rest = join_tail(segs, i + 1);
        r.append(&mut rest);
        proof {
            assert(views(segs@)[i as int] == segs@[i as int]@);
            assert(r@ =~= views(segs@)[i as int] + seq![SLASH] + join_from(views(segs@), i as int + 1));
        }
        r
    }
}

/// The walk of the trie, literal first, then named, then wildcard, with
/// backtracking; parameters are assembled on the way back out, so they read
/// left to right.
fn match_at(nodes: &Vec<Node>, n: usize, segs: &Vec<Vec<u8>>, i: usize) -> (r: Option<
    (usize, Vec<(Vec<u8>, Vec<u8>)>),
>)
    requires
        nodes_wf(node_views(nodes@)),
        (n as int) < nodes@.len(),
        i <= segs@.len(),
    ensures
        (match model_match_at(node_views(nodes@), n as int, views(segs@), i as int) {
            Some(t) => r matches Some(rr) && rr.0 as int == t.0 && pair_views(rr.1@) == t.1,
            None => r is None,
        }),
    decreases segs@.len() - i,
{
    proof {
        assert(node_views(nodes@)[n as int] == nodes@[n as int]@);
    }
    if i == segs.len() {
        if nodes[n].methods.len() > 0 {
            let ps: Vec<(Vec<u8>, Vec<u8>)> = Vec::new();
            proof {
                assert(pair_views(ps@) =~= Seq::<(Seq<u8>, Seq<u8>)>::empty());
            }
            Some((n, ps))
        } else {
            None
        }
    } else {
        proof {
            assert(views(segs@)[i as int] == segs@[i as int]@);
        }
        // literal child first
        match literal_find(&nodes[n].literals, &segs[i]) {
            Some(c) => {
                proof {
                    lemma_literal_lookup_in_bounds(
                        node_views(nodes@),
                        node_views(nodes@)[n as int],
                        views(segs@)[i as int],
                        0,
                    );
                }
                let deeper = match_at(nodes, c, segs, i + 1);
                if deeper.is_some() {
                    return deeper;
                }
            },
            None => {},
        }
        // then the named child, binding this segment
        let named_child = match &nodes[n].named {
            Some(p) => Some((copy_bytes(&p.0), p.1)),
            None => None,
        };
        match named_child {
            Some((pname, c)) => {
                let deeper = match_at(nodes, c, segs, i + 1);
                match deeper {
                    Some((t, mut ps)) => {
                        let ghost inner_views = pair_views(ps@);
                        ps.insert(0, (pname, copy_bytes(&segs[i])));
                        proof {
                            assert(pair_views(ps@) =~= seq![
                                (node_views(nodes@)[n as int].named->Some_0.0, views(segs@)[i as int]),
                            ] + inner_views);
                        }
                        return Some((t, ps));
                    },
                    None => {},
                }
            },
            None => {},
        }
        // finally the wildcard child, consuming the remainder
        let wild_child = match &nodes[n].wildcard {
            Some(p) => Some((copy_bytes(&p.0), p.1)),
            None => None,
        };
        match wild_child {
            Some((pname, c)) => {
                if nodes[c].methods.len() > 0 {
                    proof {
                        assert(node_views(nodes@)[c as int] == nodes@[c as int]@);
                    }
                    let mut ps: Vec<(Vec<u8>, Vec<u8>)> = Vec::new();
                    ps.push((pname, join_tail(segs, i)));
                    proof {
                        assert(pair_views(ps@) =~= seq![
                            (
                                node_views(nodes@)[n as int].wildcard->Some_0.0,
                                join_from(views(segs@), i as int),
                            ),
                        ]);
                    }
                    return Some((c, ps));
                }
                None
            },
            None => None,
        }
    }
}

/// Insert below node `n`, mirroring [`model_insert_at`]; on a conflict the
/// arena is left as it was.
fn insert_at(
    nodes: &mut Vec<Node>,
    n: usize,
    pat: &Vec<Segment>,
    j: usize,
    method: Method,
    chain: RouteChain,
) -> (r: Result<(), RegistrationError>)
    requires
        j <= pat@.len(),
        (n as int) < old(nodes)@.len(),
        nodes_wf(node_views(old(nodes)@)),
        crate::path::pattern_ok(segment_views(pat@)),
    ensures
        nodes_wf(node_views(final(nodes)@)),
        (match model_insert_at(
            node_views(old(nodes)@),
            n as int,
            segment_views(pat@),
            j as int,
            method,
            chain@,
        ) {
            Ok(ns) => r is Ok && node_views(final(nodes)@) == ns,
            Err(e) => (r matches Err(e2) && e2 == e) && final(nodes)@ == old(nodes)@,
        }),
    decreases pat@.len() - j,
{
    proof {
        assert(node_views(nodes@)[n as int] == nodes@[n as int]@);
    }
    if j == pat.len() {
        if method_present(&nodes[n].methods, method) {
            return Err(RegistrationError::DuplicateMethod);
        }
        nodes[n].methods.push((method, chain));
        proof {
            let before = node_views(old(nodes)@);
            let nd = before[n as int];
            assert(node_views(nodes@) =~~= before.update(
                n as int,
                NodeModel {
                    literals: nd.literals,
                    named: nd.named,
                    wildcard: nd.wildcard,
                    methods: nd.methods.push((method, chain@)),
                },
            ));
            assert(nodes_wf(node_views(nodes@)));
        }
        Ok(())
    } else {
        proof {
            assert(segment_views(pat@)[j as int] == pat@[j as int]@);
        }
        match &pat[j] {
            Segment::Literal(text) => {
                match literal_find(&nodes[n].literals, text) {
                    Some(c) => {
                        proof {
                            lemma_literal_lookup_in_bounds(
                                node_views(nodes@),
                                node_views(nodes@)[n as int],
                                text@,
                                0,
                            );
                        }
                        insert_at(nodes, c, pat, j + 1, method, chain)
                    },
                    None => {
                        let c = nodes.len();
                        nodes.push(empty_node());
                        nodes[n].literals.push((copy_bytes(text), c));
                        proof {
                            let before = node_views(old(nodes)@);
                            let nd = before[n as int];
                            let ndnew = NodeModel {
                                literals: nd.literals.push((text@, c as int)),
                                named: nd.named,
                                wildcard: nd.wildcard,
                                methods: nd.methods,
                            };
                            assert(node_views(nodes@) =~~= before.push(empty_model()).update(
                                n as int,
                                ndnew,
                            ));
                            assert(node_wf(before, nd));
                            lemma_grow_wf(before, n as int, ndnew);
                            lemma_insert_fresh_ok(
                                node_views(nodes@),
                                c as int,
                                segment_views(pat@),
                                j as int + 1,
                                method,
                                chain@,
                            );
                        }
                        insert_at(nodes, c, pat, j + 1, method, chain)
                    },
                }
            },
            Segment::Named(name) => {
                let existing = match &nodes[n].named {
                    Some(p) => Some((bytes_eq(&p.0, name), p.1)),
                    None => None,
                };
                match existing {
                    Some((same, c)) => {
                        if same {
                            insert_at(nodes, c, pat, j + 1, method, chain)
                        } else {
                            Err(RegistrationError::AmbiguousNamed)
                        }
                    },
                    None => {
                        let c = nodes.len();
                        nodes.push(empty_node());
                        nodes[n].named = Some((copy_bytes(name), c));
                        proof {
                            let before = node_views(old(nodes)@);
                            let nd = before[n as int];
                            let ndnew = NodeModel {
                                literals: nd.literals,
                                named: Some((name@, c as int)),
                                wildcard: nd.wildcard,
                                methods: nd.methods,
                            };
                            assert(node_views(nodes@) =~~= before.push(empty_model()).update(
                                n as int,
                                ndnew,
                            ));
                            assert(node_wf(before, nd));
                            lemma_grow_wf(before, n as int, ndnew);
                            lemma_insert_fresh_ok(
                                node_views(nodes@),
                                c as int,
                                segment_views(pat@),
                                j as int + 1,
                                method,
                                chain@,
                            );
                        }
                        insert_at(nodes, c, pat, j + 1, method, chain)
                    },
                }
            },
            Segment::Wildcard(name) => {
                let existing = match &nodes[n].wildcard {
                    Some(p) => Some((bytes_eq(&p.0, name), p.1)),
                    None => None,
                };
                match existing {
                    Some((same, c)) => {
                        if same {
                            insert_at(nodes, c, pat, j + 1, method, chain)
                        } else {
                            Err(RegistrationError::AmbiguousWildcard)
                        }
                    },
                    None => {
                        let c = nodes.len();
                        nodes.push(empty_node());
                        nodes[n].wildcard = Some((copy_bytes(name), c));
                        proof {
                            let before = node_views(old(nodes)@);
                            let nd = before[n as int];
                            let ndnew = NodeModel {
                                literals: nd.literals,
                                named: nd.named,
                                wildcard: Some((name@, c as int)),
                                methods: nd.methods,
                            };
                            assert(node_views(nodes@) =~~= before.push(empty_model()).update(
                                n as int,
                                ndnew,
                            ));
                            assert(node_wf(before, nd));
                            lemma_grow_wf(before, n as int, ndnew);
                            lemma_insert_fresh_ok(
                                node_views(nodes@),
                                c as int,
                                segment_views(pat@),
                                j as int + 1,
                                method,
                                chain@,
                            );
                        }
                        insert_at(nodes, c, pat, j + 1, method, chain)
                    },
                }
            },
        }
    }
}

/// Growing the arena by one fresh leaf and pointing one existing node at it
/// keeps every child index in bounds.
proof fn lemma_grow_wf(before: Seq<NodeModel>, n: int, ndnew: NodeModel)
    requires
        nodes_wf(before),
        0 <= n < before.len(),
        node_wf(before.push(empty_model()).update(n, ndnew), ndnew),
    ensures
        nodes_wf(before.push(empty_model()).update(n, ndnew)),
{
    let after = before.push(empty_model()).update(n, ndnew);
    assert forall|m: int| 0 <= m < after.len() implies node_wf(after, #[trigger] after[m]) by {
        if m == n {
        } else if m == after.len() - 1 {
            assert(after[m] == empty_model());
        } else {
            assert(before[m] == after[m]);
            assert(node_wf(before, before[m]));
            assert forall|k: int|
                0 <= k < after[m].literals.len() implies 0 <= (#[trigger] after[m].literals[k]).1
                < after.len() by {
                assert(before[m].literals[k] == after[m].literals[k]);
            }
        }
    }
}

/// Inserting the rest of a pattern below a fresh, empty node cannot
/// conflict with anything: it always succeeds.
proof fn lemma_insert_fresh_ok(
    nodes: Seq<NodeModel>,
    n: int,
    pat: Seq<SegmentModel>,
    j: int,
    method: Method,
    chain: ChainModel,
)
    requires
        0 <= n < nodes.len(),
        nodes[n] == empty_model(),
    ensures
        model_insert_at(nodes, n, pat, j, method, chain) is Ok,
    decreases pat.len() - j,
{
    if j < 0 || j >= pat.len() {
        assert(method_lookup_from(nodes[n].methods, method, 0) is None);
    } else {
        let c = nodes.len() as int;
        match pat[j] {
            SegmentModel::Literal(text) => {
                assert(literal_lookup_from(nodes[n].literals, text, 0) is None);
                let grown = nodes.push(empty_model()).update(
                    n,
                    NodeModel {
                        literals: nodes[n].literals.push((text, c)),
                        named: nodes[n].named,
                        wildcard: nodes[n].wildcard,
                        methods: nodes[n].methods,
                    },
                );
                lemma_insert_fresh_ok(grown, c, pat, j + 1, method, chain);
            },
            SegmentModel::Named(name) => {
                let grown = nodes.push(empty_model()).update(
                    n,
                    NodeModel {
                        literals: nodes[n].literals,
                        named: Some((name, c)),
                        wildcard: nodes[n].wildcard,
                        methods: nodes[n].methods,
                    },
                );
                lemma_insert_fresh_ok(grown, c, pat, j + 1, method, chain);
            },
            SegmentModel::Wildcard(name) => {
                let grown = nodes.push(empty_model()).update(
                    n,
                    NodeModel {
                        literals: nodes[n].literals,
                        named: nodes[n].named,
                        wildcard: Some((name, c)),
                        methods: nodes[n].methods,
                    },
                );
                lemma_insert_fresh_ok(grown, c, pat, j + 1, method, chain);
            },
        }
    }
}


/// Helper of the order-independence law: the table that two one-segment
/// literal registrations build, spelled out node by node.
proof fn lemma_two_literal_inserts(
    a: Seq<u8>,
    b: Seq<u8>,
    ma: Method,
    mb: Method,
    ca: ChainModel,
    cb: ChainModel,
)
    requires
        a != b,
    ensures
        model_insert_at(seq![empty_model()], 0, seq![SegmentModel::Literal(a)], 0, ma, ca)
            matches Ok(r1) && model_insert_at(r1, 0, seq![SegmentModel::Literal(b)], 0, mb, cb)
            matches Ok(r2) && r2 =~~= seq![
            NodeModel {
                literals: seq![(a, 1int), (b, 2int)],
                named: None,
                wildcard: None,
                methods: Seq::empty(),
            },
            NodeModel {
                literals: Seq::empty(),
                named: None,
                wildcard: None,
                methods: seq![(ma, ca)],
            },
            NodeModel {
                literals: Seq::empty(),
                named: None,
                wildcard: None,
                methods: seq![(mb, cb)],
            },
        ],
{
    let r0 = seq![empty_model()];
    let pa = seq![SegmentModel::Literal(a)];
    let pb = seq![SegmentModel::Literal(b)];
    let root_a = NodeModel {
        literals: seq![(a, 1int)],
        named: None,
        wildcard: None,
        methods: Seq::empty(),
    };
    let node_a = NodeModel {
        literals: Seq::empty(),
        named: None,
        wildcard: None,
        methods: seq![(ma, ca)],
    };
    let node_b = NodeModel {
        literals: Seq::empty(),
        named: None,
        wildcard: None,
        methods: seq![(mb, cb)],
    };
    // first insert: the root gains a literal child for `a`, node 1 its method
    assert(literal_lookup_from(r0[0].literals, a, 0) is None);
    let grown_a = r0.push(empty_model()).update(
        0,
        NodeModel {
            literals: r0[0].literals.push((a, 1int)),
            named: r0[0].named,
            wildcard: r0[0].wildcard,
            methods: r0[0].methods,
        },
    );
    assert(model_insert_at(r0, 0, pa, 0, ma, ca) == model_insert_at(grown_a, 1, pa, 1, ma, ca));
    assert(method_lookup_from(grown_a[1].methods, ma, 0) is None);
    let r1 = grown_a.update(
        1,
        NodeModel {
            literals: grown_a[1].literals,
            named: grown_a[1].named,
            wildcard: grown_a[1].wildcard,
            methods: grown_a[1].methods.push((ma, ca)),
        },
    );
    assert(model_insert_at(grown_a, 1, pa, 1, ma, ca) == Ok::<Seq<NodeModel>, RegistrationError>(r1));
    assert(r1 =~~= seq![root_a, node_a]);
    // second insert: the root gains a literal child for `b`, node 2 its method
    assert(literal_lookup_from(r1[0].literals, b, 1) is None);
    assert(literal_lookup_from(r1[0].literals, b, 0) is None);
    let grown_b = r1.push(empty_model()).update(
        0,
        NodeModel {
            literals: r1[0].literals.push((b, 2int)),
            named: r1[0].named,
            wildcard: r1[0].wildcard,
            methods: r1[0].methods,
        },
    );
    assert(model_insert_at(r1, 0, pb, 0, mb, cb) == model_insert_at(grown_b, 2, pb, 1, mb, cb));
    assert(method_lookup_from(grown_b[2].methods, mb, 0) is None);
    let r2 = grown_b.update(
        2,
        NodeModel {
            literals: grown_b[2].literals,
            named: grown_b[2].named,
            wildcard: grown_b[2].wildcard,
            methods: grown_b[2].methods.push((mb, cb)),
        },
    );
    assert(model_insert_at(grown_b, 2, pb, 1, mb, cb) == Ok::<Seq<NodeModel>, RegistrationError>(r2));
    assert(r2 =~~= seq![
        NodeModel {
            literals: seq![(a, 1int), (b, 2int)],
            named: None,
            wildcard: None,
            methods: Seq::empty(),
        },
        node_a,
        node_b,
    ]);
}

/// How one of the two-literal tables answers any request: the chain under
/// the matching text, a wrong-method answer for the matching text without
/// its method, and no match for every other path.
proof fn lemma_two_literal_route(
    a: Seq<u8>,
    b: Seq<u8>,
    ma: Method,
    mb: Method,
    ca: ChainModel,
    cb: ChainModel,
    m: Method,
    path: Seq<u8>,
)
    requires
        a != b,
    ensures
        ({
            let nodes = seq![
                NodeModel {
                    literals: seq![(a, 1int), (b, 2int)],
                    named: None,
                    wildcard: None,
                    methods: Seq::empty(),
                },
                NodeModel {
                    literals: Seq::empty(),
                    named: None,
                    wildcard: None,
                    methods: seq![(ma, ca)],
                },
                NodeModel {
                    literals: Seq::empty(),
                    named: None,
                    wildcard: None,
                    methods: seq![(mb, cb)],
                },
            ];
            let segs = path_segments(path);
            model_route(nodes, m, path) == (if segs.len() == 1 && segs[0] == a {
                if m == ma {
                    RouteOutcome::Matched { chain: ca, params: Seq::empty() }
                } else {
                    RouteOutcome::WrongMethod
                }
            } else if segs.len() == 1 && segs[0] == b {
                if m == mb {
                    RouteOutcome::Matched { chain: cb, params: Seq::empty() }
                } else {
                    RouteOutcome::WrongMethod
                }
            } else {
                RouteOutcome::NoPath
            })
        }),
{
    let nodes = seq![
        NodeModel {
            literals: seq![(a, 1int), (b, 2int)],
            named: None,
            wildcard: None,
            methods: Seq::empty(),
        },
        NodeModel {
            literals: Seq::empty(),
            named: None,
            wildcard: None,
            methods: seq![(ma, ca)],
        },
        NodeModel {
            literals: Seq::empty(),
            named: None,
            wildcard: None,
            methods: seq![(mb, cb)],
        },
    ];
    let segs = path_segments(path);
    if segs.len() == 0 {
        assert(model_match_at(nodes, 0, segs, 0) is None);
    } else {
        if segs[0] == a {
            assert(literal_lookup_from(nodes[0].literals, segs[0], 0) == Some(1int));
            if segs.len() == 1 {
                assert(model_match_at(nodes, 1, segs, 1) == Some((1int, Seq::<(Seq<u8>, Seq<u8>)>::empty())));
                assert(model_match_at(nodes, 0, segs, 0) == Some((1int, Seq::<(Seq<u8>, Seq<u8>)>::empty())));
                if m == ma {
                    assert(method_lookup_from(nodes[1].methods, m, 0) == Some(ca));
                } else {
                    assert(method_lookup_from(nodes[1].methods, m, 1) is None);
                    assert(method_lookup_from(nodes[1].methods, m, 0) is None);
                }
            } else {
                assert(literal_lookup_from(nodes[1].literals, segs[1], 0) is None);
                assert(model_match_at(nodes, 1, segs, 1) is None);
                assert(model_match_at(nodes, 0, segs, 0) is None);
            }
        } else if segs[0] == b {
            assert(literal_lookup_from(nodes[0].literals, segs[0], 1) == Some(2int));
            assert(literal_lookup_from(nodes[0].literals, segs[0], 0) == Some(2int));
            if segs.len() == 1 {
                assert(model_match_at(nodes, 2, segs, 1) == Some((2int, Seq::<(Seq<u8>, Seq<u8>)>::empty())));
                assert(model_match_at(nodes, 0, segs, 0) == Some((2int, Seq::<(Seq<u8>, Seq<u8>)>::empty())));
                if m == mb {
                    assert(method_lookup_from(nodes[2].methods, m, 0) == Some(cb));
                } else {
                    assert(method_lookup_from(nodes[2].methods, m, 1) is None);
                    assert(method_lookup_from(nodes[2].methods, m, 0) is None);
                }
            } else {
                assert(literal_lookup_from(nodes[2].literals, segs[1], 0) is None);
                assert(model_match_at(nodes, 2, segs, 1) is None);
                assert(model_match_at(nodes, 0, segs, 0) is None);
            }
        } else {
            assert(literal_lookup_from(nodes[0].literals, segs[0], 2) is None);
            assert(literal_lookup_from(nodes[0].literals, segs[0], 1) is None);
            assert(literal_lookup_from(nodes[0].literals, segs[0], 0) is None);
            assert(model_match_at(nodes, 0, segs, 0) is None);
        }
    }
}

/// The order-independence law for disjoint patterns, shown for one-segment
/// literal patterns with different text: registering the two routes in
/// either order yields tables that answer every request — both registered
/// paths included — identically, and both registrations succeed both ways.
pub proof fn lemma_disjoint_order_independent(
    a: Seq<u8>,
    b: Seq<u8>,
    ma: Method,
    mb: Method,
    ca: ChainModel,
    cb: ChainModel,
    m: Method,
    path: Seq<u8>,
)
    requires
        a != b,
    ensures
        model_insert_at(seq![empty_model()], 0, seq![SegmentModel::Literal(a)], 0, ma, ca)
            matches Ok(r1) && model_insert_at(r1, 0, seq![SegmentModel::Literal(b)], 0, mb, cb)
            matches Ok(r2) && model_insert_at(
            seq![empty_model()],
            0,
            seq![SegmentModel::Literal(b)],
            0,
            mb,
            cb,
        ) matches Ok(q1) && model_insert_at(q1, 0, seq![SegmentModel::Literal(a)], 0, ma, ca)
            matches Ok(q2) && model_route(r2, m, path) == model_route(q2, m, path),
{
    lemma_two_literal_inserts(a, b, ma, mb, ca, cb);
    lemma_two_literal_route(a, b, ma, mb, ca, cb, m, path);
    lemma_two_literal_inserts(b, a, mb, ma, cb, ca);
    lemma_two_literal_route(b, a, mb, ma, cb, ca, m, path);
}


/// The named-binding law: register a pattern of one literal segment
/// followed by one named segment, and every path of exactly those two
/// segments — whatever stands in the second — matches, binding the named
/// parameter to the second segment's text.
pub proof fn lemma_named_binds_segment(
    u: Seq<u8>,
    n: Seq<u8>,
    mg: Method,
    c: ChainModel,
    v: Seq<u8>,
    path: Seq<u8>,
)
    requires
        path_segments(path) == seq![u, v],
    ensures
        model_insert_at(
            seq![empty_model()],
            0,
            seq![SegmentModel::Literal(u), SegmentModel::Named(n)],
            0,
            mg,
            c,
        ) matches Ok(r) && model_route(r, mg, path) == (RouteOutcome::Matched {
            chain: c,
            params: seq![(n, v)],
        }),
{
    let r0 = seq![empty_model()];
    let pat = seq![SegmentModel::Literal(u), SegmentModel::Named(n)];
    let root = NodeModel {
        literals: seq![(u, 1int)],
        named: None,
        wildcard: None,
        methods: Seq::empty(),
    };
    let mid = NodeModel {
        literals: Seq::empty(),
        named: Some((n, 2int)),
        wildcard: None,
        methods: Seq::empty(),
    };
    let leaf = NodeModel {
        literals: Seq::empty(),
        named: None,
        wildcard: None,
        methods: seq![(mg, c)],
    };
    // build the three-node table step by step
    assert(literal_lookup_from(r0[0].literals, u, 0) is None);
    let g1 = r0.push(empty_model()).update(
        0,
        NodeModel {
            literals: r0[0].literals.push((u, 1int)),
            named: r0[0].named,
            wildcard: r0[0].wildcard,
            methods: r0[0].methods,
        },
    );
    assert(model_insert_at(r0, 0, pat, 0, mg, c) == model_insert_at(g1, 1, pat, 1, mg, c));
    let g2 = g1.push(empty_model()).update(
        1,
        NodeModel {
            literals: g1[1].literals,
            named: Some((n, 2int)),
            wildcard: g1[1].wildcard,
            methods: g1[1].methods,
        },
    );
    assert(model_insert_at(g1, 1, pat, 1, mg, c) == model_insert_at(g2, 2, pat, 2, mg, c));
    assert(method_lookup_from(g2[2].methods, mg, 0) is None);
    let r = g2.update(
        2,
        NodeModel {
            literals: g2[2].literals,
            named: g2[2].named,
            wildcard: g2[2].wildcard,
            methods: g2[2].methods.push((mg, c)),
        },
    );
    assert(model_insert_at(g2, 2, pat, 2, mg, c) == Ok::<Seq<NodeModel>, RegistrationError>(r));
    assert(r =~~= seq![root, mid, leaf]);
    // walk `[u, v]`: the literal child takes `u`, the named child binds `v`
    let segs = path_segments(path);
    assert(segs[0] == u && segs[1] == v && segs.len() == 2);
    assert(literal_lookup_from(r[0].literals, segs[0], 0) == Some(1int));
    assert(model_match_at(r, 2, segs, 2) == Some((2int, Seq::<(Seq<u8>, Seq<u8>)>::empty())));
    assert(literal_lookup_from(r[1].literals, segs[1], 0) is None);
    assert(seq![(n, segs[1])] + Seq::<(Seq<u8>, Seq<u8>)>::empty() =~= seq![(n, v)]);
    assert(model_match_at(r, 1, segs, 1) == Some((2int, seq![(n, v)])));
    assert(model_match_at(r, 0, segs, 0) == Some((2int, seq![(n, v)])));
    assert(method_lookup_from(r[2].methods, mg, 0) == Some(c));
}

/// The wildcard-binding law: register a pattern of one literal segment
/// followed by a wildcard, and every path that starts with that literal and
/// has at least one further segment matches, binding the wildcard parameter
/// to the whole remainder re-joined with `/`.
pub proof fn lemma_wildcard_binds_remainder(
    f: Seq<u8>,
    w: Seq<u8>,
    mg: Method,
    c: ChainModel,
    path: Seq<u8>,
)
    requires
        path_segments(path).len() >= 2,
        path_segments(path)[0] == f,
    ensures
        model_insert_at(
            seq![empty_model()],
            0,
            seq![SegmentModel::Literal(f), SegmentModel::Wildcard(w)],
            0,
            mg,
            c,
        ) matches Ok(r) && model_route(r, mg, path) == (RouteOutcome::Matched {
            chain: c,
            params: seq![(w, join_from(path_segments(path), 1))],
        }),
{
    let r0 = seq![empty_model()];
    let pat = seq![SegmentModel::Literal(f), SegmentModel::Wildcard(w)];
    let root = NodeModel {
        literals: seq![(f, 1int)],
        named: None,
        wildcard: None,
        methods: Seq::empty(),
    };
    let mid = NodeModel {
        literals: Seq::empty(),
        named: None,
        wildcard: Some((w, 2int)),
        methods: Seq::empty(),
    };
    let leaf = NodeModel {
        literals: Seq::empty(),
        named: None,
        wildcard: None,
        methods: seq![(mg, c)],
    };
    assert(literal_lookup_from(r0[0].literals, f, 0) is None);
    let g1 = r0.push(empty_model()).update(
        0,
        NodeModel {
            literals: r0[0].literals.push((f, 1int)),
            named: r0[0].named,
            wildcard: r0[0].wildcard,
            methods: r0[0].methods,
        },
    );
    assert(model_insert_at(r0, 0, pat, 0, mg, c) == model_insert_at(g1, 1, pat, 1, mg, c));
    let g2 = g1.push(empty_model()).update(
        1,
        NodeModel {
            literals: g1[1].literals,
            named: g1[1].named,
            wildcard: Some((w, 2int)),
            methods: g1[1].methods,
        },
    );
    assert(model_insert_at(g1, 1, pat, 1, mg, c) == model_insert_at(g2, 2, pat, 2, mg, c));
    assert(method_lookup_from(g2[2].methods, mg, 0) is None);
    let r = g2.update(
        2,
        NodeModel {
            literals: g2[2].literals,
            named: g2[2].named,
            wildcard: g2[2].wildcard,
            methods: g2[2].methods.push((mg, c)),
        },
    );
    assert(model_insert_at(g2, 2, pat, 2, mg, c) == Ok::<Seq<NodeModel>, RegistrationError>(r));
    assert(r =~~= seq![root, mid, leaf]);
    // walk: the literal child takes the first segment; the wildcard child
    // consumes the non-empty remainder
    let segs = path_segments(path);
    assert(literal_lookup_from(r[0].literals, segs[0], 0) == Some(1int));
    assert(literal_lookup_from(r[1].literals, segs[1], 0) is None);
    assert(model_match_at(r, 1, segs, 1) == Some((2int, seq![(w, join_from(segs, 1))])));
    assert(model_match_at(r, 0, segs, 0) == Some((2int, seq![(w, join_from(segs, 1))])));
    assert(method_lookup_from(r[2].methods, mg, 0) == Some(c));
}

/// The ambiguity law: two different named-segment names at the same trie
/// position conflict at registration time, whichever is registered first
/// (shown for one-segment named patterns under an empty table).
pub proof fn lemma_ambiguous_either_order(
    a: Seq<u8>,
    b: Seq<u8>,
    ma: Method,
    mb: Method,
    ca: ChainModel,
    cb: ChainModel,
)
    requires
        a != b,
    ensures
        model_insert_at(seq![empty_model()], 0, seq![SegmentModel::Named(a)], 0, ma, ca)
            matches Ok(r1) && model_insert_at(r1, 0, seq![SegmentModel::Named(b)], 0, mb, cb)
            == Err::<Seq<NodeModel>, RegistrationError>(RegistrationError::AmbiguousNamed),
        model_insert_at(seq![empty_model()], 0, seq![SegmentModel::Named(b)], 0, mb, cb)
            matches Ok(q1) && model_insert_at(q1, 0, seq![SegmentModel::Named(a)], 0, ma, ca)
            == Err::<Seq<NodeModel>, RegistrationError>(RegistrationError::AmbiguousNamed),
{
    lemma_one_named_insert(a, ma, ca);
    lemma_one_named_insert(b, mb, cb);
}

/// Helper of the ambiguity law: the table one one-segment named
/// registration builds, and that any differently-named registration at the
/// same position then conflicts.
proof fn lemma_one_named_insert(a: Seq<u8>, ma: Method, ca: ChainModel)
    ensures
        model_insert_at(seq![empty_model()], 0, seq![SegmentModel::Named(a)], 0, ma, ca)
            matches Ok(r1) && r1[0].named == Some((a, 1int)) && forall|b: Seq<u8>, mb: Method, cb: ChainModel|
            b != a ==> model_insert_at(r1, 0, seq![SegmentModel::Named(b)], 0, mb, cb) == Err::<
                Seq<NodeModel>,
                RegistrationError,
            >(RegistrationError::AmbiguousNamed),
{
    let r0 = seq![empty_model()];
    let pa = seq![SegmentModel::Named(a)];
    let grown = r0.push(empty_model()).update(
        0,
        NodeModel {
            literals: r0[0].literals,
            named: Some((a, 1int)),
            wildcard: r0[0].wildcard,
            methods: r0[0].methods,
        },
    );
    assert(model_insert_at(r0, 0, pa, 0, ma, ca) == model_insert_at(grown, 1, pa, 1, ma, ca));
    assert(method_lookup_from(grown[1].methods, ma, 0) is None);
    let r1 = grown.update(
        1,
        NodeModel {
            literals: grown[1].literals,
            named: grown[1].named,
            wildcard: grown[1].wildcard,
            methods: grown[1].methods.push((ma, ca)),
        },
    );
    assert(model_insert_at(grown, 1, pa, 1, ma, ca) == Ok::<Seq<NodeModel>, RegistrationError>(r1));
    assert(r1[0].named == Some((a, 1int)));
    assert forall|b: Seq<u8>, mb: Method, cb: ChainModel| b != a implies model_insert_at(
        r1,
        0,
        seq![SegmentModel::Named(b)],
        0,
        mb,
        cb,
    ) == Err::<Seq<NodeModel>, RegistrationError>(RegistrationError::AmbiguousNamed) by {
        assert(seq![SegmentModel::Named(b)][0] == SegmentModel::Named(b));
    }
}

} // verus!
