//! The dependency graph: one node per component, one edge per
//! resolved input reference.
//!
//! Construction parses every post-glob input string into a component
//! and an optional port, substitutes expanded components by their
//! replacements' default outputs, and verifies that the producer
//! exists (and, for a named port, that the port is declared).  Any
//! unresolved reference fails construction as a whole.  The type check
//! and the cycle check then run over the finished edge set.

use vstd::prelude::*;
use crate::config::{DataKind, KindSet, Output, SinkOuter, SourceOuter, TransformOuter};
use crate::cycles::{find_cycle, has_pair, is_cycle, spec_acyclic};
use crate::expand::vec_key_views;
use crate::id::{port_eq, port_view, spec_render, ComponentKey, OutputId};
use crate::inputs::{push_dedup_oid, Inputs};
use crate::messages::{str_views, mk_cycle, mk_invalid_port, mk_type_mismatch, mk_unknown_input,
    msg_cycle, msg_invalid_port, msg_type_mismatch, msg_unknown_input, push_err};
use crate::omap::{seq_get, OMap};
use crate::strutil::{contains_dot, split_at_last_dot};

verus! {

/// The view of a producer emission point.
pub type OidView = (Seq<char>, Option<Seq<char>>);

/// What a node is, with what the type check needs of it.
pub enum NodeRole {
    Source { outputs: Vec<Output> },
    Transform { input: KindSet, outputs: Vec<Output> },
    Sink { input: KindSet, acks: bool },
}

/// One component in the graph.
pub struct Node {
    pub key: ComponentKey,
    pub role: NodeRole,
}

/// One dependency: the producer node's emission point feeding the
/// consumer node.
pub struct Edge {
    pub from: usize,
    pub port: Option<String>,
    pub to: usize,
}

/// The directed dependency graph.
pub struct Graph {
    pub nodes: Vec<Node>,
    pub edges: Vec<Edge>,
}

/// Whether the node can produce output.
pub open spec fn is_producer(n: Node) -> bool {
    match n.role {
        NodeRole::Sink { .. } => false,
        _ => true,
    }
}

/// The outputs a node declares.
pub open spec fn spec_node_outputs(n: Node) -> Seq<Output> {
    match n.role {
        NodeRole::Source { outputs } => outputs@,
        NodeRole::Transform { outputs, .. } => outputs@,
        NodeRole::Sink { .. } => Seq::empty(),
    }
}

/// What the node accepts, if it consumes at all.
pub open spec fn spec_node_accepts(n: Node) -> Option<KindSet> {
    match n.role {
        NodeRole::Source { .. } => None,
        NodeRole::Transform { input, .. } => Some(input),
        NodeRole::Sink { input, .. } => Some(input),
    }
}

/// The first producer node carrying the key, scanning from the front.
pub open spec fn spec_find_producer(nodes: Seq<Node>, k: Seq<char>) -> Option<int>
    decreases nodes.len(),
{
    if nodes.len() == 0 {
        None
    } else if is_producer(nodes[0]) && nodes[0].key@ == k {
        Some(0int)
    } else {
        match spec_find_producer(nodes.drop_first(), k) {
            Some(i) => Some(i + 1),
            None => None,
        }
    }
}

pub proof fn lemma_find_producer_props(nodes: Seq<Node>, k: Seq<char>)
    ensures
        match spec_find_producer(nodes, k) {
            Some(i) => {
                &&& 0 <= i < nodes.len()
                &&& is_producer(nodes[i])
                &&& nodes[i].key@ == k
                &&& forall|j: int| 0 <= j < i ==> !(is_producer(#[trigger] nodes[j]) && nodes[j].key@ == k)
            },
            None => forall|j: int|
                0 <= j < nodes.len() ==> !(is_producer(#[trigger] nodes[j]) && nodes[j].key@ == k),
        },
    decreases nodes.len(),
{
    if nodes.len() > 0 {
        lemma_find_producer_props(nodes.drop_first(), k);
        if !(is_producer(nodes[0]) && nodes[0].key@ == k) {
            match spec_find_producer(nodes.drop_first(), k) {
                Some(i0) => {
                    assert forall|j: int| 0 <= j < i0 + 1 implies !(is_producer(
                        #[trigger] nodes[j],
                    ) && nodes[j].key@ == k) by {
                        if j > 0 {
                            assert(nodes.drop_first()[j - 1] == nodes[j]);
                        }
                    }
                },
                None => {
                    assert forall|j: int| 0 <= j < nodes.len() implies !(is_producer(
                        #[trigger] nodes[j],
                    ) && nodes[j].key@ == k) by {
                        if j > 0 {
                            assert(nodes.drop_first()[j - 1] == nodes[j]);
                        }
                    }
                },
            }
        }
    }
}

/// Whether the node declares an output with the given port.
pub open spec fn spec_declares_port(n: Node, p: Option<Seq<char>>) -> bool {
    exists|j: int|
        0 <= j < spec_node_outputs(n).len() && port_view(&spec_node_outputs(n)[j].port) == p
}

/// The last-dot split of a dotted reference: the text before the last
/// `.` and the dot-free text after it.
pub open spec fn spec_split_dot(s: Seq<char>) -> (Seq<char>, Seq<char>) {
    let i = choose|i: int|
        0 <= i < s.len() && s[i] == '.' && !s.subrange(i + 1, s.len() as int).contains('.');
    (s.take(i), s.subrange(i + 1, s.len() as int))
}

pub proof fn lemma_split_dot_agrees(s: Seq<char>, pre: Seq<char>, suf: Seq<char>)
    requires
        s =~= pre + seq!['.'] + suf,
        !suf.contains('.'),
    ensures
        spec_split_dot(s) == (pre, suf),
        s.contains('.'),
{
    let ip = pre.len() as int;
    assert(s[ip] == '.');
    assert(s.subrange(ip + 1, s.len() as int) =~= suf);
    assert(0 <= ip < s.len() && s[ip] == '.' && !s.subrange(ip + 1, s.len() as int).contains('.'));
    let i = choose|i: int|
        0 <= i < s.len() && s[i] == '.' && !s.subrange(i + 1, s.len() as int).contains('.');
    if i != ip {
        if i < ip {
            assert(s.subrange(i + 1, s.len() as int)[ip - i - 1] == '.');
            assert(s.subrange(i + 1, s.len() as int).contains('.'));
        } else {
            assert(s.subrange(ip + 1, s.len() as int)[i - ip - 1] == '.');
            assert(s.subrange(ip + 1, s.len() as int).contains('.'));
        }
    }
    assert(s.take(ip) =~= pre);
    assert(seq![s[ip]].push('.')[0] == '.');
}

/// Parsing a reference: a whole-string producer match wins; otherwise
/// the text splits at the last dot into component and port; a dotless
/// unknown name stays a bare component.
pub open spec fn spec_parse(nodes: Seq<Node>, input: Seq<char>) -> (Seq<char>, Option<Seq<char>>) {
    if spec_find_producer(nodes, input) is Some {
        (input, None)
    } else if input.contains('.') {
        let (p, q) = spec_split_dot(input);
        (p, Some(q))
    } else {
        (input, None)
    }
}

/// Resolving the replacement keys of an expanded component: every
/// replacement's default output, or the first missing one as an error.
pub open spec fn spec_fanout(
    nodes: Seq<Node>,
    keys: Seq<Seq<char>>,
    consumer: Seq<char>,
    input: Seq<char>,
    n: int,
) -> Result<Seq<OidView>, Seq<char>>
    decreases n,
{
    if n <= 0 {
        Ok(Seq::empty())
    } else {
        match spec_fanout(nodes, keys, consumer, input, n - 1) {
            Err(e) => Err(e),
            Ok(prev) => {
                if spec_find_producer(nodes, keys[n - 1]) is Some {
                    Ok(prev.push((keys[n - 1], None::<Seq<char>>)))
                } else {
                    Err(msg_unknown_input(consumer, input))
                }
            },
        }
    }
}

pub proof fn lemma_fanout_err(
    nodes: Seq<Node>,
    keys: Seq<Seq<char>>,
    consumer: Seq<char>,
    input: Seq<char>,
    k: int,
    n: int,
)
    requires
        0 <= k < n <= keys.len(),
        spec_fanout(nodes, keys, consumer, input, k) is Ok,
        spec_find_producer(nodes, keys[k]) is None,
    ensures
        spec_fanout(nodes, keys, consumer, input, n) == Err::<Seq<OidView>, Seq<char>>(
            msg_unknown_input(consumer, input),
        ),
    decreases n,
{
    if n - 1 > k {
        lemma_fanout_err(nodes, keys, consumer, input, k, n - 1);
    }
}

/// Resolving one post-glob input reference of a consumer.
pub open spec fn spec_resolve_entry(
    nodes: Seq<Node>,
    expkv: Seq<(Seq<char>, Vec<ComponentKey>)>,
    consumer: Seq<char>,
    input: Seq<char>,
) -> Result<Seq<OidView>, Seq<char>> {
    let (comp, port) = spec_parse(nodes, input);
    match seq_get(expkv, comp) {
        Some(reps) => spec_fanout(
            nodes,
            vec_key_views(reps),
            consumer,
            input,
            vec_key_views(reps).len() as int,
        ),
        None => match spec_find_producer(nodes, comp) {
            None => Err(msg_unknown_input(consumer, input)),
            Some(i) => match port {
                None => Ok(seq![(comp, None::<Seq<char>>)]),
                Some(p) => {
                    if spec_declares_port(nodes[i], Some(p)) {
                        Ok(seq![(comp, Some(p))])
                    } else {
                        Err(msg_invalid_port(consumer, input, p))
                    }
                },
            },
        },
    }
}

/// The emission points tagged with their consumer.
pub open spec fn tag_consumer(s: Seq<OidView>, c: Seq<char>) -> Seq<(OidView, Seq<char>)> {
    s.map_values(|o: OidView| (o, c))
}

/// The edge list and error list from one consumer's first `n` inputs.
pub open spec fn spec_resolve_list(
    nodes: Seq<Node>,
    expkv: Seq<(Seq<char>, Vec<ComponentKey>)>,
    consumer: Seq<char>,
    inputs: Seq<Seq<char>>,
    n: int,
) -> (Seq<(OidView, Seq<char>)>, Seq<Seq<char>>)
    decreases n,
{
    if n <= 0 {
        (Seq::empty(), Seq::empty())
    } else {
        let prev = spec_resolve_list(nodes, expkv, consumer, inputs, n - 1);
        match spec_resolve_entry(nodes, expkv, consumer, inputs[n - 1]) {
            Ok(oids) => (prev.0 + tag_consumer(oids, consumer), prev.1),
            Err(e) => (prev.0, prev.1.push(e)),
        }
    }
}


/// Resolution over all consumers: the transforms' edges and errors,
/// then the sinks'.
pub open spec fn spec_resolve_transforms(
    nodes: Seq<Node>,
    expkv: Seq<(Seq<char>, Vec<ComponentKey>)>,
    tkv: Seq<(Seq<char>, TransformOuter<String>)>,
    n: int,
) -> (Seq<(OidView, Seq<char>)>, Seq<Seq<char>>)
    decreases n,
{
    if n <= 0 {
        (Seq::empty(), Seq::empty())
    } else {
        let prev = spec_resolve_transforms(nodes, expkv, tkv, n - 1);
        let one = spec_resolve_list(
            nodes,
            expkv,
            tkv[n - 1].0,
            tkv[n - 1].1.inputs.views(),
            tkv[n - 1].1.inputs.views().len() as int,
        );
        (prev.0 + one.0, prev.1 + one.1)
    }
}

pub open spec fn spec_resolve_sinks(
    nodes: Seq<Node>,
    expkv: Seq<(Seq<char>, Vec<ComponentKey>)>,
    kkv: Seq<(Seq<char>, SinkOuter<String>)>,
    n: int,
) -> (Seq<(OidView, Seq<char>)>, Seq<Seq<char>>)
    decreases n,
{
    if n <= 0 {
        (Seq::empty(), Seq::empty())
    } else {
        let prev = spec_resolve_sinks(nodes, expkv, kkv, n - 1);
        let one = spec_resolve_list(
            nodes,
            expkv,
            kkv[n - 1].0,
            kkv[n - 1].1.inputs.views(),
            kkv[n - 1].1.inputs.views().len() as int,
        );
        (prev.0 + one.0, prev.1 + one.1)
    }
}

/// Whether the node list is the builder's components in declaration
/// order: sources, then transforms, then sinks.
pub open spec fn nodes_match(
    nodes: Seq<Node>,
    skv: Seq<(Seq<char>, SourceOuter)>,
    tkv: Seq<(Seq<char>, TransformOuter<String>)>,
    kkv: Seq<(Seq<char>, SinkOuter<String>)>,
) -> bool {
    &&& nodes.len() == skv.len() + tkv.len() + kkv.len()
    &&& (forall|i: int|
        0 <= i < skv.len() ==> (#[trigger] nodes[i]).key@ == skv[i].0 && (nodes[i].role matches
            NodeRole::Source { .. }) && spec_node_outputs(nodes[i]) =~= skv[i].1.inner.outputs@)
    &&& (forall|i: int|
        0 <= i < tkv.len() ==> (#[trigger] nodes[skv.len() + i]).key@ == tkv[i].0 && (nodes[skv.len()
            + i].role matches NodeRole::Transform { .. }) && spec_node_outputs(
            nodes[skv.len() + i],
        ) =~= tkv[i].1.inner.outputs@ && spec_node_accepts(nodes[skv.len() + i]) == Some(
            tkv[i].1.inner.input,
        ))
    &&& (forall|i: int|
        0 <= i < kkv.len() ==> (#[trigger] nodes[skv.len() + tkv.len() + i]).key@ == kkv[i].0
            && (nodes[skv.len() + tkv.len() + i].role matches NodeRole::Sink { .. })
            && spec_node_accepts(nodes[skv.len() + tkv.len() + i]) == Some(kkv[i].1.inner.input)
            && node_acks(nodes[skv.len() + tkv.len() + i]) == Some(kkv[i].1.inner.acks))
}

/// The sink's acknowledgement capability, if the node is a sink.
pub open spec fn node_acks(n: Node) -> Option<bool> {
    match n.role {
        NodeRole::Sink { acks, .. } => Some(acks),
        _ => None,
    }
}

/// Whether one edge realises one resolved reference.
pub open spec fn edge_matches(nodes: Seq<Node>, e: Edge, ev: (OidView, Seq<char>)) -> bool {
    &&& (e.from as int) < nodes.len()
    &&& (e.to as int) < nodes.len()
    &&& is_producer(nodes[e.from as int])
    &&& nodes[e.from as int].key@ == ev.0.0
    &&& port_view(&e.port) == ev.0.1
    &&& nodes[e.to as int].key@ == ev.1
}

pub open spec fn edges_match(nodes: Seq<Node>, es: Seq<Edge>, evs: Seq<(OidView, Seq<char>)>) -> bool {
    &&& es.len() == evs.len()
    &&& forall|k: int| 0 <= k < es.len() ==> edge_matches(nodes, #[trigger] es[k], evs[k])
}

/// Appending one matched edge keeps the whole list matched.
pub proof fn lemma_edges_match_push(
    nodes: Seq<Node>,
    es: Seq<Edge>,
    evs: Seq<(OidView, Seq<char>)>,
    e: Edge,
    ev: (OidView, Seq<char>),
)
    requires
        edges_match(nodes, es, evs),
        edge_matches(nodes, e, ev),
    ensures
        edges_match(nodes, es.push(e), evs.push(ev)),
{
    assert forall|k: int|
        0 <= k < es.push(e).len() implies edge_matches(
        nodes,
        #[trigger] es.push(e)[k],
        evs.push(ev)[k],
    ) by {
        if k < es.len() {
            assert(es.push(e)[k] == es[k]);
            assert(evs.push(ev)[k] == evs[k]);
        }
    }
}

/// A copy of an output list with equal entries.
fn dup_outputs(v: &Vec<Output>) -> (r: Vec<Output>)
    ensures
        r@ =~= v@,
{
    let mut r: Vec<Output> = Vec::new();
    let n = v.len();
    for i in 0..n
        invariant
            n == v@.len(),
            r@.len() == i,
            forall|j: int| 0 <= j < i ==> r@[j] == v@[j],
    {
        let o = Output {
            port: match &v[i].port {
                Some(p) => Some(p.clone()),
                None => None,
            },
            kind: v[i].kind,
        };
        proof {
            assert(o == v@[i as int]);
        }
        r.push(o);
    }
    r
}

/// The first producer node carrying the key.
fn find_producer(nodes: &Vec<Node>, k: &String) -> (r: Option<usize>)
    ensures
        match r {
            Some(i) => spec_find_producer(nodes@, k@) == Some(i as int) && i < nodes@.len()
                && is_producer(nodes@[i as int]) && nodes@[i as int].key@ == k@,
            None => spec_find_producer(nodes@, k@) is None,
        },
{
    proof {
        lemma_find_producer_props(nodes@, k@);
    }
    let n = nodes.len();
    for i in 0..n
        invariant
            n == nodes@.len(),
            forall|j: int|
                0 <= j < i ==> !(is_producer(#[trigger] nodes@[j]) && nodes@[j].key@ == k@),
    {
        let prod = match &nodes[i].role {
            NodeRole::Sink { .. } => false,
            _ => true,
        };
        if prod && nodes[i].key.id == *k {
            proof {
                lemma_find_producer_props(nodes@, k@);
                if spec_find_producer(nodes@, k@) is None {
                    assert(false);
                }
                let fi = spec_find_producer(nodes@, k@)->Some_0;
                if fi < i as int {
                    assert(is_producer(nodes@[fi]) && nodes@[fi].key@ == k@);
                    assert(false);
                }
                if fi > i as int {
                    assert(!(is_producer(nodes@[i as int]) && nodes@[i as int].key@ == k@));
                    assert(false);
                }
            }
            return Some(i);
        }
    }
    proof {
        lemma_find_producer_props(nodes@, k@);
        if spec_find_producer(nodes@, k@) is Some {
            let fi = spec_find_producer(nodes@, k@)->Some_0;
            assert(is_producer(nodes@[fi]) && nodes@[fi].key@ == k@);
            assert(false);
        }
    }
    None
}

/// Whether the node declares an output with the given port.
fn declares_port(node: &Node, p: &Option<String>) -> (r: bool)
    ensures
        r == spec_declares_port(*node, port_view(p)),
{
    let outs: &Vec<Output> = match &node.role {
        NodeRole::Source { outputs } => outputs,
        NodeRole::Transform { outputs, .. } => outputs,
        NodeRole::Sink { .. } => {
            proof {
                assert(spec_node_outputs(*node) =~= Seq::<Output>::empty());
            }
            return false;
        },
    };
    proof {
        assert(outs@ == spec_node_outputs(*node));
    }
    let m = outs.len();
    for j in 0..m
        invariant
            m == outs@.len(),
            outs@ == spec_node_outputs(*node),
            forall|jj: int| 0 <= jj < j ==> port_view(&outs@[jj].port) != port_view(p),
    {
        if port_eq(&outs[j].port, p) {
            return true;
        }
    }
    false
}

/// Resolves one input reference into producer emission points, by
/// node index.
pub(crate) fn resolve_entry(
    nodes: &Vec<Node>,
    expansions: &OMap<Vec<ComponentKey>>,
    consumer: &ComponentKey,
    input: &String,
) -> (r: Result<Vec<(usize, Option<String>)>, String>)
    ensures
        match r {
            Ok(oids) => {
                &&& spec_resolve_entry(nodes@, expansions.kv_seq(), consumer@, input@) matches Ok(s)
                &&& oids@.len() == s.len()
                &&& forall|k: int|
                    0 <= k < oids@.len() ==> {
                        &&& (#[trigger] oids@[k]).0 < nodes@.len()
                        &&& is_producer(nodes@[oids@[k].0 as int])
                        &&& nodes@[oids@[k].0 as int].key@ == s[k].0
                        &&& port_view(&oids@[k].1) == s[k].1
                    }
            },
            Err(e) => {
                &&& spec_resolve_entry(nodes@, expansions.kv_seq(), consumer@, input@) matches Err(m)
                &&& e@ == m
            },
        },
{
    let ghost sr = spec_resolve_entry(nodes@, expansions.kv_seq(), consumer@, input@);
    let whole = find_producer(nodes, input);
    let (comp, port): (String, Option<String>) = if whole.is_some() {
        (input.clone(), None)
    } else if contains_dot(input.as_str()) {
        match split_at_last_dot(input.as_str()) {
            Some(parts) => {
                proof {
                    lemma_split_dot_agrees(input@, parts.0@, parts.1@);
                }
                (parts.0, Some(parts.1))
            },
            None => {
                proof {
                    assert(false);
                }
                (input.clone(), None)
            },
        }
    } else {
        (input.clone(), None)
    };
    proof {
        assert((comp@, port_view(&port)) == spec_parse(nodes@, input@));
    }
    let comp_key = ComponentKey { id: comp };
    match expansions.get(&comp_key) {
        Some(reps) => {
            let ghost keys = vec_key_views(*reps);
            let mut oids: Vec<(usize, Option<String>)> = Vec::new();
            let rn = reps.len();
            for k in 0..rn
                invariant
                    rn == keys.len(),
                    keys == vec_key_views(*reps),
                    rn == reps@.len(),
                    sr == spec_fanout(nodes@, keys, consumer@, input@, rn as int),
                    sr == spec_resolve_entry(nodes@, expansions.kv_seq(), consumer@, input@),
                    spec_fanout(nodes@, keys, consumer@, input@, k as int) matches Ok(pre),
                    ({
                        let pre = spec_fanout(nodes@, keys, consumer@, input@, k as int)->Ok_0;
                        &&& oids@.len() == pre.len()
                        &&& forall|t: int|
                            0 <= t < oids@.len() ==> {
                                &&& (#[trigger] oids@[t]).0 < nodes@.len()
                                &&& is_producer(nodes@[oids@[t].0 as int])
                                &&& nodes@[oids@[t].0 as int].key@ == pre[t].0
                                &&& port_view(&oids@[t].1) == pre[t].1
                            }
                    }),
            {
                proof {
                    assert(keys[k as int] == reps@[k as int]@);
                }
                match find_producer(nodes, &reps[k].id) {
                    Some(idx) => {
                        oids.push((idx, None));
                    },
                    None => {
                        proof {
                            lemma_fanout_err(nodes@, keys, consumer@, input@, k as int, rn as int);
                        }
                        return Err(mk_unknown_input(consumer.id(), input.as_str()));
                    },
                }
            }
            Ok(oids)
        },
        None => {
            match find_producer(nodes, &comp_key.id) {
                None => Err(mk_unknown_input(consumer.id(), input.as_str())),
                Some(i) => {
                    match port {
                        None => {
                            let mut one: Vec<(usize, Option<String>)> = Vec::new();
                            one.push((i, None));
                            Ok(one)
                        },
                        Some(p) => {
                            if declares_port(&nodes[i], &Some(p.clone())) {
                                let mut one: Vec<(usize, Option<String>)> = Vec::new();
                                let ghost pv = p@;
                                one.push((i, Some(p)));
                                Ok(one)
                            } else {
                                Err(mk_invalid_port(consumer.id(), input.as_str(), p.as_str()))
                            }
                        },
                    }
                },
            }
        },
    }
}


/// The kind emitted at a port: the first declared output that carries
/// it.
pub open spec fn spec_output_kind(outs: Seq<Output>, p: Option<Seq<char>>) -> Option<DataKind>
    decreases outs.len(),
{
    if outs.len() == 0 {
        None
    } else if port_view(&outs[0].port) == p {
        Some(outs[0].kind)
    } else {
        spec_output_kind(outs.drop_first(), p)
    }
}

pub proof fn lemma_output_kind_none(outs: Seq<Output>, p: Option<Seq<char>>)
    requires
        forall|j: int| 0 <= j < outs.len() ==> port_view(&(#[trigger] outs[j]).port) != p,
    ensures
        spec_output_kind(outs, p) is None,
    decreases outs.len(),
{
    if outs.len() > 0 {
        lemma_output_kind_none(outs.drop_first(), p);
    }
}

pub proof fn lemma_output_kind_found(outs: Seq<Output>, p: Option<Seq<char>>, i: int)
    requires
        0 <= i < outs.len(),
        port_view(&outs[i].port) == p,
        forall|j: int| 0 <= j < i ==> port_view(&(#[trigger] outs[j]).port) != p,
    ensures
        spec_output_kind(outs, p) == Some(outs[i].kind),
    decreases i,
{
    if i > 0 {
        lemma_output_kind_found(outs.drop_first(), p, i - 1);
    }
}

/// The type-mismatch errors over the first `n` edges: a producer kind
/// outside the consumer's accepted set.
pub open spec fn spec_typecheck_errors(nodes: Seq<Node>, edges: Seq<Edge>, n: int) -> Seq<Seq<char>>
    decreases n,
{
    if n <= 0 {
        Seq::empty()
    } else {
        let rest = spec_typecheck_errors(nodes, edges, n - 1);
        let e = edges[n - 1];
        let kind = spec_output_kind(spec_node_outputs(nodes[e.from as int]), port_view(&e.port));
        let acc = spec_node_accepts(nodes[e.to as int]);
        match (kind, acc) {
            (Some(k), Some(ks)) => {
                if !ks.spec_contains(k) {
                    rest.push(
                        msg_type_mismatch(
                            spec_render(nodes[e.from as int].key@, port_view(&e.port)),
                            nodes[e.to as int].key@,
                        ),
                    )
                } else {
                    rest
                }
            },
            _ => rest,
        }
    }
}


/// Every adjacency entry is a real edge target of its list's node.
pub open spec fn adj_sound(adjv: Seq<Seq<usize>>, ps: Seq<(usize, usize)>, n: int) -> bool {
    forall|u: int, t: int|
        0 <= u < adjv.len() && 0 <= t < adjv[u].len() ==> (#[trigger] adjv[u][t]) < n && has_pair(
            ps,
            u as usize,
            adjv[u][t],
        )
}

/// Each of the first `e` edges is recorded in the adjacency.
pub open spec fn adj_complete(adjv: Seq<Seq<usize>>, edges: Seq<Edge>, e: int) -> bool {
    forall|ii: int|
        0 <= ii < e ==> exists|t: int|
            0 <= t < adjv[(#[trigger] edges[ii]).from as int].len() && adjv[edges[ii].from as int][t]
                == edges[ii].to
}

/// All edges within bounds.
pub open spec fn graph_wf(g: &Graph) -> bool {
    forall|i: int|
        0 <= i < g.edges@.len() ==> (#[trigger] g.edges@[i]).from < g.nodes@.len()
            && g.edges@[i].to < g.nodes@.len()
}

/// The edges as index pairs, for the cycle check.
pub open spec fn edge_pairs(edges: Seq<Edge>) -> Seq<(usize, usize)> {
    edges.map_values(|e: Edge| (e.from, e.to))
}

/// The component ids along a cycle.
pub open spec fn cycle_ids(nodes: Seq<Node>, p: Seq<usize>) -> Seq<Seq<char>> {
    p.map_values(|x: usize| nodes[x as int].key@)
}

impl Graph {
    /// The kind of data at a node's output port.
    fn output_kind(node: &Node, p: &Option<String>) -> (r: Option<DataKind>)
        ensures
            r == spec_output_kind(spec_node_outputs(*node), port_view(p)),
    {
        let outs: &Vec<Output> = match &node.role {
            NodeRole::Source { outputs } => outputs,
            NodeRole::Transform { outputs, .. } => outputs,
            NodeRole::Sink { .. } => {
                proof {
                    assert(spec_node_outputs(*node) =~= Seq::<Output>::empty());
                }
                return None;
            },
        };
        proof {
            assert(outs@ == spec_node_outputs(*node));
        }
        let m = outs.len();
        for j in 0..m
            invariant
                m == outs@.len(),
                outs@ == spec_node_outputs(*node),
                forall|jj: int| 0 <= jj < j ==> port_view(&(#[trigger] outs@[jj]).port) != port_view(p),
        {
            if port_eq(&outs[j].port, p) {
                proof {
                    lemma_output_kind_found(outs@, port_view(p), j as int);
                }
                return Some(outs[j].kind);
            }
        }
        proof {
            lemma_output_kind_none(outs@, port_view(p));
        }
        None
    }

    /// Every edge's producer kind must lie in the consumer's accepted
    /// set; mismatches accumulate as soft errors.
    pub fn typecheck(&self) -> (r: Result<(), Vec<String>>)
        requires
            graph_wf(self),
        ensures
            match r {
                Ok(()) => spec_typecheck_errors(
                    self.nodes@,
                    self.edges@,
                    self.edges@.len() as int,
                ).len() == 0,
                Err(es) => str_views(es@) =~= spec_typecheck_errors(
                    self.nodes@,
                    self.edges@,
                    self.edges@.len() as int,
                ) && es@.len() > 0,
            },
    {
        let mut errors: Vec<String> = Vec::new();
        let m = self.edges.len();
        for i in 0..m
            invariant
                m == self.edges@.len(),
                graph_wf(self),
                str_views(errors@) =~= spec_typecheck_errors(self.nodes@, self.edges@, i as int),
        {
            let e = &self.edges[i];
            let kind = Self::output_kind(&self.nodes[e.from], &e.port);
            let acc: Option<KindSet> = match &self.nodes[e.to].role {
                NodeRole::Source { .. } => None,
                NodeRole::Transform { input, .. } => Some(*input),
                NodeRole::Sink { input, .. } => Some(*input),
            };
            proof {
                assert(acc == spec_node_accepts(self.nodes@[self.edges@[i as int].to as int]));
            }
            match (kind, acc) {
                (Some(k), Some(ks)) => {
                    if !ks.contains(k) {
                        let oid = OutputId {
                            component: self.nodes[e.from].key.dup(),
                            port: match &e.port {
                                Some(p) => Some(p.clone()),
                                None => None,
                            },
                        };
                        let rendered = oid.render();
                        push_err(
                            &mut errors,
                            mk_type_mismatch(rendered.as_str(), self.nodes[e.to].key.id()),
                        );
                    }
                },
                _ => {},
            }
        }
        if errors.len() == 0 {
            Ok(())
        } else {
            Err(errors)
        }
    }

    /// Depth-first cycle detection; a found cycle is reported as the
    /// ordered chain of component ids on it.
    pub fn check_for_cycles(&self) -> (r: Result<(), String>)
        requires
            graph_wf(self),
        ensures
            r is Ok <==> spec_acyclic(edge_pairs(self.edges@)),
            match r {
                Ok(()) => true,
                Err(e) => exists|p: Seq<usize>|
                    is_cycle(edge_pairs(self.edges@), p) && e@ == msg_cycle(
                        cycle_ids(self.nodes@, p),
                    ),
            },
    {
        let ghost ps = edge_pairs(self.edges@);
        let n = self.nodes.len();
        let adj = self.build_adjacency();
        proof {
            let av = crate::cycles::adj_views(adj);
            assert forall|u: usize, v: usize| has_pair(ps, u, v) implies exists|j: int|
                0 <= j < av[u as int].len() && av[u as int][j] == v by {
                assert(u < adj@.len());
                let j = choose|j: int| 0 <= j < adj@[u as int]@.len() && adj@[u as int]@[j] == v;
                assert(av[u as int] == adj@[u as int]@);
                assert(av[u as int][j] == v);
            }
        }
        match find_cycle(&adj, Ghost(ps)) {
            None => Ok(()),
            Some(cyc) => {
                let ghost gcyc = cyc@;
                proof {
                    assert forall|k: int| 0 <= k < gcyc.len() implies (#[trigger] gcyc[k])
                        < n by {
                        if k < gcyc.len() - 1 {
                            assert(has_pair(ps, gcyc[k], gcyc[k + 1]));
                            let ii = choose|ii: int|
                                0 <= ii < ps.len() && ps[ii] == (gcyc[k], gcyc[k + 1]);
                            assert(self.edges@[ii].from == gcyc[k]);
                        } else {
                            assert(has_pair(ps, gcyc[gcyc.len() - 1], gcyc[0]));
                            let ii = choose|ii: int|
                                0 <= ii < ps.len() && ps[ii] == (gcyc[gcyc.len() - 1], gcyc[0]);
                            assert(self.edges@[ii].from == gcyc[k]);
                        }
                    }
                }
                let mut ids: Vec<String> = Vec::new();
                let cl = cyc.len();
                for t in 0..cl
                    invariant
                        cl == gcyc.len(),
                        cyc@ == gcyc,
                        n == self.nodes@.len(),
                        forall|k: int| 0 <= k < gcyc.len() ==> (#[trigger] gcyc[k]) < n,
                        ids@.len() == t,
                        forall|k: int|
                            0 <= k < t ==> (#[trigger] ids@[k])@ == self.nodes@[gcyc[k] as int].key@,
                {
                    ids.push(self.nodes[cyc[t]].key.id.clone());
                }
                proof {
                    assert(crate::messages::str_views(ids@) =~= cycle_ids(self.nodes@, gcyc));
                }
                let e = mk_cycle(&ids);
                proof {
                    assert(is_cycle(ps, gcyc) && e@ == msg_cycle(cycle_ids(self.nodes@, gcyc)));
                    crate::cycles::lemma_cycle_not_acyclic(ps, gcyc);
                }
                Err(e)
            },
        }
    }

    /// Builds the successor lists that the traversal walks.
    ///
    /// (Predicates for its loop live just below.)
    #[verifier::rlimit(100)]
    fn build_adjacency(&self) -> (adj: Vec<Vec<usize>>)
        requires
            graph_wf(self),
        ensures
            ({
                let ps = edge_pairs(self.edges@);
                &&& adj@.len() == self.nodes@.len()
                &&& (forall|u: usize, v: usize|
                    has_pair(ps, u, v) ==> u < adj@.len() && v < adj@.len())
                &&& (forall|u: int, j: int|
                    0 <= u < adj@.len() && 0 <= j < adj@[u]@.len() ==> (#[trigger] adj@[u]@[j])
                        < adj@.len())
                &&& (forall|u: int, j: int|
                    0 <= u < adj@.len() && 0 <= j < adj@[u]@.len() ==> has_pair(
                        ps,
                        u as usize,
                        adj@[u]@[j],
                    ))
                &&& (forall|u: usize, v: usize|
                    has_pair(ps, u, v) ==> exists|j: int|
                        0 <= j < adj@[u as int]@.len() && adj@[u as int]@[j] == v)
            }),
    {
        let ghost ps = edge_pairs(self.edges@);
        let n = self.nodes.len();
        let mut adj: Vec<Vec<usize>> = Vec::new();
        let mut i: usize = 0;
        while i < n
            invariant
                i <= n,
                adj@.len() == i,
                forall|t: int| 0 <= t < i ==> (#[trigger] adj@[t])@.len() == 0,
            decreases n - i,
        {
            adj.push(Vec::new());
            i = i + 1;
        }
        let ghost av0 = crate::cycles::adj_views(adj);
        proof {
            assert(forall|u: int| 0 <= u < n ==> (#[trigger] av0[u]).len() == 0);
            assert(adj_sound(av0, ps, n as int));
            assert(adj_complete(av0, self.edges@, 0));
        }
        let m = self.edges.len();
        for e in 0..m
            invariant
                m == self.edges@.len(),
                n == self.nodes@.len(),
                graph_wf(self),
                adj@.len() == n,
                ps == edge_pairs(self.edges@),
                adj_sound(crate::cycles::adj_views(adj), ps, n as int),
                adj_complete(crate::cycles::adj_views(adj), self.edges@, e as int),
        {
            let fr = self.edges[e].from;
            let to = self.edges[e].to;
            let ghost av_pre = crate::cycles::adj_views(adj);
            let slot = &mut adj[fr];
            slot.push(to);
            proof {
                let av = crate::cycles::adj_views(adj);
                assert(av[fr as int] =~= av_pre[fr as int].push(to));
                assert(forall|u: int| 0 <= u < n && u != fr as int ==> av[u] == av_pre[u]);
                assert(ps[e as int] == (fr, to));
                assert(has_pair(ps, fr, to));
                assert forall|u: int, t: int|
                    0 <= u < av.len() && 0 <= t < av[u].len() implies (#[trigger] av[u][t]) < n
                        && has_pair(ps, u as usize, av[u][t]) by {
                    if u == fr as int && t == av[u].len() - 1 {
                        assert(av[u][t] == to);
                        assert(to < n);
                    } else {
                        assert(av_pre[u][t] == av[u][t]);
                        assert(adj_sound(av_pre, ps, n as int));
                        assert(av_pre[u][t] < n && has_pair(ps, u as usize, av_pre[u][t]));
                    }
                }
                assert(adj_sound(av, ps, n as int));
                assert forall|ii: int| 0 <= ii < e + 1 implies exists|t: int|
                    0 <= t < av[(#[trigger] self.edges@[ii]).from as int].len()
                        && av[self.edges@[ii].from as int][t] == self.edges@[ii].to by {
                    if ii == e as int {
                        let t0 = av[fr as int].len() - 1;
                        assert(av[fr as int][t0] == to);
                    } else {
                        let fr2 = self.edges@[ii].from as int;
                        assert(exists|t: int|
                            0 <= t < av_pre[fr2].len() && (#[trigger] av_pre[fr2][t])
                                == self.edges@[ii].to);
                        let t = choose|t: int|
                            0 <= t < av_pre[fr2].len() && (#[trigger] av_pre[fr2][t])
                                == self.edges@[ii].to;
                        assert(av[fr2][t] == self.edges@[ii].to);
                    }
                }
                assert(adj_complete(av, self.edges@, e + 1));
            }
        }
        proof {
            let av = crate::cycles::adj_views(adj);
            assert(adj_sound(av, ps, n as int));
            assert(adj_complete(av, self.edges@, m as int));
            assert forall|u: usize, v: usize| has_pair(ps, u, v) implies u < adj@.len() && v
                < adj@.len() by {
                let ii = choose|ii: int| 0 <= ii < ps.len() && ps[ii] == (u, v);
                assert(self.edges@[ii].from == u && self.edges@[ii].to == v);
            }
            assert forall|u: int, j: int|
                0 <= u < adj@.len() && 0 <= j < adj@[u]@.len() implies (#[trigger] adj@[u]@[j])
                < adj@.len() by {
                assert(av[u][j] == adj@[u]@[j]);
                assert(av[u][j] < n);
            }
            assert forall|u: int, j: int|
                0 <= u < adj@.len() && 0 <= j < adj@[u]@.len() implies has_pair(
                ps,
                u as usize,
                adj@[u]@[j],
            ) by {
                assert(av[u][j] == adj@[u]@[j]);
                assert(has_pair(ps, u as usize, av[u][j]));
            }
            assert forall|u: usize, v: usize| has_pair(ps, u, v) implies exists|j: int|
                0 <= j < adj@[u as int]@.len() && adj@[u as int]@[j] == v by {
                let ii = choose|ii: int| 0 <= ii < ps.len() && ps[ii] == (u, v);
                assert(self.edges@[ii].from == u && self.edges@[ii].to == v);
                let fr2 = self.edges@[ii].from as int;
                assert(exists|t: int|
                    0 <= t < av[fr2].len() && av[fr2][t] == self.edges@[ii].to);
                let t = choose|t: int| 0 <= t < av[fr2].len() && av[fr2][t] == self.edges@[ii].to;
                assert(adj@[u as int]@[t] == v);
            }
        }
        adj
    }

    /// The resolved input list of a consumer, read back from the
    /// edges in insertion order, duplicates suppressed.
    pub fn inputs_for(&self, key: &ComponentKey) -> (r: Inputs<OutputId>)
        requires
            graph_wf(self),
        ensures
            r.views() =~= spec_inputs_for(self.nodes@, self.edges@, key@, self.edges@.len() as int),
    {
        let mut r = Inputs::<OutputId>::new();
        let m = self.edges.len();
        for i in 0..m
            invariant
                m == self.edges@.len(),
                graph_wf(self),
                r.views() =~= spec_inputs_for(self.nodes@, self.edges@, key@, i as int),
        {
            let e = &self.edges[i];
            if crate::id::key_eq(&self.nodes[e.to].key, key) {
                let oid = OutputId {
                    component: self.nodes[e.from].key.dup(),
                    port: match &e.port {
                        Some(p) => Some(p.clone()),
                        None => None,
                    },
                };
                proof {
                    assert(oid@ == (self.nodes@[self.edges@[i as int].from as int].key@, port_view(
                        &self.edges@[i as int].port,
                    )));
                }
                r.extend_one(oid);
            }
        }
        r
    }
}

/// The resolved inputs of a consumer over the first `n` edges.
pub open spec fn spec_inputs_for(
    nodes: Seq<Node>,
    edges: Seq<Edge>,
    k: Seq<char>,
    n: int,
) -> Seq<OidView>
    decreases n,
{
    if n <= 0 {
        Seq::empty()
    } else {
        let prev = spec_inputs_for(nodes, edges, k, n - 1);
        let e = edges[n - 1];
        if nodes[e.to as int].key@ == k {
            push_dedup_oid(prev, (nodes[e.from as int].key@, port_view(&e.port)))
        } else {
            prev
        }
    }
}


impl Graph {
    /// Builds the graph: one node per component in declaration order
    /// (sources, transforms, sinks), then one edge per resolved input
    /// reference of every transform and sink.  Unresolved references
    /// are gathered; any at all fails construction as a whole.
    #[verifier::rlimit(100)]
    pub fn new(
        sources: &OMap<SourceOuter>,
        transforms: &OMap<TransformOuter<String>>,
        sinks: &OMap<SinkOuter<String>>,
        expansions: &OMap<Vec<ComponentKey>>,
    ) -> (r: Result<Graph, Vec<String>>)
        ensures
            match r {
                Ok(g) => {
                    let rt = spec_resolve_transforms(
                        g.nodes@,
                        expansions.kv_seq(),
                        transforms.kv_seq(),
                        transforms.kv_seq().len() as int,
                    );
                    let rs = spec_resolve_sinks(
                        g.nodes@,
                        expansions.kv_seq(),
                        sinks.kv_seq(),
                        sinks.kv_seq().len() as int,
                    );
                    &&& graph_wf(&g)
                    &&& nodes_match(g.nodes@, sources.kv_seq(), transforms.kv_seq(), sinks.kv_seq())
                    &&& (rt.1 + rs.1).len() == 0
                    &&& edges_match(g.nodes@, g.edges@, rt.0 + rs.0)
                },
                Err(es) => exists|nodes: Seq<Node>|
                    #![trigger nodes_match(nodes, sources.kv_seq(), transforms.kv_seq(), sinks.kv_seq())]
                    {
                        let rt = spec_resolve_transforms(
                            nodes,
                            expansions.kv_seq(),
                            transforms.kv_seq(),
                            transforms.kv_seq().len() as int,
                        );
                        let rs = spec_resolve_sinks(
                            nodes,
                            expansions.kv_seq(),
                            sinks.kv_seq(),
                            sinks.kv_seq().len() as int,
                        );
                        &&& nodes_match(
                            nodes,
                            sources.kv_seq(),
                            transforms.kv_seq(),
                            sinks.kv_seq(),
                        )
                        &&& str_views(es@) =~= rt.1 + rs.1
                        &&& es@.len() > 0
                    },
            },
    {
        let sn = sources.len();
        let tn = transforms.len();
        let kn = sinks.len();
        let mut nodes: Vec<Node> = Vec::new();
        for i in 0..sn
            invariant
                sn == sources.kv_seq().len(),
                nodes@.len() == i,
                forall|j: int|
                    0 <= j < i ==> (#[trigger] nodes@[j]).key@ == sources.kv_seq()[j].0
                        && (nodes@[j].role matches NodeRole::Source { .. }) && spec_node_outputs(
                        nodes@[j],
                    ) =~= sources.kv_seq()[j].1.inner.outputs@,
        {
            let e = sources.entry_at(i);
            let outs = dup_outputs(&e.1.inner.outputs);
            nodes.push(Node { key: e.0.dup(), role: NodeRole::Source { outputs: outs } });
        }
        for i in 0..tn
            invariant
                sn == sources.kv_seq().len(),
                tn == transforms.kv_seq().len(),
                nodes@.len() == sn + i,
                forall|j: int|
                    0 <= j < sn ==> (#[trigger] nodes@[j]).key@ == sources.kv_seq()[j].0
                        && (nodes@[j].role matches NodeRole::Source { .. }) && spec_node_outputs(
                        nodes@[j],
                    ) =~= sources.kv_seq()[j].1.inner.outputs@,
                forall|j: int|
                    0 <= j < i ==> (#[trigger] nodes@[sn + j]).key@ == transforms.kv_seq()[j].0 && (
                    nodes@[sn + j].role matches NodeRole::Transform { .. }) && spec_node_outputs(
                        nodes@[sn + j],
                    ) =~= transforms.kv_seq()[j].1.inner.outputs@ && spec_node_accepts(
                        nodes@[sn + j],
                    ) == Some(transforms.kv_seq()[j].1.inner.input),
        {
            let e = transforms.entry_at(i);
            let outs = dup_outputs(&e.1.inner.outputs);
            nodes.push(
                Node {
                    key: e.0.dup(),
                    role: NodeRole::Transform { input: e.1.inner.input, outputs: outs },
                },
            );
        }
        for i in 0..kn
            invariant
                sn == sources.kv_seq().len(),
                tn == transforms.kv_seq().len(),
                kn == sinks.kv_seq().len(),
                nodes@.len() == sn + tn + i,
                forall|j: int|
                    0 <= j < sn ==> (#[trigger] nodes@[j]).key@ == sources.kv_seq()[j].0
                        && (nodes@[j].role matches NodeRole::Source { .. }) && spec_node_outputs(
                        nodes@[j],
                    ) =~= sources.kv_seq()[j].1.inner.outputs@,
                forall|j: int|
                    0 <= j < tn ==> (#[trigger] nodes@[sn + j]).key@ == transforms.kv_seq()[j].0
                        && (nodes@[sn + j].role matches NodeRole::Transform { .. })
                        && spec_node_outputs(nodes@[sn + j]) =~= transforms.kv_seq()[j].1.inner.outputs@
                        && spec_node_accepts(nodes@[sn + j]) == Some(
                        transforms.kv_seq()[j].1.inner.input,
                    ),
                forall|j: int|
                    0 <= j < i ==> (#[trigger] nodes@[sn + tn + j]).key@ == sinks.kv_seq()[j].0 && (
                    nodes@[sn + tn + j].role matches NodeRole::Sink { .. }) && spec_node_accepts(
                        nodes@[sn + tn + j],
                    ) == Some(sinks.kv_seq()[j].1.inner.input) && node_acks(nodes@[sn + tn + j])
                        == Some(sinks.kv_seq()[j].1.inner.acks),
        {
            let e = sinks.entry_at(i);
            nodes.push(
                Node {
                    key: e.0.dup(),
                    role: NodeRole::Sink { input: e.1.inner.input, acks: e.1.inner.acks },
                },
            );
        }
        let nn = nodes.len();
        let ghost skv = sources.kv_seq();
        let ghost tkv = transforms.kv_seq();
        let ghost kkv = sinks.kv_seq();
        let ghost expkv = expansions.kv_seq();
        let mut edges: Vec<Edge> = Vec::new();
        let mut errors: Vec<String> = Vec::new();
        proof {
            assert(nn == sn + tn + kn);
            assert(nodes_match(nodes@, skv, tkv, kkv));
        }
        for ti in 0..tn
            invariant
                skv == sources.kv_seq(),
                tkv == transforms.kv_seq(),
                kkv == sinks.kv_seq(),
                expkv == expansions.kv_seq(),
                sn == skv.len(),
                tn == tkv.len(),
                kn == kkv.len(),
                nn == nodes@.len(),
                nn == sn + tn + kn,
                nodes_match(nodes@, skv, tkv, kkv),
                edges_match(nodes@, edges@, spec_resolve_transforms(nodes@, expkv, tkv, ti as int).0),
                str_views(errors@) =~= spec_resolve_transforms(nodes@, expkv, tkv, ti as int).1,
                forall|j: int|
                    0 <= j < edges@.len() ==> (#[trigger] edges@[j]).from < nn && edges@[j].to < nn,
        {
            let consumer = transforms.entry_at(ti);
            let to_idx = sn + ti;
            let ghost cv = tkv[ti as int].0;
            let ghost civ = tkv[ti as int].1.inputs.views();
            let ghost base = spec_resolve_transforms(nodes@, expkv, tkv, ti as int);
            proof {
                assert(consumer.0@ == cv);
                assert(consumer.1 == tkv[ti as int].1);
                assert(nodes@[to_idx as int].key@ == cv);
            }
            let m = consumer.1.inputs.len();
            for ii in 0..m
                invariant
                    tkv == transforms.kv_seq(),
                    expkv == expansions.kv_seq(),
                    ti < tkv.len(),
                    m == consumer.1.inputs.items@.len(),
                    consumer.0@ == cv,
                    consumer.1 == tkv[ti as int].1,
                    civ == tkv[ti as int].1.inputs.views(),
                    base == spec_resolve_transforms(nodes@, expkv, tkv, ti as int),
                    nn == nodes@.len(),
                    to_idx < nn,
                    nodes@[to_idx as int].key@ == cv,
                    edges_match(
                        nodes@,
                        edges@,
                        base.0 + spec_resolve_list(nodes@, expkv, cv, civ, ii as int).0,
                    ),
                    str_views(errors@) =~= base.1 + spec_resolve_list(
                        nodes@,
                        expkv,
                        cv,
                        civ,
                        ii as int,
                    ).1,
                    forall|j: int|
                        0 <= j < edges@.len() ==> (#[trigger] edges@[j]).from < nn && edges@[j].to
                            < nn,
            {
                let input = consumer.1.inputs.item_at(ii);
                proof {
                    assert(input@ == civ[ii as int]);
                }
                let ghost prev_evs = base.0 + spec_resolve_list(nodes@, expkv, cv, civ, ii as int).0;
                match resolve_entry(&nodes, expansions, &consumer.0, input) {
                    Ok(oids) => {
                        let ghost s = spec_resolve_entry(nodes@, expkv, cv, civ[ii as int])->Ok_0;
                        let on = oids.len();
                        for oi in 0..on
                            invariant
                                on == oids@.len(),
                                on == s.len(),
                                nn == nodes@.len(),
                                to_idx < nn,
                                nodes@[to_idx as int].key@ == cv,
                                forall|k: int|
                                    0 <= k < oids@.len() ==> {
                                        &&& (#[trigger] oids@[k]).0 < nn
                                        &&& is_producer(nodes@[oids@[k].0 as int])
                                        &&& nodes@[oids@[k].0 as int].key@ == s[k].0
                                        &&& port_view(&oids@[k].1) == s[k].1
                                    },
                                edges_match(
                                    nodes@,
                                    edges@,
                                    prev_evs + tag_consumer(s.take(oi as int), cv),
                                ),
                                forall|j: int|
                                    0 <= j < edges@.len() ==> (#[trigger] edges@[j]).from < nn
                                        && edges@[j].to < nn,
                        {
                            let port = match &oids[oi].1 {
                                Some(p) => Some(p.clone()),
                                None => None,
                            };
                            let e = Edge { from: oids[oi].0, port, to: to_idx };
                            proof {
                                assert(edge_matches(nodes@, e, (s[oi as int], cv)));
                                lemma_edges_match_push(
                                    nodes@,
                                    edges@,
                                    prev_evs + tag_consumer(s.take(oi as int), cv),
                                    e,
                                    (s[oi as int], cv),
                                );
                                assert((prev_evs + tag_consumer(s.take(oi as int), cv)).push(
                                    (s[oi as int], cv),
                                ) =~= prev_evs + tag_consumer(s.take(oi as int + 1), cv));
                            }
                            edges.push(e);
                        }
                        proof {
                            assert(s.take(on as int) =~= s);
                            assert(prev_evs + tag_consumer(s, cv) =~= base.0 + (spec_resolve_list(
                                nodes@,
                                expkv,
                                cv,
                                civ,
                                ii as int,
                            ).0 + tag_consumer(s, cv)));
                            assert(base.0 + spec_resolve_list(
                                nodes@,
                                expkv,
                                cv,
                                civ,
                                ii as int + 1,
                            ).0 =~= prev_evs + tag_consumer(s, cv));
                        }
                    },
                    Err(e) => {
                        proof {
                            assert(spec_resolve_entry(nodes@, expkv, cv, civ[ii as int]) matches Err(
                                m2,
                            ) && e@ == m2);
                        }
                        push_err(&mut errors, e);
                        proof {
                            assert(str_views(errors@) =~= base.1 + spec_resolve_list(
                                nodes@,
                                expkv,
                                cv,
                                civ,
                                ii as int + 1,
                            ).1);
                        }
                    },
                }
            }
            proof {
                assert(spec_resolve_transforms(nodes@, expkv, tkv, ti as int + 1).0 =~= base.0
                    + spec_resolve_list(nodes@, expkv, cv, civ, m as int).0);
                assert(spec_resolve_transforms(nodes@, expkv, tkv, ti as int + 1).1 =~= base.1
                    + spec_resolve_list(nodes@, expkv, cv, civ, m as int).1);
            }
        }
        let ghost rt_full = spec_resolve_transforms(nodes@, expkv, tkv, tn as int);
        for ki in 0..kn
            invariant
                skv == sources.kv_seq(),
                tkv == transforms.kv_seq(),
                kkv == sinks.kv_seq(),
                expkv == expansions.kv_seq(),
                sn == skv.len(),
                tn == tkv.len(),
                kn == kkv.len(),
                nn == nodes@.len(),
                nn == sn + tn + kn,
                nodes_match(nodes@, skv, tkv, kkv),
                rt_full == spec_resolve_transforms(nodes@, expkv, tkv, tn as int),
                edges_match(
                    nodes@,
                    edges@,
                    rt_full.0 + spec_resolve_sinks(nodes@, expkv, kkv, ki as int).0,
                ),
                str_views(errors@) =~= rt_full.1 + spec_resolve_sinks(
                    nodes@,
                    expkv,
                    kkv,
                    ki as int,
                ).1,
                forall|j: int|
                    0 <= j < edges@.len() ==> (#[trigger] edges@[j]).from < nn && edges@[j].to < nn,
        {
            let consumer = sinks.entry_at(ki);
            let to_idx = sn + tn + ki;
            let ghost cv = kkv[ki as int].0;
            let ghost civ = kkv[ki as int].1.inputs.views();
            let ghost base_evs = rt_full.0 + spec_resolve_sinks(nodes@, expkv, kkv, ki as int).0;
            let ghost base_errs = rt_full.1 + spec_resolve_sinks(nodes@, expkv, kkv, ki as int).1;
            proof {
                assert(consumer.0@ == cv);
                assert(consumer.1 == kkv[ki as int].1);
                assert(nodes@[to_idx as int].key@ == cv);
            }
            let m = consumer.1.inputs.len();
            for ii in 0..m
                invariant
                    kkv == sinks.kv_seq(),
                    expkv == expansions.kv_seq(),
                    ki < kkv.len(),
                    m == consumer.1.inputs.items@.len(),
                    consumer.0@ == cv,
                    consumer.1 == kkv[ki as int].1,
                    civ == kkv[ki as int].1.inputs.views(),
                    base_evs == rt_full.0 + spec_resolve_sinks(nodes@, expkv, kkv, ki as int).0,
                    base_errs == rt_full.1 + spec_resolve_sinks(nodes@, expkv, kkv, ki as int).1,
                    nn == nodes@.len(),
                    to_idx < nn,
                    nodes@[to_idx as int].key@ == cv,
                    edges_match(
                        nodes@,
                        edges@,
                        base_evs + spec_resolve_list(nodes@, expkv, cv, civ, ii as int).0,
                    ),
                    str_views(errors@) =~= base_errs + spec_resolve_list(
                        nodes@,
                        expkv,
                        cv,
                        civ,
                        ii as int,
                    ).1,
                    forall|j: int|
                        0 <= j < edges@.len() ==> (#[trigger] edges@[j]).from < nn && edges@[j].to
                            < nn,
            {
                let input = consumer.1.inputs.item_at(ii);
                proof {
                    assert(input@ == civ[ii as int]);
                }
                let ghost prev_evs = base_evs + spec_resolve_list(
                    nodes@,
                    expkv,
                    cv,
                    civ,
                    ii as int,
                ).0;
                match resolve_entry(&nodes, expansions, &consumer.0, input) {
                    Ok(oids) => {
                        let ghost s = spec_resolve_entry(nodes@, expkv, cv, civ[ii as int])->Ok_0;
                        let on = oids.len();
                        for oi in 0..on
                            invariant
                                on == oids@.len(),
                                on == s.len(),
                                nn == nodes@.len(),
                                to_idx < nn,
                                nodes@[to_idx as int].key@ == cv,
                                forall|k: int|
                                    0 <= k < oids@.len() ==> {
                                        &&& (#[trigger] oids@[k]).0 < nn
                                        &&& is_producer(nodes@[oids@[k].0 as int])
                                        &&& nodes@[oids@[k].0 as int].key@ == s[k].0
                                        &&& port_view(&oids@[k].1) == s[k].1
                                    },
                                edges_match(
                                    nodes@,
                                    edges@,
                                    prev_evs + tag_consumer(s.take(oi as int), cv),
                                ),
                                forall|j: int|
                                    0 <= j < edges@.len() ==> (#[trigger] edges@[j]).from < nn
                                        && edges@[j].to < nn,
                        {
                            let port = match &oids[oi].1 {
                                Some(p) => Some(p.clone()),
                                None => None,
                            };
                            let e = Edge { from: oids[oi].0, port, to: to_idx };
                            proof {
                                assert(edge_matches(nodes@, e, (s[oi as int], cv)));
                                lemma_edges_match_push(
                                    nodes@,
                                    edges@,
                                    prev_evs + tag_consumer(s.take(oi as int), cv),
                                    e,
                                    (s[oi as int], cv),
                                );
                                assert((prev_evs + tag_consumer(s.take(oi as int), cv)).push(
                                    (s[oi as int], cv),
                                ) =~= prev_evs + tag_consumer(s.take(oi as int + 1), cv));
                            }
                            edges.push(e);
                        }
                        proof {
                            assert(s.take(on as int) =~= s);
                            assert(base_evs + spec_resolve_list(
                                nodes@,
                                expkv,
                                cv,
                                civ,
                                ii as int + 1,
                            ).0 =~= prev_evs + tag_consumer(s, cv));
                        }
                    },
                    Err(e) => {
                        proof {
                            assert(spec_resolve_entry(nodes@, expkv, cv, civ[ii as int]) matches Err(
                                m2,
                            ) && e@ == m2);
                        }
                        push_err(&mut errors, e);
                        proof {
                            assert(str_views(errors@) =~= base_errs + spec_resolve_list(
                                nodes@,
                                expkv,
                                cv,
                                civ,
                                ii as int + 1,
                            ).1);
                        }
                    },
                }
            }
            proof {
                assert(spec_resolve_sinks(nodes@, expkv, kkv, ki as int + 1).0 =~= spec_resolve_sinks(
                    nodes@,
                    expkv,
                    kkv,
                    ki as int,
                ).0 + spec_resolve_list(nodes@, expkv, cv, civ, m as int).0);
                assert(spec_resolve_sinks(nodes@, expkv, kkv, ki as int + 1).1 =~= spec_resolve_sinks(
                    nodes@,
                    expkv,
                    kkv,
                    ki as int,
                ).1 + spec_resolve_list(nodes@, expkv, cv, civ, m as int).1);
                assert(rt_full.0 + spec_resolve_sinks(nodes@, expkv, kkv, ki as int + 1).0
                    =~= base_evs + spec_resolve_list(nodes@, expkv, cv, civ, m as int).0);
                assert(rt_full.1 + spec_resolve_sinks(nodes@, expkv, kkv, ki as int + 1).1
                    =~= base_errs + spec_resolve_list(nodes@, expkv, cv, civ, m as int).1);
            }
        }
        let ghost rs_full = spec_resolve_sinks(nodes@, expkv, kkv, kn as int);
        if errors.len() == 0 {
            proof {
                assert(str_views(errors@).len() == 0);
                assert((rt_full.1 + rs_full.1).len() == 0);
            }
            Ok(Graph { nodes, edges })
        } else {
            proof {
                let gnodes = nodes@;
                assert(nodes_match(gnodes, skv, tkv, kkv) && str_views(errors@) =~= (
                spec_resolve_transforms(gnodes, expkv, tkv, tn as int).1 + spec_resolve_sinks(
                    gnodes,
                    expkv,
                    kkv,
                    kn as int,
                ).1) && errors@.len() > 0);
            }
            Err(errors)
        }
    }

    /// For every source index, whether delivery acknowledgement is
    /// structurally guaranteed: some sink is reachable along the
    /// edges, and every reachable sink can acknowledge.  Computed by
    /// saturating reachability over the edges.
    pub fn source_ack_flags(&self, sn: usize) -> (r: Vec<bool>)
        requires
            graph_wf(self),
            sn <= self.nodes@.len(),
        ensures
            r@.len() == sn,
            forall|i: int|
                0 <= i < sn ==> r@[i] == spec_effective_ack(
                    self.nodes@,
                    edge_pairs(self.edges@),
                    i as usize,
                ),
    {
        let n = self.nodes.len();
        let ghost ps = edge_pairs(self.edges@);
        proof {
            assert forall|u: usize, v: usize| has_pair(ps, u, v) implies u < n && v < n by {
                let ii = choose|ii: int| 0 <= ii < ps.len() && ps[ii] == (u, v);
                assert(self.edges@[ii].from == u && self.edges@[ii].to == v);
            }
        }
        let mut flags: Vec<bool> = Vec::new();
        let mut si: usize = 0;
        while si < sn
            invariant
                si <= sn,
                sn <= self.nodes@.len(),
                n == self.nodes@.len(),
                graph_wf(self),
                ps == edge_pairs(self.edges@),
                forall|u: usize, v: usize| has_pair(ps, u, v) ==> u < n && v < n,
                flags@.len() == si,
                forall|j: int|
                    0 <= j < si ==> flags@[j] == spec_effective_ack(self.nodes@, ps, j as usize),
            decreases sn - si,
        {
            let mut visited: Vec<bool> = Vec::new();
            let mut vi: usize = 0;
            while vi < n
                invariant
                    vi <= n,
                    visited@.len() == vi,
                    forall|t: int| 0 <= t < vi ==> visited@[t] == (t == si as int),
                decreases n - vi,
            {
                visited.push(vi == si);
                vi = vi + 1;
            }
            proof {
                lemma_self_reachable(ps, si);
            }
            let mut changed = true;
            while changed
                invariant
                    n == self.nodes@.len(),
                    si < sn <= n,
                    graph_wf(self),
                    ps == edge_pairs(self.edges@),
                    forall|u: usize, v: usize| has_pair(ps, u, v) ==> u < n && v < n,
                    visited@.len() == n,
                    visited@[si as int],
                    forall|t: int|
                        0 <= t < n && visited@[t] ==> spec_reachable(ps, si, t as usize),
                    !changed ==> forall|u: usize, v: usize|
                        has_pair(ps, u, v) && visited@[u as int] ==> visited@[v as int],
                decreases count_unvisited(visited@), (if changed {
                    1int
                } else {
                    0int
                }),
            {
                changed = false;
                let ghost vis0 = visited@;
                let m = self.edges.len();
                for e in 0..m
                    invariant
                        m == self.edges@.len(),
                        n == self.nodes@.len(),
                        si < n,
                        graph_wf(self),
                        ps == edge_pairs(self.edges@),
                        forall|u: usize, v: usize| has_pair(ps, u, v) ==> u < n && v < n,
                        visited@.len() == n,
                        vis0.len() == n,
                        visited@[si as int],
                        forall|i: int| 0 <= i < n && vis0[i] ==> #[trigger] visited@[i],
                        forall|t: int|
                            0 <= t < n && visited@[t] ==> spec_reachable(ps, si, t as usize),
                        changed ==> count_unvisited(visited@) < count_unvisited(vis0),
                        !changed ==> visited@ == vis0,
                        !changed ==> forall|ii: int|
                            0 <= ii < e && visited@[(#[trigger] self.edges@[ii]).from as int]
                                ==> visited@[self.edges@[ii].to as int],
                {
                    let fr = self.edges[e].from;
                    let to = self.edges[e].to;
                    if visited[fr] && !visited[to] {
                        let ghost pre = visited@;
                        vstd::pervasive::VecAdditionalExecFns::set(&mut visited, to, true);
                        proof {
                            lemma_count_unvisited_update(pre, to as int);
                            lemma_count_unvisited_mono(vis0, pre);
                            assert(ps[e as int] == (fr, to));
                            assert(has_pair(ps, fr, to));
                            lemma_reachable_step(ps, si, fr, to);
                        }
                        changed = true;
                    }
                }
            }
            proof {
                assert forall|v: int|
                    0 <= v < n && spec_reachable(ps, si, v as usize) implies visited@[v] by {
                    let p = choose|p: Seq<usize>|
                        is_path(ps, p) && p[0] == si && p[p.len() - 1] == v as usize;
                    lemma_path_in_closed(ps, visited@, n as int, p, p.len() - 1);
                }
            }
            let mut any_sink = false;
            let mut all_ack = true;
            let mut ni: usize = 0;
            while ni < n
                invariant
                    ni <= n,
                    n == self.nodes@.len(),
                    visited@.len() == n,
                    ps == edge_pairs(self.edges@),
                    forall|t: int|
                        0 <= t < n && visited@[t] ==> spec_reachable(ps, si, t as usize),
                    forall|t: int|
                        0 <= t < n && spec_reachable(ps, si, t as usize) ==> visited@[t],
                    any_sink == (exists|v: int|
                        0 <= v < ni && node_is_sink(#[trigger] self.nodes@[v]) && visited@[v]),
                    all_ack == (forall|v: int|
                        0 <= v < ni && node_is_sink(#[trigger] self.nodes@[v]) && visited@[v]
                            ==> node_acks(self.nodes@[v]) == Some(true)),
                decreases n - ni,
            {
                if visited[ni] {
                    match &self.nodes[ni].role {
                        NodeRole::Sink { acks, .. } => {
                            any_sink = true;
                            if !*acks {
                                all_ack = false;
                            }
                        },
                        _ => {},
                    }
                }
                ni = ni + 1;
            }
            proof {
                if any_sink {
                    let v = choose|v: int|
                        0 <= v < n && node_is_sink(#[trigger] self.nodes@[v]) && visited@[v];
                    assert(spec_reachable(ps, si, v as usize));
                }
                if exists|v: int|
                    0 <= v < self.nodes@.len() && node_is_sink(#[trigger] self.nodes@[v])
                        && spec_reachable(ps, si, v as usize) {
                    let v = choose|v: int|
                        0 <= v < self.nodes@.len() && node_is_sink(#[trigger] self.nodes@[v])
                            && spec_reachable(ps, si, v as usize);
                    assert(visited@[v]);
                    assert(any_sink);
                }
                assert(any_sink == (exists|v: int|
                    0 <= v < self.nodes@.len() && node_is_sink(#[trigger] self.nodes@[v])
                        && spec_reachable(ps, si, v as usize)));
                assert forall|v: int|
                    0 <= v < self.nodes@.len() && node_is_sink(#[trigger] self.nodes@[v])
                        && spec_reachable(ps, si, v as usize) && all_ack implies node_acks(
                    self.nodes@[v],
                ) == Some(true) by {
                    assert(visited@[v]);
                }
                assert forall|v: int|
                    0 <= v < self.nodes@.len() && node_is_sink(#[trigger] self.nodes@[v])
                        && visited@[v] && (forall|w: int|
                        0 <= w < self.nodes@.len() && node_is_sink(#[trigger] self.nodes@[w])
                            && spec_reachable(ps, si, w as usize) ==> node_acks(self.nodes@[w])
                            == Some(true)) implies node_acks(self.nodes@[v]) == Some(true) by {
                    assert(spec_reachable(ps, si, v as usize));
                }
                assert((any_sink && all_ack) == spec_effective_ack(self.nodes@, ps, si));
            }
            flags.push(any_sink && all_ack);
            si = si + 1;
        }
        flags
    }
}

/// A directed walk along the edges.
pub open spec fn is_path(ps: Seq<(usize, usize)>, p: Seq<usize>) -> bool {
    &&& p.len() > 0
    &&& forall|k: int| 0 <= k < p.len() - 1 ==> has_pair(ps, #[trigger] p[k], p[k + 1])
}

/// Whether `v` is reachable from `src` along the edges (every node
/// reaches itself).
pub open spec fn spec_reachable(ps: Seq<(usize, usize)>, src: usize, v: usize) -> bool {
    exists|p: Seq<usize>| is_path(ps, p) && p[0] == src && p[p.len() - 1] == v
}

/// Whether the node is a sink.
pub open spec fn node_is_sink(n: Node) -> bool {
    n.role matches NodeRole::Sink { .. }
}

/// The acknowledgement verdict for a source: some sink reachable, and
/// every reachable sink can acknowledge.
pub open spec fn spec_effective_ack(nodes: Seq<Node>, ps: Seq<(usize, usize)>, src: usize) -> bool {
    &&& (exists|v: int|
        0 <= v < nodes.len() && node_is_sink(#[trigger] nodes[v]) && spec_reachable(
            ps,
            src,
            v as usize,
        ))
    &&& (forall|v: int|
        0 <= v < nodes.len() && node_is_sink(#[trigger] nodes[v]) && spec_reachable(
            ps,
            src,
            v as usize,
        ) ==> node_acks(nodes[v]) == Some(true))
}

/// Every node reaches itself by the one-node walk.
pub proof fn lemma_self_reachable(ps: Seq<(usize, usize)>, src: usize)
    ensures
        spec_reachable(ps, src, src),
{
    let p = seq![src];
    assert(is_path(ps, p));
    assert(p[0] == src && p[p.len() - 1] == src);
}

/// Reachability extends along one edge.
pub proof fn lemma_reachable_step(ps: Seq<(usize, usize)>, src: usize, u: usize, v: usize)
    requires
        spec_reachable(ps, src, u),
        has_pair(ps, u, v),
    ensures
        spec_reachable(ps, src, v),
{
    let p = choose|p: Seq<usize>| is_path(ps, p) && p[0] == src && p[p.len() - 1] == u;
    let p2 = p.push(v);
    assert forall|k: int| 0 <= k < p2.len() - 1 implies has_pair(ps, #[trigger] p2[k], p2[k + 1]) by {
        if k < p.len() - 1 {
            assert(p2[k] == p[k] && p2[k + 1] == p[k + 1]);
        } else {
            assert(p2[k] == p[p.len() - 1] && p2[k + 1] == v);
        }
    }
    assert(is_path(ps, p2) && p2[0] == src && p2[p2.len() - 1] == v);
}

/// In a state closed under the edges, every walk stays inside.
pub proof fn lemma_path_in_closed(
    ps: Seq<(usize, usize)>,
    visited: Seq<bool>,
    n: int,
    p: Seq<usize>,
    k: int,
)
    requires
        visited.len() == n,
        forall|u: usize, v: usize| has_pair(ps, u, v) ==> u < n && v < n,
        forall|u: usize, v: usize|
            has_pair(ps, u, v) && visited[u as int] ==> visited[v as int],
        is_path(ps, p),
        (p[0] as int) < n,
        visited[p[0] as int],
        0 <= k < p.len(),
    ensures
        (p[k] as int) < n && visited[p[k] as int],
    decreases k,
{
    if k > 0 {
        lemma_path_in_closed(ps, visited, n, p, k - 1);
        assert(has_pair(ps, p[k - 1], p[k]));
    }
}

/// How many entries are still unvisited./// How many entries are still unvisited.
pub open spec fn count_unvisited(s: Seq<bool>) -> nat
    decreases s.len(),
{
    if s.len() == 0 {
        0
    } else {
        count_unvisited(s.drop_last()) + (if s.last() {
            0nat
        } else {
            1nat
        })
    }
}

pub proof fn lemma_count_unvisited_update(s: Seq<bool>, i: int)
    requires
        0 <= i < s.len(),
        !s[i],
    ensures
        count_unvisited(s.update(i, true)) < count_unvisited(s),
    decreases s.len(),
{
    if i == s.len() - 1 {
        assert(s.update(i, true).drop_last() =~= s.drop_last());
    } else {
        assert(s.update(i, true).drop_last() =~= s.drop_last().update(i, true));
        lemma_count_unvisited_update(s.drop_last(), i);
    }
}

pub proof fn lemma_count_unvisited_mono(s1: Seq<bool>, s2: Seq<bool>)
    requires
        s1.len() == s2.len(),
        forall|i: int| 0 <= i < s1.len() && s1[i] ==> s2[i],
    ensures
        count_unvisited(s2) <= count_unvisited(s1),
    decreases s1.len(),
{
    if s1.len() > 0 {
        lemma_count_unvisited_mono(s1.drop_last(), s2.drop_last());
    }
}

} // verus!
