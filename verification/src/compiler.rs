//! The compilation orchestrator: from a raw builder to an immutable,
//! validated topology, or an ordered error list.
//!
//! Phase order: name check; macro expansion (a failure here is a hard
//! stop, with the errors gathered so far); glob expansion; shape,
//! resource and output checks (accumulated); graph construction (a
//! failure is a hard stop); type check and cycle check (accumulated);
//! input materialisation from the graph; test resolution (a failure is
//! surfaced alone, before the final decision); then, only with no
//! errors at all, acknowledgement propagation and the final `Config`.
//!
//! The contract follows the same shape: it names the intermediate
//! states — the expanded builder, the glob-rewritten builder, the
//! expansion map, the node list and the edge list — and pins the
//! result against the phase specifications for each of the four
//! outcomes (expansion hard stop, construction hard stop, test hard
//! stop, and the final accumulate-then-decide step).

use vstd::prelude::*;
use crate::config::{Config, ConfigBuilder, ResolvedTest, SinkOuter, SourceOuter, TestDefinition,
    TransformOuter};
use crate::cycles::{is_cycle, spec_acyclic};
use crate::expand::{exp_entries_match, expand_macros, spec_expand_all, trans_entries_match};
use crate::globexpand::{expand_globs, spec_all_glob_warns, spec_candidates, spec_glob_inputs};
use crate::graph::{cycle_ids, edge_pairs, edges_match, graph_wf, nodes_match, resolve_entry,
    spec_effective_ack, spec_inputs_for, spec_resolve_entry, spec_resolve_sinks,
    spec_resolve_transforms, spec_typecheck_errors, Edge, Graph, Node, OidView};
use crate::id::{ComponentKey, OutputId};
use crate::messages::{mk_test_unresolved, msg_cycle, msg_test_unresolved, push_err, str_views};
use crate::omap::OMap;
use crate::validation::{check_names, check_outputs, check_resources, check_shape,
    spec_name_errors, spec_output_errors, spec_resource_errors, spec_shape_errors};

verus! {

/// Appends every entry of `more` to `errors`, in order.
fn extend_errors(errors: &mut Vec<String>, more: Vec<String>)
    ensures
        str_views(final(errors)@) =~= str_views(old(errors)@) + str_views(more@),
{
    let ghost morev = str_views(more@);
    let mut more = more;
    let n = more.len();
    let mut i: usize = 0;
    while i < n
        invariant
            i <= n,
            n == morev.len(),
            more@.len() == n - i,
            forall|j: int| 0 <= j < more@.len() ==> (#[trigger] more@[j])@ == morev[i + j],
            str_views(errors@) =~= str_views(old(errors)@) + morev.take(i as int),
        decreases n - i,
    {
        let e = more.remove(0);
        push_err(errors, e);
        proof {
            assert(str_views(errors@) =~= str_views(old(errors)@) + morev.take(i as int + 1));
        }
        i = i + 1;
    }
    proof {
        assert(morev.take(n as int) =~= morev);
    }
}

/// The glob phase's effect, as a relation between the builder before
/// and after: sources and tests untouched, each transform's and
/// sink's inputs rewritten against the candidates of the old state.
pub open spec fn glob_rewrite(b1: ConfigBuilder, b2: ConfigBuilder) -> bool {
    &&& b2.sources == b1.sources
    &&& b2.tests == b1.tests
    &&& b2.transforms.kv_seq().len() == b1.transforms.kv_seq().len()
    &&& b2.sinks.kv_seq().len() == b1.sinks.kv_seq().len()
    &&& (forall|i: int|
        0 <= i < b1.transforms.kv_seq().len() ==> {
            let oldkv = b1.transforms.kv_seq()[i];
            let newkv = #[trigger] b2.transforms.kv_seq()[i];
            &&& newkv.0 == oldkv.0
            &&& newkv.1.inner == oldkv.1.inner
            &&& newkv.1.inputs.views() =~= spec_glob_inputs(
                oldkv.1.inputs.views(),
                oldkv.0,
                spec_candidates(&b1),
                oldkv.1.inputs.views().len() as int,
            )
        })
    &&& (forall|i: int|
        0 <= i < b1.sinks.kv_seq().len() ==> {
            let oldkv = b1.sinks.kv_seq()[i];
            let newkv = #[trigger] b2.sinks.kv_seq()[i];
            &&& newkv.0 == oldkv.0
            &&& newkv.1.inner == oldkv.1.inner
            &&& newkv.1.inputs.views() =~= spec_glob_inputs(
                oldkv.1.inputs.views(),
                oldkv.0,
                spec_candidates(&b1),
                oldkv.1.inputs.views().len() as int,
            )
        })
}

/// The message for the last unresolvable reference among the first
/// `n` of a test, if any.
pub open spec fn spec_last_bad_ref(
    nodes: Seq<Node>,
    expkv: Seq<(Seq<char>, Vec<ComponentKey>)>,
    name: Seq<char>,
    refs: Seq<Seq<char>>,
    n: int,
) -> Option<Seq<char>>
    decreases n,
{
    if n <= 0 {
        None
    } else {
        match spec_resolve_entry(nodes, expkv, name, refs[n - 1]) {
            Err(_) => Some(msg_test_unresolved(name, refs[n - 1])),
            Ok(_) => spec_last_bad_ref(nodes, expkv, name, refs, n - 1),
        }
    }
}

/// The emission points a test's first `n` references resolve to.
pub open spec fn spec_test_extract(
    nodes: Seq<Node>,
    expkv: Seq<(Seq<char>, Vec<ComponentKey>)>,
    name: Seq<char>,
    refs: Seq<Seq<char>>,
    n: int,
) -> Seq<OidView>
    decreases n,
{
    if n <= 0 {
        Seq::empty()
    } else {
        let prev = spec_test_extract(nodes, expkv, name, refs, n - 1);
        match spec_resolve_entry(nodes, expkv, name, refs[n - 1]) {
            Ok(oids) => prev + oids,
            Err(_) => prev,
        }
    }
}

/// The views of a list of emission points.
pub open spec fn oid_views(s: Seq<OutputId>) -> Seq<OidView> {
    s.map_values(|o: OutputId| o@)
}

/// The views of a test's reference strings.
pub open spec fn ref_views(t: TestDefinition) -> Seq<Seq<char>> {
    t.extract_from@.map_values(|s: String| s@)
}

/// The error of the first test with an unresolvable reference, if any.
pub open spec fn spec_first_test_error(
    nodes: Seq<Node>,
    expkv: Seq<(Seq<char>, Vec<ComponentKey>)>,
    tests: Seq<TestDefinition>,
    n: int,
) -> Option<Seq<char>>
    decreases n,
{
    if n <= 0 {
        None
    } else {
        match spec_first_test_error(nodes, expkv, tests, n - 1) {
            Some(m) => Some(m),
            None => spec_last_bad_ref(
                nodes,
                expkv,
                tests[n - 1].name@,
                ref_views(tests[n - 1]),
                ref_views(tests[n - 1]).len() as int,
            ),
        }
    }
}

/// What the final `Config` and warnings owe to the intermediates.
pub open spec fn ok_config_rel(
    b2: ConfigBuilder,
    exp: OMap<Vec<ComponentKey>>,
    nodes: Seq<Node>,
    edges: Seq<Edge>,
    warn_src: ConfigBuilder,
    cw: (Config, Vec<String>),
) -> bool {
    let config = cw.0;
    let sn = b2.sources.kv_seq().len();
    &&& config.sources.kv_seq().len() == sn
    &&& (forall|i: int|
        0 <= i < sn ==> {
            let old_s = b2.sources.kv_seq()[i];
            let new_s = #[trigger] config.sources.kv_seq()[i];
            &&& new_s.0 == old_s.0
            &&& new_s.1.inner == old_s.1.inner
            &&& new_s.1.effective_ack == spec_effective_ack(nodes, edge_pairs(edges), i as usize)
        })
    &&& config.transforms.kv_seq().len() == b2.transforms.kv_seq().len()
    &&& (forall|i: int|
        0 <= i < b2.transforms.kv_seq().len() ==> {
            let old_t = b2.transforms.kv_seq()[i];
            let new_t = #[trigger] config.transforms.kv_seq()[i];
            &&& new_t.0 == old_t.0
            &&& new_t.1.inner == old_t.1.inner
            &&& new_t.1.inputs.views() =~= spec_inputs_for(
                nodes,
                edges,
                old_t.0,
                edges.len() as int,
            )
        })
    &&& config.sinks.kv_seq().len() == b2.sinks.kv_seq().len()
    &&& (forall|i: int|
        0 <= i < b2.sinks.kv_seq().len() ==> {
            let old_k = b2.sinks.kv_seq()[i];
            let new_k = #[trigger] config.sinks.kv_seq()[i];
            &&& new_k.0 == old_k.0
            &&& new_k.1.inner == old_k.1.inner
            &&& new_k.1.inputs.views() =~= spec_inputs_for(
                nodes,
                edges,
                old_k.0,
                edges.len() as int,
            )
        })
    &&& config.expansions == exp
    &&& config.tests@.len() == b2.tests@.len()
    &&& (forall|i: int|
        0 <= i < b2.tests@.len() ==> {
            let new_t = #[trigger] config.tests@[i];
            &&& new_t.name@ == b2.tests@[i].name@
            &&& oid_views(new_t.extract_from@) =~= spec_test_extract(
                nodes,
                exp.kv_seq(),
                b2.tests@[i].name@,
                ref_views(b2.tests@[i]),
                ref_views(b2.tests@[i]).len() as int,
            )
        })
    &&& str_views(cw.1@) =~= spec_all_glob_warns(&warn_src)
}

/// The successfully constructed middle of the pipeline: expansion,
/// glob rewriting and graph construction all related and error free.
#[verifier::opaque]
pub open spec fn pipeline_mid(
    b0: ConfigBuilder,
    b1: ConfigBuilder,
    b2: ConfigBuilder,
    exp: OMap<Vec<ComponentKey>>,
    nodes: Seq<Node>,
    edges: Seq<Edge>,
) -> bool {
    let sp = spec_expand_all(b0.transforms.kv_seq(), b0.transforms.kv_seq().len() as int);
    let expkv = exp.kv_seq();
    let rt = spec_resolve_transforms(
        nodes,
        expkv,
        b2.transforms.kv_seq(),
        b2.transforms.kv_seq().len() as int,
    );
    let rs = spec_resolve_sinks(nodes, expkv, b2.sinks.kv_seq(), b2.sinks.kv_seq().len() as int);
    &&& sp.2.len() == 0
    &&& trans_entries_match(b1.transforms.kv_seq(), sp.0)
    &&& b1.sources == b0.sources
    &&& b1.sinks == b0.sinks
    &&& b1.tests == b0.tests
    &&& exp_entries_match(expkv, sp.1)
    &&& glob_rewrite(b1, b2)
    &&& nodes_match(nodes, b2.sources.kv_seq(), b2.transforms.kv_seq(), b2.sinks.kv_seq())
    &&& (rt.1 + rs.1).len() == 0
    &&& edges_match(nodes, edges, rt.0 + rs.0)
}

/// The accumulated error list's exact shape after the type and cycle
/// checks.
#[verifier::opaque]
pub open spec fn errs_shape(
    es: Seq<Seq<char>>,
    b0: ConfigBuilder,
    b2: ConfigBuilder,
    nodes: Seq<Node>,
    edges: Seq<Edge>,
) -> bool {
    let soft = spec_name_errors(&b0) + spec_shape_errors(&b2) + spec_resource_errors(&b2)
        + spec_output_errors(&b2);
    let tc = spec_typecheck_errors(nodes, edges, edges.len() as int);
    if spec_acyclic(edge_pairs(edges)) {
        es =~= soft + tc
    } else {
        exists|p: Seq<usize>|
            is_cycle(edge_pairs(edges), p) && es =~= soft + tc + seq![
                msg_cycle(cycle_ids(nodes, p)),
            ]
    }
}

/// The materialised transforms: same keys and configurations, with
/// the inputs read back from the graph.
#[verifier::opaque]
pub open spec fn mat_t_ok(
    nt: OMap<TransformOuter<OutputId>>,
    tkv2: Seq<(Seq<char>, TransformOuter<String>)>,
    nodes: Seq<Node>,
    edges: Seq<Edge>,
) -> bool {
    &&& nt.kv_seq().len() == tkv2.len()
    &&& (forall|j: int|
        0 <= j < tkv2.len() ==> {
            let new_t = #[trigger] nt.kv_seq()[j];
            &&& new_t.0 == tkv2[j].0
            &&& new_t.1.inner == tkv2[j].1.inner
            &&& new_t.1.inputs.views() =~= spec_inputs_for(nodes, edges, tkv2[j].0, edges.len() as int)
        })
}

/// The materialised sinks, likewise.
#[verifier::opaque]
pub open spec fn mat_k_ok(
    nk: OMap<SinkOuter<OutputId>>,
    kkv2: Seq<(Seq<char>, SinkOuter<String>)>,
    nodes: Seq<Node>,
    edges: Seq<Edge>,
) -> bool {
    &&& nk.kv_seq().len() == kkv2.len()
    &&& (forall|j: int|
        0 <= j < kkv2.len() ==> {
            let new_k = #[trigger] nk.kv_seq()[j];
            &&& new_k.0 == kkv2[j].0
            &&& new_k.1.inner == kkv2[j].1.inner
            &&& new_k.1.inputs.views() =~= spec_inputs_for(nodes, edges, kkv2[j].0, edges.len() as int)
        })
}

/// The resolved test list: every reference of every test resolved.
#[verifier::opaque]
pub open spec fn tests_ok(
    rts: Seq<ResolvedTest>,
    tests0: Seq<TestDefinition>,
    nodes: Seq<Node>,
    expkv: Seq<(Seq<char>, Vec<ComponentKey>)>,
) -> bool {
    &&& rts.len() == tests0.len()
    &&& (forall|j: int|
        0 <= j < tests0.len() ==> {
            let new_t = #[trigger] rts[j];
            &&& new_t.name@ == tests0[j].name@
            &&& oid_views(new_t.extract_from@) =~= spec_test_extract(
                nodes,
                expkv,
                tests0[j].name@,
                ref_views(tests0[j]),
                ref_views(tests0[j]).len() as int,
            )
        })
    &&& spec_first_test_error(nodes, expkv, tests0, tests0.len() as int) is None
}

/// The whole pipeline, relative to the named intermediates: the
/// expanded builder `b1`, the glob-rewritten builder `b2`, the
/// expansion map `exp`, and the graph's node and edge lists.
pub open spec fn compile_rel(
    b0: ConfigBuilder,
    b1: ConfigBuilder,
    b2: ConfigBuilder,
    exp: OMap<Vec<ComponentKey>>,
    nodes: Seq<Node>,
    edges: Seq<Edge>,
    r: Result<(Config, Vec<String>), Vec<String>>,
) -> bool {
    let sp = spec_expand_all(b0.transforms.kv_seq(), b0.transforms.kv_seq().len() as int);
    let expkv = exp.kv_seq();
    &&& trans_entries_match(b1.transforms.kv_seq(), sp.0)
    &&& b1.sources == b0.sources
    &&& b1.sinks == b0.sinks
    &&& b1.tests == b0.tests
    &&& exp_entries_match(expkv, sp.1)
    &&& glob_rewrite(b1, b2)
    &&& nodes_match(nodes, b2.sources.kv_seq(), b2.transforms.kv_seq(), b2.sinks.kv_seq())
    &&& ({
        let rt = spec_resolve_transforms(
            nodes,
            expkv,
            b2.transforms.kv_seq(),
            b2.transforms.kv_seq().len() as int,
        );
        let rs = spec_resolve_sinks(nodes, expkv, b2.sinks.kv_seq(), b2.sinks.kv_seq().len() as int);
        let soft = spec_name_errors(&b0) + spec_shape_errors(&b2) + spec_resource_errors(&b2)
            + spec_output_errors(&b2);
        if (rt.1 + rs.1).len() > 0 {
            r matches Err(es) && str_views(es@) =~= soft + (rt.1 + rs.1)
        } else {
            &&& edges_match(nodes, edges, rt.0 + rs.0)
            &&& ({
                let tc = spec_typecheck_errors(nodes, edges, edges.len() as int);
                let acyclic = spec_acyclic(edge_pairs(edges));
                match spec_first_test_error(nodes, expkv, b2.tests@, b2.tests@.len() as int) {
                    Some(m) => r matches Err(es) && str_views(es@) =~= seq![m],
                    None => {
                        if soft.len() == 0 && tc.len() == 0 && acyclic {
                            r matches Ok(cw) && ok_config_rel(b2, exp, nodes, edges, b1, cw)
                        } else if acyclic {
                            r matches Err(es) && str_views(es@) =~= soft + tc
                        } else {
                            r matches Err(es) && exists|p: Seq<usize>|
                                is_cycle(edge_pairs(edges), p) && str_views(es@) =~= soft + tc
                                    + seq![msg_cycle(cycle_ids(nodes, p))]
                        }
                    },
                }
            })
        }
    })
}

/// Compiles the builder: the validated topology and the glob-phase
/// warnings, or the ordered error list.  An expansion failure is a
/// hard stop carrying the name errors and the expansion errors; every
/// other outcome is pinned by `compile_rel` against the pipeline's
/// intermediate states.
#[verifier::rlimit(100)]
pub fn compile(builder: ConfigBuilder) -> (r: Result<(Config, Vec<String>), Vec<String>>)
    ensures
        ({
            let sp = spec_expand_all(
                builder.transforms.kv_seq(),
                builder.transforms.kv_seq().len() as int,
            );
            &&& (sp.2.len() > 0 ==> (r matches Err(es) && str_views(es@) =~= spec_name_errors(
                &builder,
            ) + sp.2))
            &&& (sp.2.len() == 0 ==> exists|
                b1: ConfigBuilder,
                b2: ConfigBuilder,
                exp: OMap<Vec<ComponentKey>>,
                nodes: Seq<Node>,
                edges: Seq<Edge>,
            |
                #![trigger compile_rel(builder, b1, b2, exp, nodes, edges, r)]
                compile_rel(builder, b1, b2, exp, nodes, edges, r))
        }),
{
    let ghost b0 = builder;
    let mut b = builder;
    let mut errors: Vec<String> = Vec::new();
    match check_names(&b) {
        Ok(()) => {},
        Err(es) => {
            extend_errors(&mut errors, es);
        },
    }
    proof {
        assert(str_views(errors@) =~= spec_name_errors(&b0));
    }
    let expansions = match expand_macros(&mut b) {
        Ok(exp) => exp,
        Err(es) => {
            extend_errors(&mut errors, es);
            return Err(errors);
        },
    };
    let ghost gb1 = b;
    let warnings = expand_globs(&mut b);
    let ghost gb2 = b;
    match check_shape(&b) {
        Ok(()) => {},
        Err(es) => {
            extend_errors(&mut errors, es);
        },
    }
    match check_resources(&b) {
        Ok(()) => {},
        Err(es) => {
            extend_errors(&mut errors, es);
        },
    }
    match check_outputs(&b) {
        Ok(()) => {},
        Err(es) => {
            extend_errors(&mut errors, es);
        },
    }
    let ghost soft0 = spec_name_errors(&b0) + spec_shape_errors(&gb2) + spec_resource_errors(&gb2)
        + spec_output_errors(&gb2);
    proof {
        assert(str_views(errors@) =~= soft0);
    }
    let graph = match Graph::new(&b.sources, &b.transforms, &b.sinks, &expansions) {
        Ok(g) => g,
        Err(es) => {
            let ghost gnodes = choose|nodes: Seq<Node>|
                #![trigger nodes_match(nodes, b.sources.kv_seq(), b.transforms.kv_seq(), b.sinks.kv_seq())]
                {
                    let rt = spec_resolve_transforms(
                        nodes,
                        expansions.kv_seq(),
                        b.transforms.kv_seq(),
                        b.transforms.kv_seq().len() as int,
                    );
                    let rs = spec_resolve_sinks(
                        nodes,
                        expansions.kv_seq(),
                        b.sinks.kv_seq(),
                        b.sinks.kv_seq().len() as int,
                    );
                    &&& nodes_match(
                        nodes,
                        b.sources.kv_seq(),
                        b.transforms.kv_seq(),
                        b.sinks.kv_seq(),
                    )
                    &&& str_views(es@) =~= rt.1 + rs.1
                    &&& es@.len() > 0
                };
            extend_errors(&mut errors, es);
            proof {
                let ghost dummy_edges = Seq::<Edge>::empty();
                assert(compile_rel(b0, gb1, gb2, expansions, gnodes, dummy_edges, Err(errors)));
            }
            return Err(errors);
        },
    };
    let ghost gnodes = graph.nodes@;
    let ghost gedges = graph.edges@;
    proof {
        reveal(pipeline_mid);
        assert(pipeline_mid(b0, gb1, gb2, expansions, gnodes, gedges));
    }
    match graph.typecheck() {
        Ok(()) => {},
        Err(es) => {
            extend_errors(&mut errors, es);
        },
    }
    let ghost tc = spec_typecheck_errors(gnodes, gedges, gedges.len() as int);
    proof {
        assert(str_views(errors@) =~= soft0 + tc);
    }
    let cycle_result = graph.check_for_cycles();
    match cycle_result {
        Ok(()) => {},
        Err(e) => {
            push_err(&mut errors, e);
        },
    }
    proof {
        reveal(errs_shape);
        assert(errs_shape(str_views(errors@), b0, gb2, gnodes, gedges));
    }
    let ConfigBuilder { sources, transforms, sinks, tests } = b;
    let mut new_transforms: OMap<TransformOuter<OutputId>> = OMap::new();
    let ghost tkv2 = transforms.kv_seq();
    let mut tr_entries = transforms.take_entries();
    let tr_n = tr_entries.len();
    let mut ti: usize = 0;
    while ti < tr_n
        invariant
            ti <= tr_n,
            tr_n == tkv2.len(),
            tr_entries@.len() == tr_n - ti,
            forall|j: int|
                0 <= j < tr_entries@.len() ==> ((#[trigger] tr_entries@[j]).0@, tr_entries@[j].1)
                    == tkv2[ti + j],
            graph_wf(&graph),
            gnodes == graph.nodes@,
            gedges == graph.edges@,
            pipeline_mid(b0, gb1, gb2, expansions, gnodes, gedges),
            errs_shape(str_views(errors@), b0, gb2, gnodes, gedges),
            str_views(warnings@) =~= spec_all_glob_warns(&gb1),
            new_transforms.kv_seq().len() == ti,
            forall|j: int|
                0 <= j < ti ==> {
                    let new_t = #[trigger] new_transforms.kv_seq()[j];
                    &&& new_t.0 == tkv2[j].0
                    &&& new_t.1.inner == tkv2[j].1.inner
                    &&& new_t.1.inputs.views() =~= spec_inputs_for(
                        gnodes,
                        gedges,
                        tkv2[j].0,
                        gedges.len() as int,
                    )
                },
        decreases tr_n - ti,
    {
        let (key, outer) = tr_entries.remove(0);
        proof {
            assert((key@, outer) == tkv2[ti as int]);
        }
        let resolved = graph.inputs_for(&key);
        new_transforms.push(key, outer.with_inputs(resolved));
        ti = ti + 1;
    }
    proof {
        reveal(mat_t_ok);
        assert(mat_t_ok(new_transforms, tkv2, gnodes, gedges));
    }
    let mut new_sinks: OMap<SinkOuter<OutputId>> = OMap::new();
    let ghost kkv2 = sinks.kv_seq();
    let mut sk_entries = sinks.take_entries();
    let sk_n = sk_entries.len();
    let mut ki: usize = 0;
    while ki < sk_n
        invariant
            ki <= sk_n,
            sk_n == kkv2.len(),
            sk_entries@.len() == sk_n - ki,
            forall|j: int|
                0 <= j < sk_entries@.len() ==> ((#[trigger] sk_entries@[j]).0@, sk_entries@[j].1)
                    == kkv2[ki + j],
            graph_wf(&graph),
            gnodes == graph.nodes@,
            gedges == graph.edges@,
            pipeline_mid(b0, gb1, gb2, expansions, gnodes, gedges),
            errs_shape(str_views(errors@), b0, gb2, gnodes, gedges),
            str_views(warnings@) =~= spec_all_glob_warns(&gb1),
            mat_t_ok(new_transforms, tkv2, gnodes, gedges),
            new_sinks.kv_seq().len() == ki,
            forall|j: int|
                0 <= j < ki ==> {
                    let new_k = #[trigger] new_sinks.kv_seq()[j];
                    &&& new_k.0 == kkv2[j].0
                    &&& new_k.1.inner == kkv2[j].1.inner
                    &&& new_k.1.inputs.views() =~= spec_inputs_for(
                        gnodes,
                        gedges,
                        kkv2[j].0,
                        gedges.len() as int,
                    )
                },
        decreases sk_n - ki,
    {
        let (key, outer) = sk_entries.remove(0);
        proof {
            assert((key@, outer) == kkv2[ki as int]);
        }
        let resolved = graph.inputs_for(&key);
        new_sinks.push(key, outer.with_inputs(resolved));
        ki = ki + 1;
    }
    proof {
        reveal(mat_k_ok);
        assert(mat_k_ok(new_sinks, kkv2, gnodes, gedges));
    }
    let ghost expkv = expansions.kv_seq();
    let mut resolved_tests: Vec<ResolvedTest> = Vec::new();
    let mut test_list = tests;
    let ghost tests0 = test_list@;
    let tn = test_list.len();
    let mut qi: usize = 0;
    while qi < tn
        invariant
            qi <= tn,
            tn == tests0.len(),
            test_list@.len() == tn - qi,
            forall|j: int| 0 <= j < test_list@.len() ==> #[trigger] test_list@[j] == tests0[qi + j],
            graph_wf(&graph),
            gnodes == graph.nodes@,
            gedges == graph.edges@,
            expkv == expansions.kv_seq(),
            tests0 == gb2.tests@,
            b0 == builder,
            pipeline_mid(b0, gb1, gb2, expansions, gnodes, gedges),
            errs_shape(str_views(errors@), b0, gb2, gnodes, gedges),
            str_views(warnings@) =~= spec_all_glob_warns(&gb1),
            mat_t_ok(new_transforms, tkv2, gnodes, gedges),
            mat_k_ok(new_sinks, kkv2, gnodes, gedges),
            tkv2 == gb2.transforms.kv_seq(),
            kkv2 == gb2.sinks.kv_seq(),
            spec_first_test_error(gnodes, expkv, tests0, qi as int) is None,
            resolved_tests@.len() == qi,
            forall|j: int|
                0 <= j < qi ==> {
                    let new_t = #[trigger] resolved_tests@[j];
                    &&& new_t.name@ == tests0[j].name@
                    &&& oid_views(new_t.extract_from@) =~= spec_test_extract(
                        gnodes,
                        expkv,
                        tests0[j].name@,
                        ref_views(tests0[j]),
                        ref_views(tests0[j]).len() as int,
                    )
                },
        decreases tn - qi,
    {
        let t = test_list.remove(0);
        proof {
            assert(t == tests0[qi as int]);
        }
        let mut extract: Vec<OutputId> = Vec::new();
        let rn = t.extract_from.len();
        let mut ri: usize = 0;
        let mut failed: Option<String> = None;
        while ri < rn
            invariant
                ri <= rn,
                rn == t.extract_from@.len(),
                rn == ref_views(t).len(),
                graph_wf(&graph),
                gnodes == graph.nodes@,
                expkv == expansions.kv_seq(),
                match failed {
                    Some(msg) => spec_last_bad_ref(gnodes, expkv, t.name@, ref_views(t), ri as int)
                        == Some(msg@),
                    None => spec_last_bad_ref(gnodes, expkv, t.name@, ref_views(t), ri as int)
                        is None,
                },
                failed is None ==> oid_views(extract@) =~= spec_test_extract(
                    gnodes,
                    expkv,
                    t.name@,
                    ref_views(t),
                    ri as int,
                ),
            decreases rn - ri,
        {
            proof {
                assert(t.extract_from@[ri as int]@ == ref_views(t)[ri as int]);
            }
            match resolve_entry(
                &graph.nodes,
                &expansions,
                &ComponentKey { id: t.name.clone() },
                &t.extract_from[ri],
            ) {
                Ok(oids) => {
                    let ghost s = spec_resolve_entry(
                        gnodes,
                        expkv,
                        t.name@,
                        ref_views(t)[ri as int],
                    )->Ok_0;
                    let ghost ext0 = oid_views(extract@);
                    let on = oids.len();
                    let mut oi: usize = 0;
                    while oi < on
                        invariant
                            oi <= on,
                            on == oids@.len(),
                            on == s.len(),
                            gnodes == graph.nodes@,
                            forall|j: int|
                                0 <= j < oids@.len() ==> {
                                    &&& (#[trigger] oids@[j]).0 < gnodes.len()
                                    &&& gnodes[oids@[j].0 as int].key@ == s[j].0
                                    &&& crate::id::port_view(&oids@[j].1) == s[j].1
                                },
                            oid_views(extract@) =~= ext0 + s.take(oi as int),
                        decreases on - oi,
                    {
                        let port = match &oids[oi].1 {
                            Some(p) => Some(p.clone()),
                            None => None,
                        };
                        let oid = OutputId { component: graph.nodes[oids[oi].0].key.dup(), port };
                        let ghost pre_views = oid_views(extract@);
                        let ghost goid = oid;
                        proof {
                            assert(goid@ == s[oi as int]);
                        }
                        extract.push(oid);
                        proof {
                            assert(oid_views(extract@) =~= pre_views.push(goid@));
                            assert(pre_views.push(goid@) =~= ext0 + s.take(oi as int + 1));
                        }
                        oi = oi + 1;
                    }
                    proof {
                        assert(s.take(on as int) =~= s);
                        assert(oid_views(extract@) =~= ext0 + s);
                    }
                },
                Err(_) => {
                    failed = Some(
                        mk_test_unresolved(t.name.as_str(), t.extract_from[ri].as_str()),
                    );
                },
            }
            ri = ri + 1;
        }
        match failed {
            Some(msg) => {
                let ghost m = msg@;
                let mut only: Vec<String> = Vec::new();
                push_err(&mut only, msg);
                proof {
                    reveal(pipeline_mid);
                    assert(spec_expand_all(
                        b0.transforms.kv_seq(),
                        b0.transforms.kv_seq().len() as int,
                    ).2.len() == 0);
                    assert(spec_first_test_error(gnodes, expkv, tests0, qi as int + 1) == Some(m));
                    lemma_first_test_error_stable(gnodes, expkv, tests0, qi as int + 1, tn as int);
                    assert(str_views(only@) =~= seq![m]);
                    assert(compile_rel(b0, gb1, gb2, expansions, gnodes, gedges, Err(only)));
                }
                return Err(only);
            },
            None => {},
        }
        resolved_tests.push(ResolvedTest { name: t.name, extract_from: extract });
        qi = qi + 1;
    }
    proof {
        reveal(tests_ok);
        assert(tests_ok(resolved_tests@, tests0, gnodes, expkv));
    }
    if errors.len() == 0 {
        let sn = sources.len();
        let ghost skv2 = sources.kv_seq();
        proof {
            assert(sn <= graph.nodes@.len());
        }
        let flags = graph.source_ack_flags(sn);
        let mut new_sources: OMap<SourceOuter> = OMap::new();
        let mut src_entries = sources.take_entries();
        let mut si: usize = 0;
        while si < sn
            invariant
                si <= sn,
                sn == skv2.len(),
                skv2 == gb2.sources.kv_seq(),
                src_entries@.len() == sn - si,
                forall|j: int|
                    0 <= j < src_entries@.len() ==> ((#[trigger] src_entries@[j]).0@,
                    src_entries@[j].1) == skv2[si + j],
                pipeline_mid(b0, gb1, gb2, expansions, gnodes, gedges),
                errs_shape(str_views(errors@), b0, gb2, gnodes, gedges),
                errors@.len() == 0,
                str_views(warnings@) =~= spec_all_glob_warns(&gb1),
                mat_t_ok(new_transforms, tkv2, gnodes, gedges),
                mat_k_ok(new_sinks, kkv2, gnodes, gedges),
                tkv2 == gb2.transforms.kv_seq(),
                kkv2 == gb2.sinks.kv_seq(),
                tests_ok(resolved_tests@, tests0, gnodes, expkv),
                tests0 == gb2.tests@,
                expkv == expansions.kv_seq(),
                flags@.len() == sn,
                forall|j: int|
                    0 <= j < sn ==> flags@[j] == spec_effective_ack(
                        gnodes,
                        edge_pairs(gedges),
                        j as usize,
                    ),
                new_sources.kv_seq().len() == si,
                forall|j: int|
                    0 <= j < si ==> {
                        let new_s = #[trigger] new_sources.kv_seq()[j];
                        &&& new_s.0 == skv2[j].0
                        &&& new_s.1.inner == skv2[j].1.inner
                        &&& new_s.1.effective_ack == spec_effective_ack(
                            gnodes,
                            edge_pairs(gedges),
                            j as usize,
                        )
                    },
            decreases sn - si,
        {
            let (key, outer) = src_entries.remove(0);
            proof {
                assert((key@, outer) == skv2[si as int]);
            }
            let flag = flags[si];
            new_sources.push(key, SourceOuter { inner: outer.inner, effective_ack: flag });
            si = si + 1;
        }
        let config = Config {
            sources: new_sources,
            transforms: new_transforms,
            sinks: new_sinks,
            tests: resolved_tests,
            expansions,
        };
        let ghost gexp = config.expansions;
        let r = Ok((config, warnings));
        proof {
            reveal(pipeline_mid);
            reveal(errs_shape);
            reveal(mat_t_ok);
            reveal(mat_k_ok);
            reveal(tests_ok);
            assert(str_views(errors@).len() == 0);
            assert(spec_acyclic(edge_pairs(gedges)));
            assert(ok_config_rel(gb2, gexp, gnodes, gedges, gb1, r->Ok_0));
            assert(compile_rel(b0, gb1, gb2, gexp, gnodes, gedges, r));
        }
        r
    } else {
        proof {
            reveal(pipeline_mid);
            reveal(errs_shape);
            assert(compile_rel(b0, gb1, gb2, expansions, gnodes, gedges, Err(errors)));
        }
        Err(errors)
    }
}

/// Once a test has failed, later tests do not change the verdict.
pub proof fn lemma_first_test_error_stable(
    nodes: Seq<Node>,
    expkv: Seq<(Seq<char>, Vec<ComponentKey>)>,
    tests: Seq<TestDefinition>,
    k: int,
    n: int,
)
    requires
        0 < k <= n,
        spec_first_test_error(nodes, expkv, tests, k) is Some,
    ensures
        spec_first_test_error(nodes, expkv, tests, n) == spec_first_test_error(
            nodes,
            expkv,
            tests,
            k,
        ),
    decreases n,
{
    if n > k {
        lemma_first_test_error_stable(nodes, expkv, tests, k, n - 1);
    }
}

impl ConfigBuilder {
    /// Compiles the builder, keeping the topology alone: the same
    /// pipeline as `compile`, with the warnings dropped.
    #[verifier::rlimit(100)]
    #[verifier::spinoff_prover]
    pub fn build(self) -> (r: Result<Config, Vec<String>>)
        ensures
            spec_expand_all(self.transforms.kv_seq(), self.transforms.kv_seq().len() as int).2.len()
                > 0 ==> (r matches Err(es) && str_views(es@) =~= spec_name_errors(&self)
                + spec_expand_all(
                self.transforms.kv_seq(),
                self.transforms.kv_seq().len() as int,
            ).2),
            spec_expand_all(self.transforms.kv_seq(), self.transforms.kv_seq().len() as int).2.len()
                == 0 && r is Err ==> exists|
                w: (ConfigBuilder, ConfigBuilder, OMap<Vec<ComponentKey>>, Seq<Node>, Seq<Edge>),
            | compile_rel(self, w.0, w.1, w.2, w.3, w.4, Err(r->Err_0)),
            spec_expand_all(self.transforms.kv_seq(), self.transforms.kv_seq().len() as int).2.len()
                == 0 && r is Ok ==> exists|
                w: (
                    ConfigBuilder,
                    ConfigBuilder,
                    OMap<Vec<ComponentKey>>,
                    Seq<Node>,
                    Seq<Edge>,
                    Vec<String>,
                ),
            | compile_rel(self, w.0, w.1, w.2, w.3, w.4, Ok((r->Ok_0, w.5))),
    {
        let ghost gs = self;
        match compile(self) {
            Ok(cw) => {
                let ghost gcw = cw;
                let (config, warnings) = cw;

                proof {
                    if spec_expand_all(
                        gs.transforms.kv_seq(),
                        gs.transforms.kv_seq().len() as int,
                    ).2.len() > 0 {
                        assert(false);
                    }
                    let (b1, b2, exp, nodes, edges) = choose|
                        b1: ConfigBuilder,
                        b2: ConfigBuilder,
                        exp: OMap<Vec<ComponentKey>>,
                        nodes: Seq<Node>,
                        edges: Seq<Edge>,
                    |
                        #![trigger compile_rel(gs, b1, b2, exp, nodes, edges, Ok(gcw))]
                        compile_rel(gs, b1, b2, exp, nodes, edges, Ok(gcw));
                    assert(gcw == (config, warnings));
                    let w = (b1, b2, exp, nodes, edges, warnings);
                    let rr: Result<Config, Vec<String>> = Ok(config);
                    assert(rr->Ok_0 == config);
                    assert(compile_rel(gs, w.0, w.1, w.2, w.3, w.4, Ok((rr->Ok_0, w.5))));
                }
                Ok(config)
            },
            Err(es) => {
                proof {
                    if spec_expand_all(
                        gs.transforms.kv_seq(),
                        gs.transforms.kv_seq().len() as int,
                    ).2.len() == 0 {
                        let (b1, b2, exp, nodes, edges) = choose|
                        b1: ConfigBuilder,
                        b2: ConfigBuilder,
                        exp: OMap<Vec<ComponentKey>>,
                        nodes: Seq<Node>,
                        edges: Seq<Edge>,
                    |
                            #![trigger compile_rel(gs, b1, b2, exp, nodes, edges, Err(es))]
                            compile_rel(gs, b1, b2, exp, nodes, edges, Err(es));
                        let w = (b1, b2, exp, nodes, edges);
                        let rr: Result<Config, Vec<String>> = Err(es);
                        assert(rr->Err_0 == es);
                        assert(compile_rel(gs, w.0, w.1, w.2, w.3, w.4, Err(rr->Err_0)));
                    }
                }
                Err(es)
            },
        }
    }
}

} // verus!
