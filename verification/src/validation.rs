//! Structural validators run over the raw builder.
//!
//! Each check scans the builder and returns an ordered error list; the
//! orchestrator accumulates these rather than stopping on the first.

use vstd::prelude::*;
use crate::config::{ConfigBuilder, SinkOuter, SourceOuter, TransformOuter};
use crate::id::{port_view, port_eq};
use crate::messages::{str_views, lit, push_err, mk_name_has_dot, mk_duplicate_name, mk_no_inputs,
    mk_resource_conflict, mk_duplicate_output, msg_name_has_dot, msg_duplicate_name,
    msg_no_inputs, msg_resource_conflict, msg_duplicate_output};
use crate::strutil::contains_dot;

verus! {

/// One dot-in-name error per offending key, in order.
pub open spec fn spec_dot_errors(keys: Seq<Seq<char>>, n: int) -> Seq<Seq<char>>
    decreases n,
{
    if n <= 0 {
        Seq::empty()
    } else {
        let rest = spec_dot_errors(keys, n - 1);
        if keys[n - 1].contains('.') {
            rest.push(msg_name_has_dot(keys[n - 1]))
        } else {
            rest
        }
    }
}

/// The keys the name check walks: transforms, then sources, then sinks.
pub open spec fn spec_all_keys(b: &ConfigBuilder) -> Seq<Seq<char>> {
    b.transforms.key_seq() + b.sources.key_seq() + b.sinks.key_seq()
}

pub open spec fn spec_name_errors(b: &ConfigBuilder) -> Seq<Seq<char>> {
    spec_dot_errors(spec_all_keys(b), spec_all_keys(b).len() as int)
}

/// Component ids must not contain a `.`, which the reference grammar
/// reserves; run before expansion, which may itself synthesize dotted
/// ids legitimately.
pub fn check_names(b: &ConfigBuilder) -> (r: Result<(), Vec<String>>)
    ensures
        match r {
            Ok(()) => spec_name_errors(b).len() == 0,
            Err(es) => str_views(es@) =~= spec_name_errors(b) && es@.len() > 0,
        },
{
    let mut errors: Vec<String> = Vec::new();
    let tn = b.transforms.len();
    let sn = b.sources.len();
    let kn = b.sinks.len();
    for i in 0..tn
        invariant
            tn == b.transforms.kv_seq().len(),
            str_views(errors@) =~= spec_dot_errors(spec_all_keys(b), i as int),
    {
        proof {
            assert(spec_all_keys(b)[i as int] == b.transforms.key_seq()[i as int]);
            assert(b.transforms.key_seq()[i as int] == b.transforms.kv_seq()[i as int].0);
        }
        let e = b.transforms.entry_at(i);
        if contains_dot(e.0.id()) {
            push_err(&mut errors, mk_name_has_dot(e.0.id()));
        }
    }
    for i in 0..sn
        invariant
            tn == b.transforms.kv_seq().len(),
            sn == b.sources.kv_seq().len(),
            str_views(errors@) =~= spec_dot_errors(spec_all_keys(b), tn + i as int),
    {
        proof {
            assert(spec_all_keys(b)[tn + i as int] == b.sources.key_seq()[i as int]);
            assert(b.sources.key_seq()[i as int] == b.sources.kv_seq()[i as int].0);
        }
        let e = b.sources.entry_at(i);
        if contains_dot(e.0.id()) {
            push_err(&mut errors, mk_name_has_dot(e.0.id()));
        }
    }
    for i in 0..kn
        invariant
            tn == b.transforms.kv_seq().len(),
            sn == b.sources.kv_seq().len(),
            kn == b.sinks.kv_seq().len(),
            str_views(errors@) =~= spec_dot_errors(spec_all_keys(b), tn + sn + i as int),
    {
        proof {
            assert(spec_all_keys(b)[tn + sn + i as int] == b.sinks.key_seq()[i as int]);
            assert(b.sinks.key_seq()[i as int] == b.sinks.kv_seq()[i as int].0);
        }
        let e = b.sinks.entry_at(i);
        if contains_dot(e.0.id()) {
            push_err(&mut errors, mk_name_has_dot(e.0.id()));
        }
    }
    proof {
        assert(spec_all_keys(b).len() == tn + sn + kn);
    }
    if errors.len() == 0 {
        Ok(())
    } else {
        Err(errors)
    }
}

/// Shape errors contributed by the transforms, in declaration order:
/// a duplicate-name error when the id is already a source id, then a
/// no-inputs error for an empty input list.
pub open spec fn spec_transform_shape_errors(b: &ConfigBuilder, n: int) -> Seq<Seq<char>>
    decreases n,
{
    if n <= 0 {
        Seq::empty()
    } else {
        let e = b.transforms.kv_seq()[n - 1];
        let rest = spec_transform_shape_errors(b, n - 1);
        let rest2 = if b.sources.spec_contains(e.0) {
            rest.push(msg_duplicate_name(e.0))
        } else {
            rest
        };
        if e.1.inputs.items@.len() == 0 {
            rest2.push(msg_no_inputs(e.0))
        } else {
            rest2
        }
    }
}

/// Shape errors contributed by the sinks, in declaration order.
pub open spec fn spec_sink_shape_errors(b: &ConfigBuilder, n: int) -> Seq<Seq<char>>
    decreases n,
{
    if n <= 0 {
        Seq::empty()
    } else {
        let e = b.sinks.kv_seq()[n - 1];
        let rest = spec_sink_shape_errors(b, n - 1);
        let rest2 = if b.sources.spec_contains(e.0) || b.transforms.spec_contains(e.0) {
            rest.push(msg_duplicate_name(e.0))
        } else {
            rest
        };
        if e.1.inputs.items@.len() == 0 {
            rest2.push(msg_no_inputs(e.0))
        } else {
            rest2
        }
    }
}

pub open spec fn spec_shape_head(b: &ConfigBuilder) -> Seq<Seq<char>> {
    let head = if b.sources.spec_len() == 0 {
        seq!["No sources defined in the config"@]
    } else {
        Seq::empty()
    };
    if b.sinks.spec_len() == 0 {
        head.push("No sinks defined in the config"@)
    } else {
        head
    }
}

pub open spec fn spec_shape_errors(b: &ConfigBuilder) -> Seq<Seq<char>> {
    spec_shape_head(b) + spec_transform_shape_errors(b, b.transforms.spec_len() as int)
        + spec_sink_shape_errors(b, b.sinks.spec_len() as int)
}

/// The topology must hold at least one source and one sink, ids must
/// be unique across roles, and every transform and sink must declare
/// at least one input.
pub fn check_shape(b: &ConfigBuilder) -> (r: Result<(), Vec<String>>)
    ensures
        match r {
            Ok(()) => spec_shape_errors(b).len() == 0,
            Err(es) => str_views(es@) =~= spec_shape_errors(b) && es@.len() > 0,
        },
{
    let mut errors: Vec<String> = Vec::new();
    if b.sources.is_empty() {
        push_err(&mut errors, lit("No sources defined in the config"));
    }
    if b.sinks.is_empty() {
        push_err(&mut errors, lit("No sinks defined in the config"));
    }
    proof {
        assert(str_views(errors@) =~= spec_shape_head(b));
    }
    let ghost head2 = str_views(errors@);
    let tn = b.transforms.len();
    for i in 0..tn
        invariant
            tn == b.transforms.kv_seq().len(),
            str_views(errors@) =~= head2 + spec_transform_shape_errors(b, i as int),
    {
        let e = b.transforms.entry_at(i);
        if b.sources.contains(&e.0) {
            push_err(&mut errors, mk_duplicate_name(e.0.id()));
        }
        if e.1.inputs.len() == 0 {
            push_err(&mut errors, mk_no_inputs(e.0.id()));
        }
    }
    let kn = b.sinks.len();
    for i in 0..kn
        invariant
            tn == b.transforms.kv_seq().len(),
            kn == b.sinks.kv_seq().len(),
            str_views(errors@) =~= head2 + spec_transform_shape_errors(b, tn as int)
                + spec_sink_shape_errors(b, i as int),
    {
        let e = b.sinks.entry_at(i);
        if b.sources.contains(&e.0) || b.transforms.contains(&e.0) {
            push_err(&mut errors, mk_duplicate_name(e.0.id()));
        }
        if e.1.inputs.len() == 0 {
            push_err(&mut errors, mk_no_inputs(e.0.id()));
        }
    }
    if errors.len() == 0 {
        Ok(())
    } else {
        Err(errors)
    }
}

/// Whether some source before index `i` claims the resource.
pub open spec fn spec_source_claims_before(
    kv: Seq<(Seq<char>, SourceOuter)>,
    i: int,
    r: Seq<char>,
) -> bool {
    exists|i2: int, j2: int|
        0 <= i2 < i && 0 <= j2 < kv[i2].1.inner.resources@.len() && (#[trigger] kv[i2].1.inner.resources@[j2])@ == r
}

/// Whether some sink before index `i` claims the resource.
pub open spec fn spec_sink_claims_before(
    kv: Seq<(Seq<char>, SinkOuter<String>)>,
    i: int,
    r: Seq<char>,
) -> bool {
    exists|i2: int, j2: int|
        0 <= i2 < i && 0 <= j2 < kv[i2].1.inner.resources@.len() && (#[trigger] kv[i2].1.inner.resources@[j2])@ == r
}

/// Conflict errors from one source's resource list.
pub open spec fn spec_source_res_row(
    kv: Seq<(Seq<char>, SourceOuter)>,
    i: int,
    m: int,
) -> Seq<Seq<char>>
    decreases m,
{
    if m <= 0 {
        Seq::empty()
    } else {
        let rest = spec_source_res_row(kv, i, m - 1);
        if spec_source_claims_before(kv, i, kv[i].1.inner.resources@[m - 1]@) {
            rest.push(msg_resource_conflict(kv[i].1.inner.resources@[m - 1]@))
        } else {
            rest
        }
    }
}

pub open spec fn spec_source_res_errors(kv: Seq<(Seq<char>, SourceOuter)>, n: int) -> Seq<Seq<char>>
    decreases n,
{
    if n <= 0 {
        Seq::empty()
    } else {
        spec_source_res_errors(kv, n - 1) + spec_source_res_row(
            kv,
            n - 1,
            kv[n - 1].1.inner.resources@.len() as int,
        )
    }
}

/// Conflict errors from one sink's resource list.
pub open spec fn spec_sink_res_row(
    kv: Seq<(Seq<char>, SinkOuter<String>)>,
    i: int,
    m: int,
) -> Seq<Seq<char>>
    decreases m,
{
    if m <= 0 {
        Seq::empty()
    } else {
        let rest = spec_sink_res_row(kv, i, m - 1);
        if spec_sink_claims_before(kv, i, kv[i].1.inner.resources@[m - 1]@) {
            rest.push(msg_resource_conflict(kv[i].1.inner.resources@[m - 1]@))
        } else {
            rest
        }
    }
}

pub open spec fn spec_sink_res_errors(
    kv: Seq<(Seq<char>, SinkOuter<String>)>,
    n: int,
) -> Seq<Seq<char>>
    decreases n,
{
    if n <= 0 {
        Seq::empty()
    } else {
        spec_sink_res_errors(kv, n - 1) + spec_sink_res_row(
            kv,
            n - 1,
            kv[n - 1].1.inner.resources@.len() as int,
        )
    }
}

pub open spec fn spec_resource_errors(b: &ConfigBuilder) -> Seq<Seq<char>> {
    spec_source_res_errors(b.sources.kv_seq(), b.sources.spec_len() as int)
        + spec_sink_res_errors(b.sinks.kv_seq(), b.sinks.spec_len() as int)
}

/// Looks for an equal resource string among sources before `i`.
fn source_claims_before(b: &ConfigBuilder, i: usize, r: &String) -> (found: bool)
    requires
        i <= b.sources.kv_seq().len(),
    ensures
        found == spec_source_claims_before(b.sources.kv_seq(), i as int, r@),
{
    for i2 in 0..i
        invariant
            i <= b.sources.kv_seq().len(),
            forall|a: int, c: int|
                0 <= a < i2 && 0 <= c < b.sources.kv_seq()[a].1.inner.resources@.len()
                    ==> (#[trigger] b.sources.kv_seq()[a].1.inner.resources@[c])@ != r@,
    {
        let e = b.sources.entry_at(i2);
        let m = e.1.inner.resources.len();
        for j2 in 0..m
            invariant
                i <= b.sources.kv_seq().len(),
                i2 < i,
                i2 < b.sources.kv_seq().len(),
                m == b.sources.kv_seq()[i2 as int].1.inner.resources@.len(),
                e.1 == b.sources.kv_seq()[i2 as int].1,
                forall|a: int, c: int|
                    0 <= a < i2 && 0 <= c < b.sources.kv_seq()[a].1.inner.resources@.len()
                        ==> (#[trigger] b.sources.kv_seq()[a].1.inner.resources@[c])@ != r@,
                forall|c: int|
                    0 <= c < j2 ==> (#[trigger] b.sources.kv_seq()[i2 as int].1.inner.resources@[c])@ != r@,
        {
            if e.1.inner.resources[j2] == *r {
                proof {
                    assert((b.sources.kv_seq()[i2 as int].1.inner.resources@[j2 as int])@ == r@);
                }
                return true;
            }
        }
    }
    false
}

/// Looks for an equal resource string among sinks before `i`.
fn sink_claims_before(b: &ConfigBuilder, i: usize, r: &String) -> (found: bool)
    requires
        i <= b.sinks.kv_seq().len(),
    ensures
        found == spec_sink_claims_before(b.sinks.kv_seq(), i as int, r@),
{
    for i2 in 0..i
        invariant
            i <= b.sinks.kv_seq().len(),
            forall|a: int, c: int|
                0 <= a < i2 && 0 <= c < b.sinks.kv_seq()[a].1.inner.resources@.len()
                    ==> (#[trigger] b.sinks.kv_seq()[a].1.inner.resources@[c])@ != r@,
    {
        let e = b.sinks.entry_at(i2);
        let m = e.1.inner.resources.len();
        for j2 in 0..m
            invariant
                i <= b.sinks.kv_seq().len(),
                i2 < i,
                i2 < b.sinks.kv_seq().len(),
                m == b.sinks.kv_seq()[i2 as int].1.inner.resources@.len(),
                e.1 == b.sinks.kv_seq()[i2 as int].1,
                forall|a: int, c: int|
                    0 <= a < i2 && 0 <= c < b.sinks.kv_seq()[a].1.inner.resources@.len()
                        ==> (#[trigger] b.sinks.kv_seq()[a].1.inner.resources@[c])@ != r@,
                forall|c: int|
                    0 <= c < j2 ==> (#[trigger] b.sinks.kv_seq()[i2 as int].1.inner.resources@[c])@ != r@,
        {
            if e.1.inner.resources[j2] == *r {
                proof {
                    assert((b.sinks.kv_seq()[i2 as int].1.inner.resources@[j2 as int])@ == r@);
                }
                return true;
            }
        }
    }
    false
}

/// No external resource may be claimed by two sources, nor by two
/// sinks: each later claim of an already-claimed resource is an error.
pub fn check_resources(b: &ConfigBuilder) -> (r: Result<(), Vec<String>>)
    ensures
        match r {
            Ok(()) => spec_resource_errors(b).len() == 0,
            Err(es) => str_views(es@) =~= spec_resource_errors(b) && es@.len() > 0,
        },
{
    let mut errors: Vec<String> = Vec::new();
    let sn = b.sources.len();
    for i in 0..sn
        invariant
            sn == b.sources.kv_seq().len(),
            str_views(errors@) =~= spec_source_res_errors(b.sources.kv_seq(), i as int),
    {
        let e = b.sources.entry_at(i);
        let m = e.1.inner.resources.len();
        for j in 0..m
            invariant
                sn == b.sources.kv_seq().len(),
                i < b.sources.kv_seq().len(),
                m == b.sources.kv_seq()[i as int].1.inner.resources@.len(),
                e.1 == b.sources.kv_seq()[i as int].1,
                str_views(errors@) =~= spec_source_res_errors(b.sources.kv_seq(), i as int)
                    + spec_source_res_row(b.sources.kv_seq(), i as int, j as int),
        {
            if source_claims_before(b, i, &e.1.inner.resources[j]) {
                push_err(&mut errors, mk_resource_conflict(e.1.inner.resources[j].as_str()));
            }
        }
    }
    let ghost src_errs = str_views(errors@);
    let kn = b.sinks.len();
    for i in 0..kn
        invariant
            kn == b.sinks.kv_seq().len(),
            str_views(errors@) =~= src_errs + spec_sink_res_errors(b.sinks.kv_seq(), i as int),
    {
        let e = b.sinks.entry_at(i);
        let m = e.1.inner.resources.len();
        for j in 0..m
            invariant
                kn == b.sinks.kv_seq().len(),
                i < b.sinks.kv_seq().len(),
                m == b.sinks.kv_seq()[i as int].1.inner.resources@.len(),
                e.1 == b.sinks.kv_seq()[i as int].1,
                str_views(errors@) =~= src_errs + spec_sink_res_errors(b.sinks.kv_seq(), i as int)
                    + spec_sink_res_row(b.sinks.kv_seq(), i as int, j as int),
        {
            if sink_claims_before(b, i, &e.1.inner.resources[j]) {
                push_err(&mut errors, mk_resource_conflict(e.1.inner.resources[j].as_str()));
            }
        }
    }
    if errors.len() == 0 {
        Ok(())
    } else {
        Err(errors)
    }
}

/// The rendering of an output's port: the port's characters, or empty
/// for the default output.
pub open spec fn spec_port_text(p: Option<Seq<char>>) -> Seq<char> {
    match p {
        Some(q) => q,
        None => ""@,
    }
}

/// Duplicate-output errors from one component's declared outputs.
pub open spec fn spec_output_row(
    id: Seq<char>,
    outs: Seq<crate::config::Output>,
    m: int,
) -> Seq<Seq<char>>
    decreases m,
{
    if m <= 0 {
        Seq::empty()
    } else {
        let rest = spec_output_row(id, outs, m - 1);
        if exists|j: int|
            0 <= j < m - 1 && (#[trigger] port_view(&outs[j].port)) == port_view(
                &outs[m - 1].port,
            ) {
            rest.push(msg_duplicate_output(id, spec_port_text(port_view(&outs[m - 1].port))))
        } else {
            rest
        }
    }
}

pub open spec fn spec_source_output_errors(
    kv: Seq<(Seq<char>, SourceOuter)>,
    n: int,
) -> Seq<Seq<char>>
    decreases n,
{
    if n <= 0 {
        Seq::empty()
    } else {
        spec_source_output_errors(kv, n - 1) + spec_output_row(
            kv[n - 1].0,
            kv[n - 1].1.inner.outputs@,
            kv[n - 1].1.inner.outputs@.len() as int,
        )
    }
}

pub open spec fn spec_transform_output_errors(
    kv: Seq<(Seq<char>, TransformOuter<String>)>,
    n: int,
) -> Seq<Seq<char>>
    decreases n,
{
    if n <= 0 {
        Seq::empty()
    } else {
        spec_transform_output_errors(kv, n - 1) + spec_output_row(
            kv[n - 1].0,
            kv[n - 1].1.inner.outputs@,
            kv[n - 1].1.inner.outputs@.len() as int,
        )
    }
}

pub open spec fn spec_output_errors(b: &ConfigBuilder) -> Seq<Seq<char>> {
    spec_source_output_errors(b.sources.kv_seq(), b.sources.spec_len() as int)
        + spec_transform_output_errors(b.transforms.kv_seq(), b.transforms.spec_len() as int)
}

/// Scans one component's declared outputs for duplicate ports.
fn output_row_errors(id: &str, outs: &Vec<crate::config::Output>, errors: &mut Vec<String>)
    ensures
        str_views(final(errors)@) =~= str_views(old(errors)@) + spec_output_row(
            id@,
            outs@,
            outs@.len() as int,
        ),
{
    let m = outs.len();
    for j in 0..m
        invariant
            m == outs@.len(),
            str_views(errors@) =~= str_views(old(errors)@) + spec_output_row(id@, outs@, j as int),
    {
        let mut dup = false;
        for j2 in 0..j
            invariant
                j < m,
                m == outs@.len(),
                dup == (exists|a: int|
                    0 <= a < j2 && (#[trigger] port_view(&outs@[a].port)) == port_view(
                        &outs@[j as int].port,
                    )),
        {
            if port_eq(&outs[j2].port, &outs[j].port) {
                proof {
                    assert(port_view(&outs@[j2 as int].port) == port_view(&outs@[j as int].port));
                }
                dup = true;
            }
        }
        if dup {
            let ptext = match &outs[j].port {
                Some(p) => mk_duplicate_output(id, p.as_str()),
                None => mk_duplicate_output(id, ""),
            };
            push_err(errors, ptext);
        }
    }
}

/// Each component's declared outputs must be distinct: a port (or the
/// default output) declared twice is an error.
pub fn check_outputs(b: &ConfigBuilder) -> (r: Result<(), Vec<String>>)
    ensures
        match r {
            Ok(()) => spec_output_errors(b).len() == 0,
            Err(es) => str_views(es@) =~= spec_output_errors(b) && es@.len() > 0,
        },
{
    let mut errors: Vec<String> = Vec::new();
    let sn = b.sources.len();
    for i in 0..sn
        invariant
            sn == b.sources.kv_seq().len(),
            str_views(errors@) =~= spec_source_output_errors(b.sources.kv_seq(), i as int),
    {
        let e = b.sources.entry_at(i);
        output_row_errors(e.0.id(), &e.1.inner.outputs, &mut errors);
    }
    let ghost src_errs = str_views(errors@);
    let tn = b.transforms.len();
    for i in 0..tn
        invariant
            tn == b.transforms.kv_seq().len(),
            str_views(errors@) =~= src_errs + spec_transform_output_errors(
                b.transforms.kv_seq(),
                i as int,
            ),
    {
        let e = b.transforms.entry_at(i);
        output_row_errors(e.0.id(), &e.1.inner.outputs, &mut errors);
    }
    if errors.len() == 0 {
        Ok(())
    } else {
        Err(errors)
    }
}

} // verus!
