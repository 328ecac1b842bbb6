//! Glob expansion: wildcard input references are resolved against the
//! rendered outputs of every source and every (expanded) transform.
//!
//! Each raw entry is matched against all candidates except the
//! consuming component's own id; matches replace the entry in
//! candidate order, and an entry matching nothing is kept verbatim so
//! that a later existence check can still name it.  An entry that does
//! not compile as a glob pattern falls back to literal matching, with
//! a warning.  The phase itself cannot fail.

use vstd::prelude::*;
use crate::config::{ConfigBuilder, Output, SinkOuter, SourceOuter, TransformOuter};
use crate::globpat::{glob_ok, spec_entry_matches, InputMatcher};
use crate::id::{port_view, spec_render, OutputId, ComponentKey};
use crate::inputs::{push_dedup_view, Inputs};
use crate::messages::{str_views, mk_glob_warning, msg_glob_warning};

verus! {

/// Candidate ids contributed by the first `m` outputs of a component.
pub open spec fn spec_out_cands(
    acc: Seq<Seq<char>>,
    id: Seq<char>,
    outs: Seq<Output>,
    m: int,
) -> Seq<Seq<char>>
    decreases m,
{
    if m <= 0 {
        acc
    } else {
        push_dedup_view(
            spec_out_cands(acc, id, outs, m - 1),
            spec_render(id, port_view(&outs[m - 1].port)),
        )
    }
}

/// Candidate ids after the first `n` sources.
pub open spec fn spec_src_cands(
    acc: Seq<Seq<char>>,
    kv: Seq<(Seq<char>, SourceOuter)>,
    n: int,
) -> Seq<Seq<char>>
    decreases n,
{
    if n <= 0 {
        acc
    } else {
        spec_out_cands(
            spec_src_cands(acc, kv, n - 1),
            kv[n - 1].0,
            kv[n - 1].1.inner.outputs@,
            kv[n - 1].1.inner.outputs@.len() as int,
        )
    }
}

/// Candidate ids after the first `n` transforms.
pub open spec fn spec_tr_cands(
    acc: Seq<Seq<char>>,
    kv: Seq<(Seq<char>, TransformOuter<String>)>,
    n: int,
) -> Seq<Seq<char>>
    decreases n,
{
    if n <= 0 {
        acc
    } else {
        spec_out_cands(
            spec_tr_cands(acc, kv, n - 1),
            kv[n - 1].0,
            kv[n - 1].1.inner.outputs@,
            kv[n - 1].1.inner.outputs@.len() as int,
        )
    }
}

/// The full candidate set: sources first, then transforms, each over
/// their declared outputs in order, duplicates suppressed.
pub open spec fn spec_candidates(b: &ConfigBuilder) -> Seq<Seq<char>> {
    spec_tr_cands(
        spec_src_cands(Seq::empty(), b.sources.kv_seq(), b.sources.spec_len() as int),
        b.transforms.kv_seq(),
        b.transforms.spec_len() as int,
    )
}

/// Matching one raw entry against the first `m` candidates: the new
/// input list and whether anything matched.
pub open spec fn spec_cand_fold(
    acc: Seq<Seq<char>>,
    raw: Seq<char>,
    id: Seq<char>,
    cands: Seq<Seq<char>>,
    m: int,
) -> (Seq<Seq<char>>, bool)
    decreases m,
{
    if m <= 0 {
        (acc, false)
    } else {
        let p = spec_cand_fold(acc, raw, id, cands, m - 1);
        let c = cands[m - 1];
        if spec_entry_matches(raw, c) && c != id {
            (push_dedup_view(p.0, c), true)
        } else {
            p
        }
    }
}

/// Processing one raw entry: its matches in candidate order, or the
/// entry itself when nothing matched.
pub open spec fn spec_glob_one(
    acc: Seq<Seq<char>>,
    raw: Seq<char>,
    id: Seq<char>,
    cands: Seq<Seq<char>>,
) -> Seq<Seq<char>> {
    let f = spec_cand_fold(acc, raw, id, cands, cands.len() as int);
    if f.1 {
        f.0
    } else {
        push_dedup_view(f.0, raw)
    }
}

/// Processing the first `n` raw entries of one component.
pub open spec fn spec_glob_inputs(
    raws: Seq<Seq<char>>,
    id: Seq<char>,
    cands: Seq<Seq<char>>,
    n: int,
) -> Seq<Seq<char>>
    decreases n,
{
    if n <= 0 {
        Seq::empty()
    } else {
        spec_glob_one(spec_glob_inputs(raws, id, cands, n - 1), raws[n - 1], id, cands)
    }
}

/// The literal-fallback warnings for the first `n` raw entries.
pub open spec fn spec_glob_warns(raws: Seq<Seq<char>>, id: Seq<char>, n: int) -> Seq<Seq<char>>
    decreases n,
{
    if n <= 0 {
        Seq::empty()
    } else {
        let rest = spec_glob_warns(raws, id, n - 1);
        if !glob_ok(raws[n - 1]) {
            rest.push(msg_glob_warning(id, raws[n - 1]))
        } else {
            rest
        }
    }
}

/// Renders each output of one component into the candidate list.
fn push_component_cands(cands: &mut Inputs<String>, key: &ComponentKey, outs: &Vec<Output>)
    ensures
        final(cands).views() =~= spec_out_cands(
            old(cands).views(),
            key@,
            outs@,
            outs@.len() as int,
        ),
{
    let m = outs.len();
    for j in 0..m
        invariant
            m == outs@.len(),
            cands.views() =~= spec_out_cands(old(cands).views(), key@, outs@, j as int),
    {
        let oid = OutputId {
            component: key.dup(),
            port: match &outs[j].port {
                Some(p) => Some(p.clone()),
                None => None,
            },
        };
        let rendered = oid.render();
        proof {
            assert(rendered@ == spec_render(key@, port_view(&outs@[j as int].port)));
        }
        cands.extend_one(rendered);
    }
}

/// Builds the candidate set: every output of every source, then of
/// every transform, rendered and deduplicated in declaration order.
fn build_candidates(b: &ConfigBuilder) -> (r: Inputs<String>)
    ensures
        r.views() =~= spec_candidates(b),
{
    let mut cands = Inputs::<String>::new();
    let sn = b.sources.len();
    for i in 0..sn
        invariant
            sn == b.sources.kv_seq().len(),
            cands.views() =~= spec_src_cands(
                Seq::empty(),
                b.sources.kv_seq(),
                i as int,
            ),
    {
        let e = b.sources.entry_at(i);
        push_component_cands(&mut cands, &e.0, &e.1.inner.outputs);
    }
    let ghost after_src = cands.views();
    let tn = b.transforms.len();
    for i in 0..tn
        invariant
            tn == b.transforms.kv_seq().len(),
            cands.views() =~= spec_tr_cands(after_src, b.transforms.kv_seq(), i as int),
    {
        let e = b.transforms.entry_at(i);
        push_component_cands(&mut cands, &e.0, &e.1.inner.outputs);
    }
    cands
}

/// Rewrites one component's raw input list against the candidates.
fn expand_globs_inner(
    inputs: &Inputs<String>,
    id: &String,
    cands: &Inputs<String>,
    warnings: &mut Vec<String>,
) -> (r: Inputs<String>)
    ensures
        r.views() =~= spec_glob_inputs(inputs.views(), id@, cands.views(), inputs.views().len() as int),
        str_views(final(warnings)@) =~= str_views(old(warnings)@) + spec_glob_warns(
            inputs.views(),
            id@,
            inputs.views().len() as int,
        ),
{
    let mut r = Inputs::<String>::new();
    let n = inputs.len();
    for i in 0..n
        invariant
            n == inputs.views().len(),
            r.views() =~= spec_glob_inputs(inputs.views(), id@, cands.views(), i as int),
            str_views(warnings@) =~= str_views(old(warnings)@) + spec_glob_warns(
                inputs.views(),
                id@,
                i as int,
            ),
    {
        let raw: &String = inputs.item_at(i);
        let (matcher, warned) = InputMatcher::new(raw.clone());
        if warned {
            crate::messages::push_err(warnings, mk_glob_warning(id.as_str(), raw.as_str()));
        }
        let mut matched = false;
        let m = cands.len();
        for j in 0..m
            invariant
                m == cands.views().len(),
                n == inputs.views().len(),
                i < n,
                forall|c: Seq<char>| matcher.spec_matches(c) == spec_entry_matches(
                    inputs.views()[i as int],
                    c,
                ),
                ({
                    let f = spec_cand_fold(
                        spec_glob_inputs(inputs.views(), id@, cands.views(), i as int),
                        inputs.views()[i as int],
                        id@,
                        cands.views(),
                        j as int,
                    );
                    r.views() =~= f.0 && matched == f.1
                }),
        {
            let cand: &String = cands.item_at(j);
            if matcher.matches(cand.as_str()) && !(*cand == *id) {
                matched = true;
                r.extend_one(cand.clone());
            }
        }
        if !matched {
            r.extend_one(raw.clone());
        }
    }
    r
}

/// Resolves every transform's and sink's wildcard inputs in place,
/// returning the literal-fallback warnings in order.
pub fn expand_globs(b: &mut ConfigBuilder) -> (warnings: Vec<String>)
    ensures
        final(b).sources == old(b).sources,
        final(b).tests == old(b).tests,
        final(b).transforms.kv_seq().len() == old(b).transforms.kv_seq().len(),
        final(b).sinks.kv_seq().len() == old(b).sinks.kv_seq().len(),
        forall|i: int|
            0 <= i < old(b).transforms.kv_seq().len() ==> {
                let oldkv = old(b).transforms.kv_seq()[i];
                let newkv = #[trigger] final(b).transforms.kv_seq()[i];
                &&& newkv.0 == oldkv.0
                &&& newkv.1.inner == oldkv.1.inner
                &&& newkv.1.inputs.views() =~= spec_glob_inputs(
                    oldkv.1.inputs.views(),
                    oldkv.0,
                    spec_candidates(old(b)),
                    oldkv.1.inputs.views().len() as int,
                )
            },
        forall|i: int|
            0 <= i < old(b).sinks.kv_seq().len() ==> {
                let oldkv = old(b).sinks.kv_seq()[i];
                let newkv = #[trigger] final(b).sinks.kv_seq()[i];
                &&& newkv.0 == oldkv.0
                &&& newkv.1.inner == oldkv.1.inner
                &&& newkv.1.inputs.views() =~= spec_glob_inputs(
                    oldkv.1.inputs.views(),
                    oldkv.0,
                    spec_candidates(old(b)),
                    oldkv.1.inputs.views().len() as int,
                )
            },
        str_views(warnings@) =~= spec_all_glob_warns(old(b)),
{
    let cands = build_candidates(b);
    let ghost cv = cands.views();
    let mut warnings: Vec<String> = Vec::new();
    let tn = b.transforms.len();
    let ghost tr0 = b.transforms.kv_seq();
    for i in 0..tn
        invariant
            cv == spec_candidates(old(b)),
            cands.views() =~= cv,
            tn == tr0.len(),
            b.transforms.kv_seq().len() == tr0.len(),
            b.sources == old(b).sources,
            b.sinks == old(b).sinks,
            b.tests == old(b).tests,
            tr0 == old(b).transforms.kv_seq(),
            forall|k: int|
                i <= k < tr0.len() ==> #[trigger] b.transforms.kv_seq()[k] == tr0[k],
            forall|k: int|
                0 <= k < i ==> {
                    let oldkv = tr0[k];
                    let newkv = #[trigger] b.transforms.kv_seq()[k];
                    &&& newkv.0 == oldkv.0
                    &&& newkv.1.inner == oldkv.1.inner
                    &&& newkv.1.inputs.views() =~= spec_glob_inputs(
                        oldkv.1.inputs.views(),
                        oldkv.0,
                        cv,
                        oldkv.1.inputs.views().len() as int,
                    )
                },
            str_views(warnings@) =~= spec_warns_transforms(tr0, cv, i as int),
    {
        let ghost w0 = str_views(warnings@);
        let key_id = b.transforms.entry_at(i).0.id().to_owned();
        let new_inputs = expand_globs_inner(
            &b.transforms.entry_at(i).1.inputs,
            &key_id,
            &cands,
            &mut warnings,
        );
        let v = b.transforms.val_at_mut(i);
        let mut fresh = new_inputs;
        core::mem::swap(&mut v.inputs, &mut fresh);
    }
    let ghost wt = str_views(warnings@);
    let kn = b.sinks.len();
    let ghost sk0 = b.sinks.kv_seq();
    for i in 0..kn
        invariant
            cv == spec_candidates(old(b)),
            cands.views() =~= cv,
            kn == sk0.len(),
            b.sinks.kv_seq().len() == sk0.len(),
            b.sources == old(b).sources,
            b.tests == old(b).tests,
            sk0 == old(b).sinks.kv_seq(),
            b.transforms.kv_seq().len() == old(b).transforms.kv_seq().len(),
            forall|k: int|
                0 <= k < old(b).transforms.kv_seq().len() ==> {
                    let oldkv = old(b).transforms.kv_seq()[k];
                    let newkv = #[trigger] b.transforms.kv_seq()[k];
                    &&& newkv.0 == oldkv.0
                    &&& newkv.1.inner == oldkv.1.inner
                    &&& newkv.1.inputs.views() =~= spec_glob_inputs(
                        oldkv.1.inputs.views(),
                        oldkv.0,
                        cv,
                        oldkv.1.inputs.views().len() as int,
                    )
                },
            forall|k: int| i <= k < sk0.len() ==> #[trigger] b.sinks.kv_seq()[k] == sk0[k],
            forall|k: int|
                0 <= k < i ==> {
                    let oldkv = sk0[k];
                    let newkv = #[trigger] b.sinks.kv_seq()[k];
                    &&& newkv.0 == oldkv.0
                    &&& newkv.1.inner == oldkv.1.inner
                    &&& newkv.1.inputs.views() =~= spec_glob_inputs(
                        oldkv.1.inputs.views(),
                        oldkv.0,
                        cv,
                        oldkv.1.inputs.views().len() as int,
                    )
                },
            str_views(warnings@) =~= wt + spec_warns_sinks(sk0, cv, i as int),
            wt == spec_warns_transforms(old(b).transforms.kv_seq(), cv, old(
                b,
            ).transforms.kv_seq().len() as int),
    {
        let key_id = b.sinks.entry_at(i).0.id().to_owned();
        let new_inputs = expand_globs_inner(
            &b.sinks.entry_at(i).1.inputs,
            &key_id,
            &cands,
            &mut warnings,
        );
        let v = b.sinks.val_at_mut(i);
        let mut fresh = new_inputs;
        core::mem::swap(&mut v.inputs, &mut fresh);
    }
    warnings
}

/// The warnings contributed by the first `n` transforms.
pub open spec fn spec_warns_transforms(
    kv: Seq<(Seq<char>, TransformOuter<String>)>,
    cands: Seq<Seq<char>>,
    n: int,
) -> Seq<Seq<char>>
    decreases n,
{
    if n <= 0 {
        Seq::empty()
    } else {
        spec_warns_transforms(kv, cands, n - 1) + spec_glob_warns(
            kv[n - 1].1.inputs.views(),
            kv[n - 1].0,
            kv[n - 1].1.inputs.views().len() as int,
        )
    }
}

/// The warnings contributed by the first `n` sinks.
pub open spec fn spec_warns_sinks(
    kv: Seq<(Seq<char>, SinkOuter<String>)>,
    cands: Seq<Seq<char>>,
    n: int,
) -> Seq<Seq<char>>
    decreases n,
{
    if n <= 0 {
        Seq::empty()
    } else {
        spec_warns_sinks(kv, cands, n - 1) + spec_glob_warns(
            kv[n - 1].1.inputs.views(),
            kv[n - 1].0,
            kv[n - 1].1.inputs.views().len() as int,
        )
    }
}

/// All warnings of the phase: transforms first, then sinks, each in
/// declaration order.
pub open spec fn spec_all_glob_warns(b: &ConfigBuilder) -> Seq<Seq<char>> {
    spec_warns_transforms(
        b.transforms.kv_seq(),
        spec_candidates(b),
        b.transforms.kv_seq().len() as int,
    ) + spec_warns_sinks(b.sinks.kv_seq(), spec_candidates(b), b.sinks.kv_seq().len() as int)
}


/// Matching never lets a candidate equal to the consumer's own id in:
/// the fold only adds candidates that differ from `id`.
pub proof fn lemma_cand_fold_excludes_self(
    acc: Seq<Seq<char>>,
    raw: Seq<char>,
    id: Seq<char>,
    cands: Seq<Seq<char>>,
    m: int,
)
    requires
        !acc.contains(id),
    ensures
        !spec_cand_fold(acc, raw, id, cands, m).0.contains(id),
    decreases m,
{
    if m > 0 {
        lemma_cand_fold_excludes_self(acc, raw, id, cands, m - 1);
        let p = spec_cand_fold(acc, raw, id, cands, m - 1);
        let c = cands[m - 1];
        if spec_entry_matches(raw, c) && c != id {
            assert forall|t: int|
                0 <= t < push_dedup_view(p.0, c).len() implies push_dedup_view(p.0, c)[t]
                != id by {
                if t < p.0.len() {
                    assert(!p.0.contains(id));
                }
            }
        }
    }
}

/// Self-exclusion: a component whose raw entry is not literally its
/// own id never resolves that entry to itself — wildcard matches skip
/// the consumer's own id, and the verbatim fallback is the raw entry.
pub proof fn lemma_glob_one_self_exclusion(
    acc: Seq<Seq<char>>,
    raw: Seq<char>,
    id: Seq<char>,
    cands: Seq<Seq<char>>,
)
    requires
        !acc.contains(id),
        raw != id,
    ensures
        !spec_glob_one(acc, raw, id, cands).contains(id),
{
    lemma_cand_fold_excludes_self(acc, raw, id, cands, cands.len() as int);
    let f = spec_cand_fold(acc, raw, id, cands, cands.len() as int);
    if !f.1 {
        assert forall|t: int|
            0 <= t < push_dedup_view(f.0, raw).len() implies push_dedup_view(f.0, raw)[t]
            != id by {
            if t < f.0.len() {
                assert(!f.0.contains(id));
            }
        }
    }
}

/// Self-exclusion over a whole input list: if none of the raw entries
/// is literally the component's own id, the resolved list never holds
/// the component itself.
pub proof fn lemma_glob_inputs_self_exclusion(
    raws: Seq<Seq<char>>,
    id: Seq<char>,
    cands: Seq<Seq<char>>,
    n: int,
)
    requires
        forall|k: int| 0 <= k < n ==> raws[k] != id,
    ensures
        !spec_glob_inputs(raws, id, cands, n).contains(id),
    decreases n,
{
    if n <= 0 {
    } else {
        lemma_glob_inputs_self_exclusion(raws, id, cands, n - 1);
        lemma_glob_one_self_exclusion(
            spec_glob_inputs(raws, id, cands, n - 1),
            raws[n - 1],
            id,
            cands,
        );
    }
}

/// Pass-through on no-match: a raw entry matching no candidate (other
/// than the consumer itself) is preserved verbatim in the resolved
/// list rather than silently dropped.
pub proof fn lemma_no_match_pass_through(
    acc: Seq<Seq<char>>,
    raw: Seq<char>,
    id: Seq<char>,
    cands: Seq<Seq<char>>,
)
    requires
        forall|j: int|
            0 <= j < cands.len() ==> !(spec_entry_matches(raw, #[trigger] cands[j]) && cands[j]
                != id),
    ensures
        spec_glob_one(acc, raw, id, cands) == push_dedup_view(acc, raw),
        acc.contains(raw) ==> spec_glob_one(acc, raw, id, cands) == acc,
        !acc.contains(raw) ==> spec_glob_one(acc, raw, id, cands).contains(raw),
{
    lemma_cand_fold_no_match(acc, raw, id, cands, cands.len() as int);
    let f = spec_cand_fold(acc, raw, id, cands, cands.len() as int);
    assert(f == (acc, false));
    if !acc.contains(raw) {
        assert(push_dedup_view(acc, raw)[acc.len() as int] == raw);
    }
}

/// The candidate fold leaves everything untouched when nothing
/// matches.
pub proof fn lemma_cand_fold_no_match(
    acc: Seq<Seq<char>>,
    raw: Seq<char>,
    id: Seq<char>,
    cands: Seq<Seq<char>>,
    m: int,
)
    requires
        forall|j: int|
            0 <= j < cands.len() ==> !(spec_entry_matches(raw, #[trigger] cands[j]) && cands[j]
                != id),
    ensures
        m <= cands.len() ==> spec_cand_fold(acc, raw, id, cands, m) == (acc, false),
    decreases m,
{
    if m > 0 {
        lemma_cand_fold_no_match(acc, raw, id, cands, m - 1);
    }
}

} // verus!
